//! A template-processing engine for parameterized manifest documents.
//!
//! A template is a YAML document that declares a list of resource `objects`
//! and a list of named `parameters`. Processing a template substitutes the
//! resolved parameter values into placeholders (`$(NAME)` and `$((NAME))`)
//! embedded in the objects' string fields, optionally Base64-encodes the
//! payload of designated secret resources, and serializes the rewritten
//! objects back to text.

pub mod encoding;
pub mod laws;
pub mod node;
pub mod parameter;
pub mod parameterfile;
pub mod processor;
pub mod secret;
pub mod template;
pub mod text;
pub mod yaml_io;

pub use node::Node;
pub use parameter::{
    parameter_values_from_str, parameter_values_from_yaml, ParamMap, Parameter, ParameterType,
    ParameterValue, ParameterValues,
};
pub use parameterfile::ParameterFile;
pub use secret::{Secret, Secrets};
pub use template::Template;
