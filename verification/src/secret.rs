//! Secret identities: the targets of the post-interpolation Base64 encoding.

use vstd::prelude::*;

use crate::text::str_eq;

verus! {

/// A secret's identity. If a set of these values is passed to a template, the
/// data values of every matching `Secret` resource are Base64-encoded after
/// interpolation, and every member must be matched by some resource.
pub struct Secret {
    /// The name of the secret.
    pub name: String,
    /// The namespace of the secret.
    pub namespace: String,
}

/// The model of a secret identity.
pub struct SecretModel {
    /// Model of the name.
    pub name: Seq<char>,
    /// Model of the namespace.
    pub namespace: Seq<char>,
}

/// The model of a secret.
pub open spec fn secret_model(s: Secret) -> SecretModel {
    SecretModel { name: s.name@, namespace: s.namespace@ }
}

/// A set of secret identities.
pub struct Secrets {
    items: Vec<Secret>,
}

impl Secrets {
    /// The declared identities in the order they were added.
    pub closed spec fn seq_model(&self) -> Seq<SecretModel> {
        Seq::new(self.items@.len(), |i: int| secret_model(self.items@[i]))
    }

    /// The set of declared identities.
    pub open spec fn model(&self) -> Set<SecretModel> {
        self.seq_model().to_set()
    }

    /// Creates an empty set.
    pub fn new() -> (r: Secrets)
        ensures
            r.seq_model() == Seq::<SecretModel>::empty(),
            r.model() == Set::<SecretModel>::empty(),
    {
        let r = Secrets { items: Vec::new() };
        proof {
            assert(r.seq_model() =~= Seq::<SecretModel>::empty());
            assert(r.model() =~= Set::<SecretModel>::empty());
        }
        r
    }

    /// Adds an identity to the set.
    pub fn insert(&mut self, secret: Secret)
        ensures
            final(self).seq_model() == old(self).seq_model().push(secret_model(secret)),
            final(self).model() == old(self).model().insert(secret_model(secret)),
    {
        let ghost before = old(self).seq_model();
        let ghost x = secret_model(secret);
        self.items.push(secret);
        proof {
            let after = self.seq_model();
            assert(after =~= before.push(x));
            assert forall|id: SecretModel| after.to_set().contains(id) implies before.to_set().insert(
                x,
            ).contains(id) by {
                let i = choose|i: int| 0 <= i < after.len() && after[i] == id;
                if i < before.len() {
                    assert(before[i] == id);
                } else {
                    assert(id == x);
                }
            }
            assert forall|id: SecretModel| before.to_set().insert(x).contains(id) implies after.to_set().contains(
                id,
            ) by {
                if id == x {
                    assert(after[after.len() - 1] == id);
                } else {
                    let i = choose|i: int| 0 <= i < before.len() && before[i] == id;
                    assert(after[i] == id);
                }
            }
            assert(self.model() =~= old(self).model().insert(x));
        }
    }

    /// The number of identities added.
    pub fn count(&self) -> (r: usize)
        ensures
            r == self.seq_model().len(),
    {
        self.items.len()
    }

    /// Whether the identity at an index has the given name and namespace.
    pub fn matches_at(&self, i: usize, name: &str, namespace: &str) -> (r: bool)
        requires
            i < self.seq_model().len(),
        ensures
            r == (self.seq_model()[i as int] == SecretModel {
                name: name@,
                namespace: namespace@,
            }),
    {
        let hit = str_eq(self.items[i].name.as_str(), name) && str_eq(
            self.items[i].namespace.as_str(),
            namespace,
        );
        proof {
            assert(self.seq_model()[i as int] == secret_model(self.items@[i as int]));
        }
        hit
    }
}

} // verus!
