//! The registry of connected clients.
//!
//! The registry is the hub's single piece of shared state: a map from each
//! connected client's identity to its label and the producer end of its
//! delivery channel. An identity is registered at most once.

use crate::frame::Message;
use std::collections::HashMap;
use tokio::sync::mpsc::UnboundedSender;
use vstd::prelude::*;

verus! {

/// One connected client: its display label and the producer end of its
/// delivery channel.
pub struct Client {
    pub name: String,
    pub sender: UnboundedSender<Message>,
}

/// Why a registration was refused.
#[derive(Debug, PartialEq, Eq)]
pub enum RegistryError {
    /// The identity is already registered.
    DuplicateIdentity,
}

/// The shared collection of connected clients, keyed by identity.
pub struct Registry {
    clients: HashMap<u128, Client>,
}

impl View for Registry {
    type V = Map<u128, Client>;

    closed spec fn view(&self) -> Map<u128, Client> {
        self.clients@
    }
}

impl Registry {
    /// Whether `identity` is registered.
    pub open spec fn has(&self, identity: u128) -> bool {
        self@.contains_key(identity)
    }

    /// A registry holds finitely many clients.
    pub proof fn lemma_finite(&self)
        ensures
            self@.dom().finite(),
    {
        broadcast use vstd::std_specs::hash::group_hash_axioms;

    }

    /// An empty registry.
    pub fn new() -> (registry: Registry)
        ensures
            registry@ == Map::<u128, Client>::empty(),
    {
        Registry { clients: HashMap::new() }
    }

    /// The number of connected clients.
    pub fn len(&self) -> (n: usize)
        ensures
            n == self@.len(),
    {
        broadcast use vstd::std_specs::hash::group_hash_axioms;

        self.clients.len()
    }

    /// Whether nobody is connected.
    pub fn is_empty(&self) -> (empty: bool)
        ensures
            empty == (self@.len() == 0),
    {
        broadcast use vstd::std_specs::hash::group_hash_axioms;

        self.clients.len() == 0
    }

    /// Whether `identity` is registered.
    pub fn contains(&self, identity: u128) -> (found: bool)
        ensures
            found == self.has(identity),
    {
        broadcast use vstd::std_specs::hash::group_hash_axioms;

        self.clients.contains_key(&identity)
    }

    /// The entry of `identity`, if it is registered.
    pub fn get(&self, identity: u128) -> (entry: Option<&Client>)
        ensures
            match entry {
                Some(client) => self.has(identity) && *client == self@[identity],
                None => !self.has(identity),
            },
    {
        broadcast use vstd::std_specs::hash::group_hash_axioms;

        self.clients.get(&identity)
    }

    /// The label `identity` is registered under, if it is registered.
    pub fn label_of(&self, identity: u128) -> (label: Option<String>)
        ensures
            match label {
                Some(name) => self.has(identity) && name@ == self@[identity].name@,
                None => !self.has(identity),
            },
    {
        match self.get(identity) {
            Some(client) => Some(client.name.clone()),
            None => None,
        }
    }

    /// The identities registered right now, each once: a consistent view to
    /// fan out over. Their order is that in which the map is walked, which is
    /// not fixed.
    pub fn snapshot(&self) -> (ids: Vec<u128>)
        ensures
            ids@.no_duplicates(),
            ids@.to_set() == self@.dom(),
    {
        broadcast use vstd::std_specs::hash::group_hash_axioms;

        let mut ids: Vec<u128> = Vec::new();
        let keys = self.clients.keys();
        let ghost all: Seq<u128> = vstd::std_specs::hash::into_iter_keys(keys);
        assert(all.to_set() == self@.dom());
        assert(all.no_duplicates());
        for identity in walk: keys
            invariant
                walk.seq().unref() == all,
                walk.seq().len() == all.len(),
                ids@ == all.take(walk.index() as int),
        {
            ids.push(*identity);
            proof {
                assert(all.take(walk.index() + 1) =~= all.take(walk.index() as int).push(
                    *identity,
                ));
            }
        }
        proof {
            assert(ids@ =~= all);
        }
        ids
    }

    /// Registers a client. An identity that is already registered is refused
    /// and the registry is left as it was; any other identity is added.
    pub fn register(&mut self, identity: u128, name: String, sender: UnboundedSender<Message>) -> (done:
        Result<(), RegistryError>)
        ensures
            old(self).has(identity) ==> done == Err::<(), RegistryError>(
                RegistryError::DuplicateIdentity,
            ) && final(self)@ == old(self)@,
            !old(self).has(identity) ==> done is Ok && final(self)@ == old(self)@.insert(
                identity,
                (Client { name, sender }),
            ),
    {
        broadcast use vstd::std_specs::hash::group_hash_axioms;

        if self.clients.contains_key(&identity) {
            return Err(RegistryError::DuplicateIdentity);
        }
        let _ = self.clients.insert(identity, Client { name, sender });
        Ok(())
    }

    /// Removes the entry of `identity` if there is one, and says whether
    /// there was. Removing an identity that is not registered changes nothing.
    pub fn deregister(&mut self, identity: u128) -> (removed: bool)
        ensures
            removed == old(self).has(identity),
            final(self)@ == old(self)@.remove(identity),
            final(self)@.len() == old(self)@.len() - if removed {
                1int
            } else {
                0int
            },
    {
        broadcast use vstd::std_specs::hash::group_hash_axioms;

        let gone = self.clients.remove(&identity);
        proof {
            lemma_remove_len(old(self)@, identity);
        }
        gone.is_some()
    }
}

impl Default for Registry {
    /// An empty registry.
    fn default() -> (registry: Registry)
        ensures
            registry@ == Map::<u128, Client>::empty(),
    {
        Registry::new()
    }
}

/// Removing an identity from finitely many entries takes one entry away if
/// the identity was there, and none if it was not.
pub proof fn lemma_remove_len(entries: Map<u128, Client>, identity: u128)
    requires
        entries.dom().finite(),
    ensures
        entries.remove(identity).len() == entries.len() - if entries.contains_key(identity) {
            1int
        } else {
            0int
        },
{
    assert(entries.remove(identity).dom() =~= entries.dom().remove(identity));
}

/// Deregistering twice is the same as deregistering once: the second removal
/// finds nothing and leaves the entries, and so their number, as they were.
pub proof fn lemma_deregister_idempotent(entries: Map<u128, Client>, identity: u128)
    ensures
        !entries.remove(identity).contains_key(identity),
        entries.remove(identity).remove(identity) == entries.remove(identity),
        entries.remove(identity).remove(identity).len() == entries.remove(identity).len(),
{
    assert(entries.remove(identity).remove(identity) =~= entries.remove(identity));
}

} // verus!
