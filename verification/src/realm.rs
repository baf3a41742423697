//! Execution-context markers and the small deduplicating set that holds them.

use vstd::prelude::*;

verus! {

broadcast use vstd::set::group_set_axioms;

/// Where a documented item is available: on the server, on the client, or both.
#[derive(Debug, Clone, Copy, PartialEq, Eq, Structural)]
pub enum Realm {
    Server,
    Client,
}

/// A set of realm markers. Insertion is idempotent, so the set never holds a
/// duplicate, and iteration order is fixed (`Server` before `Client`) so that
/// downstream output is deterministic whatever the order of the input tags.
#[derive(Debug, Clone, Copy, PartialEq, Eq, Structural)]
pub struct RealmSet {
    server: bool,
    client: bool,
}

impl View for RealmSet {
    type V = Set<Realm>;

    closed spec fn view(&self) -> Set<Realm> {
        let s = Set::<Realm>::empty();
        let s = if self.server {
            s.insert(Realm::Server)
        } else {
            s
        };
        if self.client {
            s.insert(Realm::Client)
        } else {
            s
        }
    }
}

/// The fixed order in which a realm set is handed out: `Server` first.
pub open spec fn realm_order(s: Set<Realm>) -> Seq<Realm> {
    let v = Seq::<Realm>::empty();
    let v = if s.contains(Realm::Server) {
        v.push(Realm::Server)
    } else {
        v
    };
    if s.contains(Realm::Client) {
        v.push(Realm::Client)
    } else {
        v
    }
}

impl RealmSet {
    /// The empty realm set.
    pub fn new() -> (s: RealmSet)
        ensures
            s@ == Set::<Realm>::empty(),
    {
        RealmSet { server: false, client: false }
    }

    /// Adds one marker; adding a marker already present changes nothing.
    pub fn insert(&mut self, realm: Realm)
        ensures
            final(self)@ == old(self)@.insert(realm),
    {
        match realm {
            Realm::Server => {
                self.server = true;
            },
            Realm::Client => {
                self.client = true;
            },
        }
        proof {
            assert(self@ =~= old(self)@.insert(realm));
        }
    }

    /// Whether the given marker is present.
    pub fn contains(&self, realm: Realm) -> (b: bool)
        ensures
            b == self@.contains(realm),
    {
        match realm {
            Realm::Server => self.server,
            Realm::Client => self.client,
        }
    }

    /// How many distinct markers are present: at most two.
    pub fn len(&self) -> (n: usize)
        ensures
            n == self@.len(),
            n <= 2,
    {
        let mut n: usize = 0;
        if self.server {
            n = n + 1;
        }
        if self.client {
            n = n + 1;
        }
        n
    }

    /// The markers in their fixed order, `Server` before `Client`.
    pub fn to_vec(&self) -> (v: Vec<Realm>)
        ensures
            v@ == realm_order(self@),
    {
        let mut v: Vec<Realm> = Vec::new();
        if self.server {
            v.push(Realm::Server);
        }
        if self.client {
            v.push(Realm::Client);
        }
        proof {
            assert(self@.contains(Realm::Server) == self.server);
            assert(self@.contains(Realm::Client) == self.client);
            assert(v@ =~= realm_order(self@));
        }
        v
    }
}

} // verus!
