use vstd::prelude::*;

verus! {

/// A client's identity, assigned once when it connects.
pub type ClientId = u128;

/// One registered client: its identity and its display name (empty while unset).
pub struct Client {
    pub id: ClientId,
    pub name: Vec<u8>,
}

/// The connected clients, most recently connected first.
pub struct Registry {
    clients: Vec<Client>,
}

/// No two entries share an identity.
pub open spec fn unique_ids(s: Seq<(ClientId, Seq<u8>)>) -> bool {
    forall|i: int, j: int|
        0 <= i < s.len() && 0 <= j < s.len() && i != j ==> #[trigger] s[i].0 != #[trigger] s[j].0
}

pub open spec fn registered(s: Seq<(ClientId, Seq<u8>)>, id: ClientId) -> bool {
    exists|i: int| 0 <= i < s.len() && #[trigger] s[i].0 == id
}

/// The name under which `id` is registered; empty if it is not registered.
pub open spec fn name_of(s: Seq<(ClientId, Seq<u8>)>, id: ClientId) -> Seq<u8> {
    if registered(s, id) {
        s[choose|i: int| 0 <= i < s.len() && #[trigger] s[i].0 == id].1
    } else {
        Seq::empty()
    }
}

/// The registry after `id` connects.
pub open spec fn with_client(s: Seq<(ClientId, Seq<u8>)>, id: ClientId) -> Seq<(ClientId, Seq<u8>)> {
    seq![(id, Seq::<u8>::empty())] + s
}

/// The registry with the name of `id` replaced by `n`.
pub open spec fn renamed(s: Seq<(ClientId, Seq<u8>)>, id: ClientId, n: Seq<u8>) -> Seq<(ClientId, Seq<u8>)> {
    s.map_values(|c: (ClientId, Seq<u8>)| if c.0 == id { (c.0, n) } else { c })
}

/// The registry without the entry of `id`.
pub open spec fn without(s: Seq<(ClientId, Seq<u8>)>, id: ClientId) -> Seq<(ClientId, Seq<u8>)> {
    s.filter(|c: (ClientId, Seq<u8>)| c.0 != id)
}

/// The names of all entries, in registry order.
pub open spec fn names(s: Seq<(ClientId, Seq<u8>)>) -> Seq<Seq<u8>> {
    s.map_values(|c: (ClientId, Seq<u8>)| c.1)
}

/// The identities of all entries, in registry order.
pub open spec fn ids(s: Seq<(ClientId, Seq<u8>)>) -> Seq<ClientId> {
    s.map_values(|c: (ClientId, Seq<u8>)| c.0)
}

impl View for Registry {
    type V = Seq<(ClientId, Seq<u8>)>;

    closed spec fn view(&self) -> Seq<(ClientId, Seq<u8>)> {
        self.clients@.map_values(|c: Client| (c.id, c.name@))
    }
}

pub proof fn lemma_name_at(s: Seq<(ClientId, Seq<u8>)>, i: int)
    requires
        unique_ids(s),
        0 <= i < s.len(),
    ensures
        registered(s, s[i].0),
        name_of(s, s[i].0) == s[i].1,
{
    let id = s[i].0;
    assert(registered(s, id));
    let j = choose|j: int| 0 <= j < s.len() && #[trigger] s[j].0 == id;
    assert(j == i);
}

/// Filtering out a key that only position `i` holds removes exactly that position.
pub proof fn lemma_without_at(s: Seq<(ClientId, Seq<u8>)>, i: int)
    requires
        unique_ids(s),
        0 <= i < s.len(),
    ensures
        without(s, s[i].0) == s.remove(i),
    decreases s.len(),
{
    let id = s[i].0;
    reveal(Seq::filter);
    if i == s.len() - 1 {
        let t = s.drop_last();
        assert(!registered(t, id)) by {
            if registered(t, id) {
                let k = choose|k: int| 0 <= k < t.len() && #[trigger] t[k].0 == id;
                assert(s[k].0 == s[i].0);
            }
        }
        lemma_without_absent(t, id);
        assert(without(s, id) == without(t, id));
        assert(s.remove(i) =~= t);
    } else {
        let t = s.drop_last();
        assert forall|a: int, b: int| 0 <= a < t.len() && 0 <= b < t.len() && a != b implies
            #[trigger] t[a].0 != #[trigger] t[b].0 by {
            assert(s[a].0 != s[b].0);
        }
        assert(t[i].0 == id);
        lemma_without_at(t, i);
        assert(s.last().0 != id) by {
            assert(s[s.len() - 1].0 != s[i].0);
        }
        assert(without(s, id) == without(t, id).push(s.last()));
        assert(s.remove(i) =~= t.remove(i).push(s.last()));
    }
}

/// Filtering out a key that no entry holds changes nothing.
pub proof fn lemma_without_absent(s: Seq<(ClientId, Seq<u8>)>, id: ClientId)
    requires
        !registered(s, id),
    ensures
        without(s, id) == s,
    decreases s.len(),
{
    reveal(Seq::filter);
    if s.len() > 0 {
        let t = s.drop_last();
        assert(!registered(t, id)) by {
            if registered(t, id) {
                let k = choose|k: int| 0 <= k < t.len() && #[trigger] t[k].0 == id;
                assert(s[k].0 == id);
            }
        }
        lemma_without_absent(t, id);
        assert(s[s.len() - 1].0 != id);
        assert(without(s, id) == without(t, id).push(s.last()));
        assert(s =~= t.push(s.last()));
    }
}

/// Relies on uuid::Uuid::new_v4 and Uuid::as_u128: a random version-4
/// identifier as one 128-bit integer. Nothing is promised of its value.
#[verifier::external_body]
fn random_client_id() -> (r: ClientId) {
    uuid::Uuid::new_v4().as_u128()
}

impl Registry {
    /// Every identity occurs at most once.
    pub open spec fn wf(&self) -> bool {
        unique_ids(self@)
    }

    /// An empty registry.
    pub fn new() -> (r: Registry)
        ensures
            r.wf(),
            r@ == Seq::<(ClientId, Seq<u8>)>::empty(),
    {
        let r = Registry { clients: Vec::new() };
        assert(r@ =~= Seq::<(ClientId, Seq<u8>)>::empty());
        r
    }

    /// The number of registered clients.
    pub fn len(&self) -> (r: usize)
        ensures
            r == self@.len(),
    {
        self.clients.len()
    }

    /// The position of `id`, if it is registered.
    fn find(&self, id: ClientId) -> (r: Option<usize>)
        ensures
            match r {
                Some(i) => i < self@.len() && self@[i as int].0 == id,
                None => !registered(self@, id),
            },
    {
        let mut i: usize = 0;
        while i < self.clients.len()
            invariant
                0 <= i <= self@.len(),
                forall|k: int| 0 <= k < i ==> self@[k].0 != id,
            decreases self@.len() - i,
        {
            if self.clients[i].id == id {
                return Some(i);
            }
            i = i + 1;
        }
        None
    }

    /// Whether `id` is registered.
    pub fn contains(&self, id: ClientId) -> (r: bool)
        ensures
            r == registered(self@, id),
    {
        match self.find(id) {
            Some(_) => true,
            None => false,
        }
    }

    /// A copy of the name under which `id` is registered; empty if it is not.
    pub fn name(&self, id: ClientId) -> (r: Vec<u8>)
        requires
            self.wf(),
        ensures
            r@ == name_of(self@, id),
    {
        match self.find(id) {
            Some(i) => {
                proof {
                    lemma_name_at(self@, i as int);
                }
                let n = self.clients[i].name.clone();
                assert(n@ =~= self.clients[i as int].name@);
                n
            },
            None => Vec::new(),
        }
    }

    /// Registers a new client with an empty name. Refused, changing nothing,
    /// when `id` is already registered.
    pub fn insert(&mut self, id: ClientId) -> (r: bool)
        requires
            old(self).wf(),
        ensures
            final(self).wf(),
            r == !registered(old(self)@, id),
            r ==> final(self)@ == with_client(old(self)@, id),
            !r ==> final(self)@ == old(self)@,
    {
        if self.contains(id) {
            return false;
        }
        self.clients.insert(0, Client { id, name: Vec::new() });
        assert(self@ =~= with_client(old(self)@, id));
        assert forall|a: int, b: int|
            0 <= a < self@.len() && 0 <= b < self@.len() && a != b implies
            #[trigger] self@[a].0 != #[trigger] self@[b].0 by {
            if a > 0 && b > 0 {
                assert(old(self)@[a - 1].0 != old(self)@[b - 1].0);
            } else if a == 0 {
                assert(old(self)@[b - 1].0 != id);
            } else {
                assert(old(self)@[a - 1].0 != id);
            }
        }
        true
    }

    /// Registers a newly connected client under a fresh random identity and
    /// returns it; `None`, changing nothing, if that identity is already taken,
    /// which cannot happen while the registry is empty.
    pub fn connect(&mut self) -> (r: Option<ClientId>)
        requires
            old(self).wf(),
        ensures
            final(self).wf(),
            match r {
                Some(id) => !registered(old(self)@, id) && final(self)@ == with_client(old(self)@, id),
                None => final(self)@ == old(self)@,
            },
            r is None ==> old(self)@.len() > 0,
    {
        let id: ClientId = random_client_id();
        if self.insert(id) {
            Some(id)
        } else {
            None
        }
    }

    /// Replaces the name of `id`, leaving every other entry as it was. Returns
    /// whether `id` was registered; if not, nothing changes.
    pub fn update_name(&mut self, id: ClientId, new_name: Vec<u8>) -> (r: bool)
        requires
            old(self).wf(),
        ensures
            final(self).wf(),
            r == registered(old(self)@, id),
            final(self)@ == renamed(old(self)@, id, new_name@),
    {
        match self.find(id) {
            Some(i) => {
                let ghost n = new_name@;
                let mut c = self.clients.remove(i);
                c.name = new_name;
                self.clients.insert(i, c);
                assert forall|k: int| 0 <= k < self@.len() implies #[trigger] self@[k]
                    == renamed(old(self)@, id, n)[k] by {
                    if k != i {
                        assert(old(self)@[k].0 != old(self)@[i as int].0);
                    }
                }
                assert(self@ =~= renamed(old(self)@, id, n));
                true
            },
            None => {
                assert(self@ =~= renamed(old(self)@, id, new_name@));
                false
            },
        }
    }

    /// Deletes the entry of `id`; nothing changes if it is absent.
    pub fn remove(&mut self, id: ClientId)
        requires
            old(self).wf(),
        ensures
            final(self).wf(),
            final(self)@ == without(old(self)@, id),
    {
        match self.find(id) {
            Some(i) => {
                self.clients.remove(i);
                proof {
                    lemma_without_at(old(self)@, i as int);
                }
                assert(self@ =~= old(self)@.remove(i as int));
                assert forall|a: int, b: int|
                    0 <= a < self@.len() && 0 <= b < self@.len() && a != b implies
                    #[trigger] self@[a].0 != #[trigger] self@[b].0 by {
                    let a2 = if a < i { a } else { a + 1 };
                    let b2 = if b < i { b } else { b + 1 };
                    assert(old(self)@[a2].0 != old(self)@[b2].0);
                }
            },
            None => {
                proof {
                    lemma_without_absent(old(self)@, id);
                }
            },
        }
    }

    /// The names of all clients, in registry order.
    pub fn names(&self) -> (r: Vec<Vec<u8>>)
        ensures
            r@.map_values(|n: Vec<u8>| n@) == names(self@),
    {
        let mut out: Vec<Vec<u8>> = Vec::new();
        let mut i: usize = 0;
        while i < self.clients.len()
            invariant
                0 <= i <= self@.len(),
                out@.len() == i,
                forall|k: int| 0 <= k < i ==> (#[trigger] out@[k])@ == self@[k].1,
            decreases self@.len() - i,
        {
            let n = self.clients[i].name.clone();
            assert(n@ =~= self.clients[i as int].name@);
            out.push(n);
            i = i + 1;
        }
        assert(out@.map_values(|n: Vec<u8>| n@) =~= names(self@));
        out
    }

    /// The identities of all clients, in registry order.
    pub fn ids(&self) -> (r: Vec<ClientId>)
        ensures
            r@ == ids(self@),
    {
        let mut out: Vec<ClientId> = Vec::new();
        let mut i: usize = 0;
        while i < self.clients.len()
            invariant
                0 <= i <= self@.len(),
                out@ == ids(self@).subrange(0, i as int),
            decreases self@.len() - i,
        {
            out.push(self.clients[i].id);
            assert(out@ =~= ids(self@).subrange(0, i + 1));
            i = i + 1;
        }
        assert(out@ =~= ids(self@));
        out
    }
}

} // verus!
