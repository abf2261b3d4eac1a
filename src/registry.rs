//! The address registry: at most one server per listen address, shared by
//! reference count among the callers that acquired it.

use vstd::prelude::*;

verus! {

/// One registered server: its address, its handle and how many callers hold it.
pub struct Entry<T> {
    pub addr: String,
    pub handle: T,
    pub holders: u64,
}

/// Outcome of joining an address that may already be served.
pub enum Join {
    /// The address was registered; its holder count is now the value.
    Joined(u64),
    /// Nothing serves the address: the caller must bind and `insert`.
    Vacant,
    /// The holder count cannot grow any further; nothing changed.
    Saturated,
}

/// Outcome of releasing an address.
pub enum Release<T> {
    /// Nothing was registered under the address.
    Absent,
    /// Other holders remain; the value is their number.
    Held(u64),
    /// The last holder left: the entry was removed and its handle is returned
    /// so that the caller can clear its running flag.
    Removed(T),
}

/// Whether two strings hold the same characters, compared through their
/// UTF-8 bytes.
fn same_text(a: &str, b: &str) -> (r: bool)
    ensures
        r == (a@ == b@),
{
    let x = a.as_bytes();
    let y = b.as_bytes();
    proof {
        vstd::utf8::encode_utf8_decode_utf8(a@);
        vstd::utf8::encode_utf8_decode_utf8(b@);
    }
    if x.len() != y.len() {
        return false;
    }
    let mut i: usize = 0;
    while i < x.len()
        invariant
            x@ == vstd::utf8::encode_utf8(a@),
            y@ == vstd::utf8::encode_utf8(b@),
            x@.len() == y@.len(),
            i <= x@.len(),
            forall|j: int| 0 <= j < i ==> x@[j] == y@[j],
        decreases x@.len() - i,
    {
        if x[i] != y[i] {
            return false;
        }
        i = i + 1;
    }
    proof {
        assert(x@ =~= y@);
    }
    true
}

/// Mapping from listen address to the server registered there.
pub struct Registry<T> {
    entries: Vec<Entry<T>>,
    model: Ghost<Map<Seq<char>, (T, nat)>>,
}

/// The registry after one more caller joined the server at `k`.
pub open spec fn joined<T>(m: Map<Seq<char>, (T, nat)>, k: Seq<char>) -> Map<Seq<char>, (T, nat)> {
    m.insert(k, (m[k].0, m[k].1 + 1))
}

/// The registry after a new server `h` was registered at `k` with one holder.
pub open spec fn inserted<T>(m: Map<Seq<char>, (T, nat)>, k: Seq<char>, h: T) -> Map<Seq<char>, (T, nat)> {
    m.insert(k, (h, 1))
}

/// The registry after one holder of `k` released it: the entry goes when its
/// last holder leaves.
pub open spec fn released<T>(m: Map<Seq<char>, (T, nat)>, k: Seq<char>) -> Map<Seq<char>, (T, nat)> {
    if !m.contains_key(k) {
        m
    } else if m[k].1 <= 1 {
        m.remove(k)
    } else {
        m.insert(k, (m[k].0, (m[k].1 - 1) as nat))
    }
}

impl<T> View for Registry<T> {
    type V = Map<Seq<char>, (T, nat)>;

    closed spec fn view(&self) -> Map<Seq<char>, (T, nat)> {
        self.model@
    }
}

impl<T> Registry<T> {
    /// Every entry is in the model with its handle and count, counts are at
    /// least one, addresses are distinct, and the model holds nothing else.
    pub closed spec fn wf(&self) -> bool {
        let e = self.entries@;
        let m = self.model@;
        &&& forall|i: int|
            0 <= i < e.len() ==> #[trigger] m.contains_key(e[i].addr@) && m[e[i].addr@] == (
                e[i].handle,
                e[i].holders as nat,
            ) && e[i].holders >= 1
        &&& forall|i: int, j: int|
            0 <= i < e.len() && 0 <= j < e.len() && i != j ==> e[i].addr@ != e[j].addr@
        &&& forall|k: Seq<char>| #[trigger]
            m.contains_key(k) ==> exists|i: int| 0 <= i < e.len() && e[i].addr@ == k
    }

    /// An empty registry.
    pub fn new() -> (r: Self)
        ensures
            r.wf(),
            r@ == Map::<Seq<char>, (T, nat)>::empty(),
    {
        Registry { entries: Vec::new(), model: Ghost(Map::empty()) }
    }

    /// Position of the entry for `addr`, if any.
    fn find(&self, addr: &str) -> (r: Option<usize>)
        requires
            self.wf(),
        ensures
            match r {
                Some(i) => i < self.entries@.len() && self.entries@[i as int].addr@ == addr@
                    && self@.contains_key(addr@) && self@[addr@] == (
                    self.entries@[i as int].handle,
                    self.entries@[i as int].holders as nat,
                ) && self.entries@[i as int].holders >= 1,
                None => !self@.contains_key(addr@),
            },
    {
        let mut i: usize = 0;
        while i < self.entries.len()
            invariant
                self.wf(),
                i <= self.entries@.len(),
                forall|j: int| 0 <= j < i ==> self.entries@[j].addr@ != addr@,
            decreases self.entries@.len() - i,
        {
            if same_text(self.entries[i].addr.as_str(), addr) {
                assert(self.model@.contains_key(self.entries@[i as int].addr@));
                return Some(i);
            }
            i = i + 1;
        }
        None
    }

    /// The handle registered at `addr`, if any.
    pub fn get(&self, addr: &str) -> (r: Option<&T>)
        requires
            self.wf(),
        ensures
            match r {
                Some(h) => self@.contains_key(addr@) && *h == self@[addr@].0,
                None => !self@.contains_key(addr@),
            },
    {
        match self.find(addr) {
            Some(i) => Some(&self.entries[i].handle),
            None => None,
        }
    }

    /// How many callers hold the server at `addr` (zero when none is registered).
    pub fn holders(&self, addr: &str) -> (r: u64)
        requires
            self.wf(),
        ensures
            r as nat == if self@.contains_key(addr@) {
                self@[addr@].1
            } else {
                0
            },
    {
        match self.find(addr) {
            Some(i) => self.entries[i].holders,
            None => 0,
        }
    }

    /// One more caller takes the server at `addr`, if one is registered.
    pub fn join(&mut self, addr: &str) -> (r: Join)
        requires
            old(self).wf(),
        ensures
            final(self).wf(),
            match r {
                Join::Joined(n) => old(self)@.contains_key(addr@) && final(self)@ == joined(
                    old(self)@,
                    addr@,
                ) && n as nat == final(self)@[addr@].1,
                Join::Vacant => !old(self)@.contains_key(addr@) && final(self)@ == old(self)@,
                Join::Saturated => old(self)@.contains_key(addr@) && old(self)@[addr@].1
                    == u64::MAX && final(self)@ == old(self)@,
            },
    {
        match self.find(addr) {
            None => Join::Vacant,
            Some(i) => {
                let n = self.entries[i].holders;
                if n == u64::MAX {
                    return Join::Saturated;
                }
                let ghost k = addr@;
                let ghost e0 = self.entries@;
                self.entries[i].holders = n + 1;
                proof {
                    self.model@ = joined(self.model@, k);
                    assert forall|j: int| 0 <= j < self.entries@.len() && j != i implies self.entries@[j]
                        == e0[j] by {}
                    assert forall|q: Seq<char>| #[trigger]
                        self.model@.contains_key(q) implies exists|j: int|
                        0 <= j < self.entries@.len() && self.entries@[j].addr@ == q by {
                        if q != k {
                            let j = choose|j: int| 0 <= j < e0.len() && e0[j].addr@ == q;
                            assert(self.entries@[j].addr@ == q);
                        } else {
                            assert(self.entries@[i as int].addr@ == q);
                        }
                    }
                }
                Join::Joined(n + 1)
            },
        }
    }

    /// Registers a freshly bound server at `addr` with one holder.
    pub fn insert(&mut self, addr: String, handle: T)
        requires
            old(self).wf(),
            !old(self)@.contains_key(addr@),
        ensures
            final(self).wf(),
            final(self)@ == inserted(old(self)@, addr@, handle),
    {
        let ghost k = addr@;
        let ghost h = handle;
        let ghost e0 = self.entries@;
        self.entries.push(Entry { addr, handle, holders: 1 });
        proof {
            self.model@ = inserted(self.model@, k, h);
            let n = e0.len() as int;
            assert(self.entries@[n].addr@ == k);
            assert forall|j: int| 0 <= j < n implies self.entries@[j] == e0[j] by {}
            assert forall|q: Seq<char>| #[trigger]
                self.model@.contains_key(q) implies exists|j: int|
                0 <= j < self.entries@.len() && self.entries@[j].addr@ == q by {
                if q != k {
                    let j = choose|j: int| 0 <= j < e0.len() && e0[j].addr@ == q;
                    assert(self.entries@[j].addr@ == q);
                }
            }
        }
    }

    /// One holder of `addr` lets go. The last one to do so removes the entry
    /// and receives its handle.
    pub fn release(&mut self, addr: &str) -> (r: Release<T>)
        requires
            old(self).wf(),
        ensures
            final(self).wf(),
            final(self)@ == released(old(self)@, addr@),
            match r {
                Release::Absent => !old(self)@.contains_key(addr@),
                Release::Held(n) => old(self)@.contains_key(addr@) && old(self)@[addr@].1 >= 2
                    && n as nat == final(self)@[addr@].1,
                Release::Removed(h) => old(self)@.contains_key(addr@) && old(self)@[addr@].1 == 1
                    && h == old(self)@[addr@].0,
            },
    {
        match self.find(addr) {
            None => Release::Absent,
            Some(i) => {
                let n = self.entries[i].holders;
                let ghost k = addr@;
                let ghost e0 = self.entries@;
                if n > 1 {
                    self.entries[i].holders = n - 1;
                    proof {
                        self.model@ = released(self.model@, k);
                        assert forall|j: int| 0 <= j < self.entries@.len() && j != i implies self.entries@[j]
                            == e0[j] by {}
                        assert forall|q: Seq<char>| #[trigger]
                            self.model@.contains_key(q) implies exists|j: int|
                            0 <= j < self.entries@.len() && self.entries@[j].addr@ == q by {
                            if q != k {
                                let j = choose|j: int| 0 <= j < e0.len() && e0[j].addr@ == q;
                                assert(self.entries@[j].addr@ == q);
                            } else {
                                assert(self.entries@[i as int].addr@ == q);
                            }
                        }
                    }
                    Release::Held(n - 1)
                } else {
                    let e = self.entries.remove(i);
                    proof {
                        self.model@ = released(self.model@, k);
                        assert(e == e0[i as int]);
                        assert forall|j: int| 0 <= j < self.entries@.len() implies self.entries@[j]
                            == e0[if j < i { j } else { j + 1 }] by {}
                        assert forall|q: Seq<char>| #[trigger]
                            self.model@.contains_key(q) implies exists|j: int|
                            0 <= j < self.entries@.len() && self.entries@[j].addr@ == q by {
                            let j = choose|j: int| 0 <= j < e0.len() && e0[j].addr@ == q;
                            assert(j != i);
                            if j < i {
                                assert(self.entries@[j].addr@ == q);
                            } else {
                                assert(self.entries@[j - 1].addr@ == q);
                            }
                        }
                    }
                    Release::Removed(e.handle)
                }
            },
        }
    }
}

/// Acquiring a free address twice with no release in between: the first call
/// registers the server, the second joins that same server, which then has
/// two holders.
pub proof fn acquire_twice_shares_server<T>(m: Map<Seq<char>, (T, nat)>, k: Seq<char>, h: T)
    requires
        !m.contains_key(k),
    ensures
        inserted(m, k, h).contains_key(k),
        joined(inserted(m, k, h), k).contains_key(k),
        joined(inserted(m, k, h), k)[k] == (h, 2nat),
{
}

/// Releasing a server that has two holders keeps it registered, same handle,
/// with one holder; releasing it again removes it from the registry.
pub proof fn release_twice_removes<T>(m: Map<Seq<char>, (T, nat)>, k: Seq<char>)
    requires
        m.contains_key(k),
        m[k].1 == 2,
    ensures
        released(m, k).contains_key(k),
        released(m, k)[k] == (m[k].0, 1nat),
        !released(released(m, k), k).contains_key(k),
{
}

/// Once the last holder released an address, the address is free: a fresh
/// server can be registered there and starts with one holder.
pub proof fn address_free_after_removal<T>(m: Map<Seq<char>, (T, nat)>, k: Seq<char>, h: T)
    requires
        m.contains_key(k),
        m[k].1 == 1,
    ensures
        !released(m, k).contains_key(k),
        inserted(released(m, k), k, h)[k] == (h, 1nat),
{
}

} // verus!
