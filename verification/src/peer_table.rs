//! The Peer Table: the node's view of who is alive.
//!
//! A table maps each known address to the time a datagram was last seen from
//! it. Addresses are unique keys (`unique_addrs`); an entry is created when a
//! node is seeded at startup or when a first datagram arrives from an unknown
//! address, refreshed on every datagram from its address, and deleted only
//! when a send to it fails at the transport.
//!
//! The table is a vector of entries behind a sequence view; `spec_touch`,
//! `spec_remove` and `spec_seed` are the mathematical meaning of its
//! operations, and the lemmas below state the laws the engine's contracts
//! rest on.

use vstd::prelude::*;

use crate::addr::Addr;

verus! {

/// One row of the Peer Table.
#[derive(Clone, Copy, PartialEq, Eq, Structural, Debug)]
pub struct PeerEntry {
    /// The peer's endpoint.
    pub addr: Addr,
    /// When a datagram was last received from it.
    pub last_seen: u64,
}

/// Uniqueness: no two entries record the same address.
pub open spec fn unique_addrs(s: Seq<PeerEntry>) -> bool {
    forall|i: int, j: int| 0 <= i < j < s.len() ==> s[i].addr != s[j].addr
}

/// Whether some entry records this address.
pub open spec fn spec_contains(s: Seq<PeerEntry>, a: Addr) -> bool {
    exists|i: int| 0 <= i < s.len() && s[i].addr == a
}

/// The index of the entry recording `a`; meaningful only when one exists.
pub open spec fn entry_index(s: Seq<PeerEntry>, a: Addr) -> int {
    choose|i: int| 0 <= i < s.len() && s[i].addr == a
}

/// The recorded last-seen time of `a`; meaningful only when an entry exists.
pub open spec fn last_seen_of(s: Seq<PeerEntry>, a: Addr) -> u64 {
    s[entry_index(s, a)].last_seen
}

/// The addresses of the entries, in table order.
pub open spec fn addrs_of(s: Seq<PeerEntry>) -> Seq<Addr> {
    s.map_values(|e: PeerEntry| e.addr)
}

/// Insert-or-refresh: a known address keeps its place and gets the new time;
/// an unknown one is appended.
pub open spec fn spec_touch(s: Seq<PeerEntry>, a: Addr, t: u64) -> Seq<PeerEntry> {
    if spec_contains(s, a) {
        s.update(entry_index(s, a), PeerEntry { addr: a, last_seen: t })
    } else {
        s.push(PeerEntry { addr: a, last_seen: t })
    }
}

/// Deletion: the entry for `a` goes, everything else stays.
pub open spec fn spec_remove(s: Seq<PeerEntry>, a: Addr) -> Seq<PeerEntry> {
    if spec_contains(s, a) {
        s.remove(entry_index(s, a))
    } else {
        s
    }
}

/// Seeding: every address of the list touched in order, all with one time.
pub open spec fn spec_seed(s: Seq<PeerEntry>, addrs: Seq<Addr>, t: u64) -> Seq<PeerEntry>
    decreases addrs.len(),
{
    if addrs.len() == 0 {
        s
    } else {
        spec_seed(spec_touch(s, addrs[0], t), addrs.drop_first(), t)
    }
}

/// In a table with unique addresses, `entry_index` is the one index whose
/// entry records the address.
pub proof fn lemma_entry_index(s: Seq<PeerEntry>, a: Addr)
    requires
        unique_addrs(s),
        spec_contains(s, a),
    ensures
        0 <= entry_index(s, a) < s.len(),
        s[entry_index(s, a)].addr == a,
        forall|k: int| 0 <= k < s.len() && s[k].addr == a ==> k == entry_index(s, a),
{
    let i = entry_index(s, a);
    assert(0 <= i < s.len() && s[i].addr == a);
    assert forall|k: int| 0 <= k < s.len() && s[k].addr == a implies k == i by {
        if k != i {
            if k < i {
                assert(s[k].addr != s[i].addr);
            } else {
                assert(s[i].addr != s[k].addr);
            }
        }
    }
}

/// What touching does: uniqueness is preserved, the touched address is
/// present with the new time, and every other entry is untouched.
pub proof fn lemma_touch_facts(s: Seq<PeerEntry>, a: Addr, t: u64)
    requires
        unique_addrs(s),
    ensures
        unique_addrs(spec_touch(s, a, t)),
        spec_contains(spec_touch(s, a, t), a),
        forall|b: Addr| #[trigger]
            spec_contains(spec_touch(s, a, t), b) <==> (spec_contains(s, b) || b == a),
        last_seen_of(spec_touch(s, a, t), a) == t,
        forall|b: Addr|
            b != a && spec_contains(s, b) ==> #[trigger] last_seen_of(spec_touch(s, a, t), b)
                == last_seen_of(s, b),
        spec_touch(s, a, t).len() == if spec_contains(s, a) {
            s.len()
        } else {
            s.len() + 1
        },
        addrs_of(spec_touch(s, a, t)) == if spec_contains(s, a) {
            addrs_of(s)
        } else {
            addrs_of(s).push(a)
        },
{
    let r = spec_touch(s, a, t);
    if spec_contains(s, a) {
        lemma_entry_index(s, a);
        let i = entry_index(s, a);
        assert(forall|k: int| 0 <= k < r.len() && k != i ==> r[k] == s[k]);
        assert(r[i].addr == a);
        assert(unique_addrs(r));
        assert(spec_contains(r, a));
        lemma_entry_index(r, a);
        assert(entry_index(r, a) == i);
        assert forall|b: Addr|
            b != a && spec_contains(s, b) implies #[trigger] last_seen_of(r, b) == last_seen_of(
            s,
            b,
        ) by {
            lemma_entry_index(s, b);
            let j = entry_index(s, b);
            assert(j != i);
            assert(r[j].addr == b);
            assert(spec_contains(r, b));
            lemma_entry_index(r, b);
            assert(entry_index(r, b) == j);
        }
        assert forall|b: Addr| #[trigger]
            spec_contains(r, b) <==> (spec_contains(s, b) || b == a) by {
            if spec_contains(r, b) && b != a {
                let k = choose|k: int| 0 <= k < r.len() && r[k].addr == b;
                assert(k != i);
                assert(s[k].addr == b);
            }
            if spec_contains(s, b) && b != a {
                let k = choose|k: int| 0 <= k < s.len() && s[k].addr == b;
                assert(k != i);
                assert(r[k].addr == b);
            }
        }
        assert(addrs_of(r) =~= addrs_of(s));
    } else {
        let i = s.len() as int;
        assert(r[i].addr == a);
        assert(forall|k: int| 0 <= k < s.len() ==> r[k] == s[k]);
        assert forall|k: int| 0 <= k < s.len() implies s[k].addr != a by {
            assert(!spec_contains(s, a));
        }
        assert(unique_addrs(r));
        assert(spec_contains(r, a));
        lemma_entry_index(r, a);
        assert(entry_index(r, a) == i);
        assert forall|b: Addr|
            b != a && spec_contains(s, b) implies #[trigger] last_seen_of(r, b) == last_seen_of(
            s,
            b,
        ) by {
            lemma_entry_index(s, b);
            let j = entry_index(s, b);
            assert(r[j].addr == b);
            assert(spec_contains(r, b));
            lemma_entry_index(r, b);
            assert(entry_index(r, b) == j);
        }
        assert forall|b: Addr| #[trigger]
            spec_contains(r, b) <==> (spec_contains(s, b) || b == a) by {
            if spec_contains(r, b) && b != a {
                let k = choose|k: int| 0 <= k < r.len() && r[k].addr == b;
                assert(k != i);
                assert(s[k].addr == b);
            }
            if spec_contains(s, b) {
                let k = choose|k: int| 0 <= k < s.len() && s[k].addr == b;
                assert(r[k].addr == b);
            }
        }
        assert(addrs_of(r) =~= addrs_of(s).push(a));
    }
}

/// What removal does: uniqueness is preserved, the removed address is gone,
/// and every other entry keeps its address and time.
pub proof fn lemma_remove_facts(s: Seq<PeerEntry>, a: Addr)
    requires
        unique_addrs(s),
    ensures
        unique_addrs(spec_remove(s, a)),
        !spec_contains(spec_remove(s, a), a),
        !addrs_of(spec_remove(s, a)).contains(a),
        forall|b: Addr|
            b != a ==> (#[trigger] spec_contains(spec_remove(s, a), b) <==> spec_contains(s, b)),
        forall|b: Addr|
            b != a && spec_contains(s, b) ==> #[trigger] last_seen_of(spec_remove(s, a), b)
                == last_seen_of(s, b),
{
    let r = spec_remove(s, a);
    if spec_contains(s, a) {
        lemma_entry_index(s, a);
        let i = entry_index(s, a);
        assert(forall|k: int| 0 <= k < i ==> r[k] == s[k]);
        assert(forall|k: int| i <= k < r.len() ==> r[k] == s[k + 1]);
        assert forall|k: int, j: int| 0 <= k < j < r.len() implies r[k].addr != r[j].addr by {
            let k2 = if k < i { k } else { k + 1 };
            let j2 = if j < i { j } else { j + 1 };
            assert(r[k] == s[k2] && r[j] == s[j2]);
            assert(k2 < j2);
        }
        assert forall|k: int| 0 <= k < r.len() implies r[k].addr != a by {
            let k2 = if k < i { k } else { k + 1 };
            assert(r[k] == s[k2]);
            assert(k2 != i);
            lemma_entry_index(s, a);
        }
        assert(!spec_contains(r, a));
        assert forall|k: int| 0 <= k < addrs_of(r).len() implies addrs_of(r)[k] != a by {
            assert(addrs_of(r)[k] == r[k].addr);
        }
        assert(!addrs_of(r).contains(a));
        assert forall|b: Addr|
            b != a implies (#[trigger] spec_contains(r, b) <==> spec_contains(s, b)) by {
            if spec_contains(r, b) {
                let k = choose|k: int| 0 <= k < r.len() && r[k].addr == b;
                let k2 = if k < i { k } else { k + 1 };
                assert(s[k2].addr == b);
            }
            if spec_contains(s, b) {
                let k2 = choose|k: int| 0 <= k < s.len() && s[k].addr == b;
                assert(k2 != i);
                let k = if k2 < i { k2 } else { k2 - 1 };
                assert(r[k].addr == b);
            }
        }
        assert forall|b: Addr|
            b != a && spec_contains(s, b) implies #[trigger] last_seen_of(r, b) == last_seen_of(
            s,
            b,
        ) by {
            lemma_entry_index(s, b);
            let k2 = entry_index(s, b);
            assert(k2 != i);
            let k = if k2 < i { k2 } else { k2 - 1 };
            assert(r[k] == s[k2]);
            assert(spec_contains(r, b));
            lemma_entry_index(r, b);
            assert(entry_index(r, b) == k);
        }
    } else {
        assert forall|k: int| 0 <= k < addrs_of(r).len() implies addrs_of(r)[k] != a by {
            assert(addrs_of(r)[k] == r[k].addr);
            assert(!spec_contains(s, a));
        }
        assert(!addrs_of(r).contains(a));
    }
}

/// The address sequence mirrors the table: same length, member for member,
/// and unique addresses give a duplicate-free sequence.
pub proof fn lemma_addrs_of(s: Seq<PeerEntry>)
    ensures
        addrs_of(s).len() == s.len(),
        forall|a: Addr| #[trigger] addrs_of(s).contains(a) <==> spec_contains(s, a),
        unique_addrs(s) ==> addrs_of(s).no_duplicates(),
{
    assert forall|a: Addr| #[trigger] addrs_of(s).contains(a) <==> spec_contains(s, a) by {
        if addrs_of(s).contains(a) {
            let k = choose|k: int| 0 <= k < addrs_of(s).len() && addrs_of(s)[k] == a;
            assert(s[k].addr == a);
        }
        if spec_contains(s, a) {
            let k = choose|k: int| 0 <= k < s.len() && s[k].addr == a;
            assert(addrs_of(s)[k] == a);
        }
    }
}

/// What seeding does: every listed address ends up present with the seed
/// time; nothing else appears or changes.
pub proof fn lemma_seed_facts(s: Seq<PeerEntry>, addrs: Seq<Addr>, t: u64)
    requires
        unique_addrs(s),
    ensures
        unique_addrs(spec_seed(s, addrs, t)),
        forall|b: Addr| #[trigger]
            spec_contains(spec_seed(s, addrs, t), b) <==> (spec_contains(s, b) || addrs.contains(
                b,
            )),
        forall|b: Addr|
            addrs.contains(b) ==> #[trigger] last_seen_of(spec_seed(s, addrs, t), b) == t,
        forall|b: Addr|
            !addrs.contains(b) && spec_contains(s, b) ==> #[trigger] last_seen_of(
                spec_seed(s, addrs, t),
                b,
            ) == last_seen_of(s, b),
    decreases addrs.len(),
{
    if addrs.len() == 0 {
        assert(forall|b: Addr| !addrs.contains(b));
    } else {
        let a0 = addrs[0];
        let s1 = spec_touch(s, a0, t);
        lemma_touch_facts(s, a0, t);
        lemma_seed_facts(s1, addrs.drop_first(), t);
        let r = spec_seed(s, addrs, t);
        assert(r == spec_seed(s1, addrs.drop_first(), t));
        assert forall|b: Addr| #[trigger]
            addrs.contains(b) <==> (b == a0 || addrs.drop_first().contains(b)) by {
            if addrs.contains(b) && b != a0 {
                let k = choose|k: int| 0 <= k < addrs.len() && addrs[k] == b;
                assert(addrs.drop_first()[k - 1] == b);
            }
            if addrs.drop_first().contains(b) {
                let k = choose|k: int|
                    0 <= k < addrs.drop_first().len() && addrs.drop_first()[k] == b;
                assert(addrs[k + 1] == b);
            }
            assert(addrs[0] == a0);
        }
        assert forall|b: Addr| addrs.contains(b) implies #[trigger] last_seen_of(r, b) == t by {
            if addrs.drop_first().contains(b) {
            } else {
                assert(b == a0);
                assert(last_seen_of(s1, b) == t);
            }
        }
    }
}

/// Seeding one more address is touching it after seeding the rest.
pub proof fn lemma_seed_push(s: Seq<PeerEntry>, addrs: Seq<Addr>, a: Addr, t: u64)
    ensures
        spec_seed(s, addrs.push(a), t) == spec_touch(spec_seed(s, addrs, t), a, t),
    decreases addrs.len(),
{
    if addrs.len() == 0 {
        assert(addrs.push(a)[0] == a);
        assert(addrs.push(a).drop_first() =~= Seq::<Addr>::empty());
        assert(spec_seed(s, addrs.push(a), t) == spec_seed(spec_touch(s, a, t), Seq::empty(), t));
    } else {
        assert(addrs.push(a)[0] == addrs[0]);
        assert(addrs.push(a).drop_first() =~= addrs.drop_first().push(a));
        lemma_seed_push(spec_touch(s, addrs[0], t), addrs.drop_first(), a, t);
    }
}

/// Monotonic liveness: a datagram from `a` at `t1` and a later one at
/// `t2 >= t1` leave `a`'s recorded last-seen at `t2`, no lower than after the
/// first; datagrams from other addresses in between never lower it (see
/// `lemma_touch_facts`).
pub proof fn lemma_last_seen_monotonic(s: Seq<PeerEntry>, a: Addr, t1: u64, t2: u64)
    requires
        unique_addrs(s),
        t1 <= t2,
    ensures
        last_seen_of(spec_touch(s, a, t1), a) == t1,
        last_seen_of(spec_touch(spec_touch(s, a, t1), a, t2), a) == t2,
        last_seen_of(spec_touch(spec_touch(s, a, t1), a, t2), a) >= last_seen_of(
            spec_touch(s, a, t1),
            a,
        ),
{
    lemma_touch_facts(s, a, t1);
    lemma_touch_facts(spec_touch(s, a, t1), a, t2);
}

/// The Peer Table itself: a vector of entries with unique addresses.
pub struct PeerTable {
    entries: Vec<PeerEntry>,
}

impl View for PeerTable {
    type V = Seq<PeerEntry>;

    closed spec fn view(&self) -> Seq<PeerEntry> {
        self.entries@
    }
}

impl PeerTable {
    /// Well-formed: addresses are unique keys.
    pub open spec fn wf(&self) -> bool {
        unique_addrs(self@)
    }

    /// An empty table.
    pub fn new() -> (r: PeerTable)
        ensures
            r@ == Seq::<PeerEntry>::empty(),
            r.wf(),
    {
        PeerTable { entries: Vec::new() }
    }

    /// How many peers are known.
    pub fn len(&self) -> (r: usize)
        ensures
            r == self@.len(),
    {
        self.entries.len()
    }

    /// The index of the entry for `addr`, if one exists.
    fn find(&self, addr: Addr) -> (r: Option<usize>)
        ensures
            match r {
                Some(i) => 0 <= i < self@.len() && self@[i as int].addr == addr,
                None => !spec_contains(self@, addr),
            },
    {
        let mut i: usize = 0;
        while i < self.entries.len()
            invariant
                0 <= i <= self@.len(),
                forall|k: int| 0 <= k < i ==> self@[k].addr != addr,
            decreases self@.len() - i,
        {
            if self.entries[i].addr == addr {
                return Some(i);
            }
            i = i + 1;
        }
        None
    }

    /// Whether `addr` is a known peer.
    pub fn contains(&self, addr: Addr) -> (r: bool)
        ensures
            r == spec_contains(self@, addr),
    {
        self.find(addr).is_some()
    }

    /// The recorded last-seen time of `addr`, if it is known.
    pub fn last_seen(&self, addr: Addr) -> (r: Option<u64>)
        requires
            self.wf(),
        ensures
            match r {
                Some(t) => spec_contains(self@, addr) && t == last_seen_of(self@, addr),
                None => !spec_contains(self@, addr),
            },
    {
        match self.find(addr) {
            Some(i) => {
                proof {
                    assert(spec_contains(self@, addr));
                    lemma_entry_index(self@, addr);
                }
                Some(self.entries[i].last_seen)
            },
            None => None,
        }
    }

    /// Insert-or-refresh `addr` with time `now`.
    pub fn touch(&mut self, addr: Addr, now: u64)
        requires
            old(self).wf(),
        ensures
            final(self)@ == spec_touch(old(self)@, addr, now),
            final(self).wf(),
    {
        let entry = PeerEntry { addr, last_seen: now };
        match self.find(addr) {
            Some(i) => {
                proof {
                    assert(spec_contains(self@, addr));
                    lemma_entry_index(self@, addr);
                    assert(entry_index(self@, addr) == i as int);
                }
                self.entries[i] = entry;
            },
            None => {
                self.entries.push(entry);
            },
        }
        proof {
            lemma_touch_facts(old(self)@, addr, now);
        }
    }

    /// Delete `addr` from the table; a no-op when it is unknown.
    pub fn remove(&mut self, addr: Addr)
        requires
            old(self).wf(),
        ensures
            final(self)@ == spec_remove(old(self)@, addr),
            final(self).wf(),
    {
        match self.find(addr) {
            Some(i) => {
                proof {
                    assert(spec_contains(self@, addr));
                    lemma_entry_index(self@, addr);
                    assert(entry_index(self@, addr) == i as int);
                }
                self.entries.remove(i);
            },
            None => {},
        }
        proof {
            lemma_remove_facts(old(self)@, addr);
        }
    }

    /// A consistent copy of all known addresses, in table order. Iterating
    /// the copy (for a broadcast) is never invalidated by later mutation,
    /// and no live reference into the table escapes.
    pub fn snapshot(&self) -> (r: Vec<Addr>)
        ensures
            r@ == addrs_of(self@),
    {
        let mut out: Vec<Addr> = Vec::new();
        let mut i: usize = 0;
        while i < self.entries.len()
            invariant
                0 <= i <= self@.len(),
                out@.len() == i,
                forall|k: int| 0 <= k < i ==> out@[k] == self@[k].addr,
            decreases self@.len() - i,
        {
            out.push(self.entries[i].addr);
            i = i + 1;
        }
        proof {
            assert(out@ =~= addrs_of(self@));
        }
        out
    }
}

} // verus!
