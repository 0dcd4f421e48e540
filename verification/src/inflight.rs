//! The registry of remote fetches that are under way, by which concurrent
//! requests for one address share a single network operation.

use crate::bytes::bytes_eq;
use vstd::prelude::*;

verus! {

/// What a caller has to do after announcing its interest in an address.
#[derive(Clone, Copy, Debug, PartialEq, Eq, Structural)]
pub enum Role {
    /// No fetch was under way: this caller performs the network operation.
    Leader,
    /// A fetch is under way: this caller waits for its result.
    Follower,
}

/// One fetch under way and the number of callers waiting for its result.
pub struct Pending {
    pub uri: Vec<u8>,
    pub waiters: u64,
}

/// The role a caller gets for `uri` when the fetches in `m` are under way.
pub open spec fn spec_role(m: Map<Seq<u8>, nat>, uri: Seq<u8>) -> Role {
    if m.dom().contains(uri) {
        Role::Follower
    } else {
        Role::Leader
    }
}

/// The fetches under way after one more caller has asked for `uri`.
pub open spec fn spec_joined(m: Map<Seq<u8>, nat>, uri: Seq<u8>) -> Map<Seq<u8>, nat> {
    if m.dom().contains(uri) {
        m.insert(uri, m[uri] + 1)
    } else {
        m.insert(uri, 1)
    }
}

/// The fetches under way after `n` callers in a row have asked for `uri`.
pub open spec fn spec_joined_times(m: Map<Seq<u8>, nat>, uri: Seq<u8>, n: nat) -> Map<Seq<u8>, nat>
    decreases n,
{
    if n == 0 {
        m
    } else {
        spec_joined(spec_joined_times(m, uri, (n - 1) as nat), uri)
    }
}

/// How many of `n` callers in a row asking for `uri` are told to perform the fetch.
pub open spec fn spec_leaders(m: Map<Seq<u8>, nat>, uri: Seq<u8>, n: nat) -> nat
    decreases n,
{
    if n == 0 {
        0
    } else {
        let before = spec_joined_times(m, uri, (n - 1) as nat);
        spec_leaders(m, uri, (n - 1) as nat) + if spec_role(before, uri) == Role::Leader { 1nat } else { 0nat }
    }
}

/// No address is listed twice.
pub open spec fn unique_uris(entries: Seq<Pending>) -> bool {
    forall|i: int, j: int| 0 <= i < j < entries.len() ==> (#[trigger] entries[i]).uri@ != (#[trigger] entries[j]).uri@
}

/// Whether a fetch of `uri` is listed.
pub open spec fn has_uri(entries: Seq<Pending>, uri: Seq<u8>) -> bool {
    exists|i: int| 0 <= i < entries.len() && (#[trigger] entries[i]).uri@ == uri
}

/// The waiter count of each fetch under way, by address.
pub open spec fn pending_map(entries: Seq<Pending>) -> Map<Seq<u8>, nat> {
    Map::new(
        |u: Seq<u8>| has_uri(entries, u),
        |u: Seq<u8>| entries[choose|i: int| 0 <= i < entries.len() && (#[trigger] entries[i]).uri@ == u].waiters as nat,
    )
}

proof fn lemma_pending_in_map(entries: Seq<Pending>, i: int)
    requires
        unique_uris(entries),
        0 <= i < entries.len(),
    ensures
        pending_map(entries).dom().contains(entries[i].uri@),
        pending_map(entries)[entries[i].uri@] == entries[i].waiters as nat,
{
    let u = entries[i].uri@;
    assert(has_uri(entries, u));
    let c = choose|c: int| 0 <= c < entries.len() && (#[trigger] entries[c]).uri@ == u;
    if c < i {
        assert(entries[c].uri@ != entries[i].uri@);
    } else if i < c {
        assert(entries[i].uri@ != entries[c].uri@);
    }
}

/// Fetches under way, each with the number of callers attached to it.
pub struct InFlight {
    entries: Vec<Pending>,
}

impl InFlight {
    /// Waiter count by address, for the fetches under way.
    pub closed spec fn view(&self) -> Map<Seq<u8>, nat> {
        pending_map(self.entries@)
    }

    /// No address has two fetches under way.
    pub closed spec fn wf(&self) -> bool {
        unique_uris(self.entries@)
    }

    /// A registry with no fetch under way.
    pub fn new() -> (r: InFlight)
        ensures
            r.wf(),
            r@ == Map::<Seq<u8>, nat>::empty(),
    {
        let r = InFlight { entries: Vec::new() };
        assert(r@ =~= Map::<Seq<u8>, nat>::empty());
        r
    }

    fn find(&self, uri: &[u8]) -> (r: Option<usize>)
        ensures
            match r {
                Some(i) => i < self.entries@.len() && self.entries@[i as int].uri@ == uri@,
                None => !has_uri(self.entries@, uri@),
            },
    {
        let mut i: usize = 0;
        while i < self.entries.len()
            invariant
                i <= self.entries.len(),
                forall|k: int| 0 <= k < i ==> (#[trigger] self.entries@[k]).uri@ != uri@,
            decreases self.entries.len() - i,
        {
            if bytes_eq(self.entries[i].uri.as_slice(), uri) {
                return Some(i);
            }
            i = i + 1;
        }
        None
    }

    /// Whether a fetch of `uri` is under way.
    pub fn is_pending(&self, uri: &[u8]) -> (r: bool)
        ensures
            r == self@.dom().contains(uri@),
    {
        self.find(uri).is_some()
    }

    /// Number of callers attached to the fetch of `uri`, if one is under way.
    pub fn waiters(&self, uri: &[u8]) -> (r: Option<u64>)
        requires
            self.wf(),
        ensures
            r.is_some() == self@.dom().contains(uri@),
            r.is_some() ==> r.unwrap() as nat == self@[uri@],
    {
        match self.find(uri) {
            Some(i) => {
                proof {
                    lemma_pending_in_map(self.entries@, i as int);
                }
                Some(self.entries[i].waiters)
            },
            None => None,
        }
    }

    /// Announces one more caller for `uri`, atomically inserting the fetch if
    /// none is under way. The caller that inserts it is the only `Leader`.
    /// `None`, with nothing changed, when the waiter count cannot grow.
    pub fn attach(&mut self, uri: &[u8]) -> (r: Option<Role>)
        requires
            old(self).wf(),
        ensures
            final(self).wf(),
            r.is_none() <==> old(self)@.dom().contains(uri@) && old(self)@[uri@] == u64::MAX,
            match r {
                Some(role) => role == spec_role(old(self)@, uri@) && final(self)@ == spec_joined(old(self)@, uri@),
                None => final(self)@ == old(self)@,
            },
    {
        match self.find(uri) {
            Some(i) => {
                proof {
                    lemma_pending_in_map(self.entries@, i as int);
                }
                if self.entries[i].waiters == u64::MAX {
                    return None;
                }
                self.entries[i].waiters = self.entries[i].waiters + 1;
                proof {
                    let before = old(self).entries@;
                    let after = self.entries@;
                    assert(after.len() == before.len());
                    assert forall|a: int| 0 <= a < after.len() implies (#[trigger] after[a]).uri@ == before[a].uri@ by {}
                    assert(unique_uris(after)) by {
                        assert forall|a: int, b: int| 0 <= a < b < after.len() implies (#[trigger] after[a]).uri@ != (#[trigger] after[b]).uri@ by {
                            assert(before[a].uri@ != before[b].uri@);
                        }
                    }
                    assert forall|u: Seq<u8>| has_uri(after, u) <==> has_uri(before, u) by {
                        if has_uri(after, u) {
                            let c = choose|c: int| 0 <= c < after.len() && (#[trigger] after[c]).uri@ == u;
                            assert(before[c].uri@ == u);
                        }
                        if has_uri(before, u) {
                            let c = choose|c: int| 0 <= c < before.len() && (#[trigger] before[c]).uri@ == u;
                            assert(after[c].uri@ == u);
                        }
                    }
                    assert forall|u: Seq<u8>| has_uri(after, u) implies #[trigger] pending_map(after)[u] == spec_joined(old(self)@, uri@)[u] by {
                        let c = choose|c: int| 0 <= c < after.len() && (#[trigger] after[c]).uri@ == u;
                        lemma_pending_in_map(after, c);
                        lemma_pending_in_map(before, c);
                    }
                    assert(self@ =~= spec_joined(old(self)@, uri@));
                }
                Some(Role::Follower)
            },
            None => {
                let owned: Vec<u8> = crate::bytes::copy_range(uri, 0, uri.len());
                assert(owned@ =~= uri@);
                self.entries.push(Pending { uri: owned, waiters: 1 });
                proof {
                    let before = old(self).entries@;
                    let after = self.entries@;
                    assert(unique_uris(after)) by {
                        assert forall|a: int, b: int| 0 <= a < b < after.len() implies (#[trigger] after[a]).uri@ != (#[trigger] after[b]).uri@ by {
                            if b < before.len() {
                                assert(before[a].uri@ != before[b].uri@);
                            } else {
                                assert(before[a].uri@ != uri@);
                            }
                        }
                    }
                    assert forall|u: Seq<u8>| has_uri(after, u) <==> (u == uri@ || has_uri(before, u)) by {
                        if has_uri(after, u) {
                            let c = choose|c: int| 0 <= c < after.len() && (#[trigger] after[c]).uri@ == u;
                            if c < before.len() {
                                assert(before[c].uri@ == u);
                            }
                        }
                        if has_uri(before, u) {
                            let c = choose|c: int| 0 <= c < before.len() && (#[trigger] before[c]).uri@ == u;
                            assert(after[c].uri@ == u);
                        }
                        if u == uri@ {
                            assert(after[before.len() as int].uri@ == u);
                        }
                    }
                    assert forall|u: Seq<u8>| has_uri(after, u) implies #[trigger] pending_map(after)[u] == spec_joined(old(self)@, uri@)[u] by {
                        let c = choose|c: int| 0 <= c < after.len() && (#[trigger] after[c]).uri@ == u;
                        lemma_pending_in_map(after, c);
                        if c < before.len() {
                            lemma_pending_in_map(before, c);
                        }
                    }
                    assert(self@ =~= spec_joined(old(self)@, uri@));
                }
                Some(Role::Leader)
            },
        }
    }

    /// Records that a waiting caller gave up on `uri`. The fetch itself stays
    /// under way for the others, even when nobody is left waiting.
    pub fn abandon(&mut self, uri: &[u8])
        requires
            old(self).wf(),
        ensures
            final(self).wf(),
            final(self)@ == if old(self)@.dom().contains(uri@) && old(self)@[uri@] > 0 {
                old(self)@.insert(uri@, (old(self)@[uri@] - 1) as nat)
            } else {
                old(self)@
            },
    {
        match self.find(uri) {
            Some(i) => {
                proof {
                    lemma_pending_in_map(self.entries@, i as int);
                }
                if self.entries[i].waiters == 0 {
                    return;
                }
                self.entries[i].waiters = self.entries[i].waiters - 1;
                proof {
                    let before = old(self).entries@;
                    let after = self.entries@;
                    let goal = old(self)@.insert(uri@, (old(self)@[uri@] - 1) as nat);
                    assert(after.len() == before.len());
                    assert forall|a: int| 0 <= a < after.len() implies (#[trigger] after[a]).uri@ == before[a].uri@ by {}
                    assert(unique_uris(after)) by {
                        assert forall|a: int, b: int| 0 <= a < b < after.len() implies (#[trigger] after[a]).uri@ != (#[trigger] after[b]).uri@ by {
                            assert(before[a].uri@ != before[b].uri@);
                        }
                    }
                    assert forall|u: Seq<u8>| has_uri(after, u) <==> has_uri(before, u) by {
                        if has_uri(after, u) {
                            let c = choose|c: int| 0 <= c < after.len() && (#[trigger] after[c]).uri@ == u;
                            assert(before[c].uri@ == u);
                        }
                        if has_uri(before, u) {
                            let c = choose|c: int| 0 <= c < before.len() && (#[trigger] before[c]).uri@ == u;
                            assert(after[c].uri@ == u);
                        }
                    }
                    assert forall|u: Seq<u8>| has_uri(after, u) implies #[trigger] pending_map(after)[u] == goal[u] by {
                        let c = choose|c: int| 0 <= c < after.len() && (#[trigger] after[c]).uri@ == u;
                        lemma_pending_in_map(after, c);
                        lemma_pending_in_map(before, c);
                    }
                    assert(self@ =~= goal);
                }
            },
            None => {},
        }
    }

    /// Ends the fetch of `uri`: the entry leaves the registry, and the result
    /// is owed to the returned number of waiting callers. `None` when no such
    /// fetch was under way.
    pub fn complete(&mut self, uri: &[u8]) -> (r: Option<u64>)
        requires
            old(self).wf(),
        ensures
            final(self).wf(),
            final(self)@ == old(self)@.remove(uri@),
            r.is_some() == old(self)@.dom().contains(uri@),
            r.is_some() ==> r.unwrap() as nat == old(self)@[uri@],
    {
        match self.find(uri) {
            Some(i) => {
                proof {
                    lemma_pending_in_map(self.entries@, i as int);
                }
                let gone = self.entries.remove(i);
                proof {
                    let before = old(self).entries@;
                    let after = self.entries@;
                    assert(after == before.remove(i as int));
                    assert forall|a: int| 0 <= a < after.len() implies #[trigger] after[a] == before[if a < i { a } else { a + 1 }] by {}
                    assert(unique_uris(after)) by {
                        assert forall|a: int, b: int| 0 <= a < b < after.len() implies (#[trigger] after[a]).uri@ != (#[trigger] after[b]).uri@ by {
                            let a0 = if a < i { a } else { a + 1 };
                            let b0 = if b < i { b } else { b + 1 };
                            assert(before[a0].uri@ != before[b0].uri@);
                        }
                    }
                    assert forall|u: Seq<u8>| has_uri(after, u) <==> (u != uri@ && has_uri(before, u)) by {
                        if has_uri(after, u) {
                            let c = choose|c: int| 0 <= c < after.len() && (#[trigger] after[c]).uri@ == u;
                            let c0 = if c < i { c } else { c + 1 };
                            assert(before[c0].uri@ == u);
                            if c0 < i {
                                assert(before[c0].uri@ != before[i as int].uri@);
                            } else {
                                assert(before[i as int].uri@ != before[c0].uri@);
                            }
                        }
                        if u != uri@ && has_uri(before, u) {
                            let c = choose|c: int| 0 <= c < before.len() && (#[trigger] before[c]).uri@ == u;
                            let c1 = if c < i { c } else { c - 1 };
                            assert(after[c1].uri@ == u);
                        }
                    }
                    assert forall|u: Seq<u8>| has_uri(after, u) implies #[trigger] pending_map(after)[u] == old(self)@.remove(uri@)[u] by {
                        let c = choose|c: int| 0 <= c < after.len() && (#[trigger] after[c]).uri@ == u;
                        let c0 = if c < i { c } else { c + 1 };
                        lemma_pending_in_map(after, c);
                        lemma_pending_in_map(before, c0);
                    }
                    assert(self@ =~= old(self)@.remove(uri@));
                }
                Some(gone.waiters)
            },
            None => {
                assert(self@ =~= old(self)@.remove(uri@));
                None
            },
        }
    }
}

/// After `n` callers in a row have asked for an address, a fetch of it is
/// under way, with `n` more waiters than before.
pub proof fn lemma_joined_times(m: Map<Seq<u8>, nat>, uri: Seq<u8>, n: nat)
    requires
        n >= 1,
    ensures
        spec_joined_times(m, uri, n).dom().contains(uri),
        spec_joined_times(m, uri, n)[uri] == n + (if m.dom().contains(uri) { m[uri] } else { 0 }),
    decreases n,
{
    if n > 1 {
        lemma_joined_times(m, uri, (n - 1) as nat);
    } else {
        assert(spec_joined_times(m, uri, 0) == m);
    }
}

/// Of any number of callers that ask for one address while no fetch of it has
/// completed, exactly one is told to perform the network operation when none
/// was under way, and none when one already was.
pub proof fn lemma_one_leader(m: Map<Seq<u8>, nat>, uri: Seq<u8>, n: nat)
    requires
        n >= 1,
    ensures
        spec_leaders(m, uri, n) == (if m.dom().contains(uri) { 0nat } else { 1nat }),
    decreases n,
{
    if n > 1 {
        lemma_one_leader(m, uri, (n - 1) as nat);
        lemma_joined_times(m, uri, (n - 1) as nat);
    } else {
        assert(spec_joined_times(m, uri, 0) == m);
        assert(spec_leaders(m, uri, 0) == 0);
    }
}

} // verus!
