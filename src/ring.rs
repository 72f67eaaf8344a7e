//! The registry of members, its shuffled ring ordering, neighbour lookup and
//! the round-robin check cursor.
use vstd::prelude::*;

use rand::seq::SliceRandom;
use rand::SeedableRng;
use rand_chacha::ChaChaRng;

use crate::status::{HealthStatus, MemberHealth};

verus! {

broadcast use vstd::seq_lib::group_to_multiset_ensures;

/// One registered site.
#[derive(Clone, Debug)]
pub struct Member {
    pub id: String,
    pub name: String,
    pub url: String,
}

/// The member list as configuration supplies it.
pub struct RingSource {
    pub users: Vec<Member>,
}

/// Why a neighbour lookup gave no pair.
#[derive(Clone, Copy, Debug, PartialEq, Eq, Structural)]
pub enum RingError {
    /// No member has the id asked for.
    NotFound,
    /// No member of the ring is healthy.
    NoNeighbors,
}

/// The width of a shuffle epoch: one week, in seconds.
pub const EPOCH_SECS: u64 = 604800;

/// The order in which rand's `shuffle`, driven by a ChaCha generator seeded
/// with `seed`, leaves `items`.
pub uninterp spec fn seeded_shuffle(items: Seq<usize>, seed: u64) -> Seq<usize>;

/// Relies on rand 0.8's `SliceRandom::shuffle` (a Fisher-Yates pass of
/// swaps) driven by rand_chacha's `ChaChaRng` made by
/// `SeedableRng::seed_from_u64`: the outcome depends on the items and the seed
/// alone, and the swaps keep every item.
#[verifier::external_body]
fn shuffle_seeded(items: &mut Vec<usize>, seed: u64)
    ensures
        final(items)@ == seeded_shuffle(old(items)@, seed),
        final(items)@.to_multiset() == old(items)@.to_multiset(),
{
    let mut rng = ChaChaRng::seed_from_u64(seed);
    items.shuffle(&mut rng);
}

/// Relies on std's `SystemTime::now`: whole seconds since the Unix epoch, or
/// `None` where the clock stands before it.
#[verifier::external_body]
fn unix_time_secs() -> (r: Option<u64>) {
    std::time::SystemTime::now().duration_since(std::time::UNIX_EPOCH).ok().map(|d| d.as_secs())
}

/// The indices `0, 1, ..., n - 1` in order.
pub open spec fn identity_order(n: nat) -> Seq<usize> {
    Seq::new(n, |i: int| i as usize)
}

/// The epoch that a time (seconds since the Unix epoch) falls in.
pub open spec fn epoch_of(secs: u64) -> u64 {
    (secs / EPOCH_SECS) as u64
}

/// The ring ordering of `n` members in the epoch `epoch`.
pub open spec fn epoch_ordering(n: nat, epoch: u64) -> Seq<usize> {
    seeded_shuffle(identity_order(n), epoch)
}

/// `m` arranges the indices `0..n`: each of them stands in it exactly once.
pub open spec fn is_ordering(m: Seq<usize>, n: nat) -> bool {
    &&& m.len() == n
    &&& forall|p: int| 0 <= p < n ==> m[p] < n
    &&& forall|k: usize| k < n ==> m.contains(k)
    &&& m.no_duplicates()
}

proof fn lemma_identity_counts(n: nat)
    requires
        n <= usize::MAX,
    ensures
        forall|k: usize| #[trigger]
            identity_order(n).to_multiset().count(k) == if k < n {
                1nat
            } else {
                0nat
            },
    decreases n,
{
    broadcast use vstd::multiset::group_multiset_axioms;

    if n > 0 {
        let m = (n - 1) as nat;
        lemma_identity_counts(m);
        assert(identity_order(n) =~= identity_order(m).push(m as usize));
    } else {
        assert(identity_order(n) =~= Seq::<usize>::empty());
    }
}

/// What keeps the multiset of `0..n` arranges `0..n`.
proof fn lemma_permutation_is_ordering(m: Seq<usize>, n: nat)
    requires
        n <= usize::MAX,
        m.to_multiset() == identity_order(n).to_multiset(),
    ensures
        is_ordering(m, n),
{
    broadcast use vstd::multiset::group_multiset_axioms;

    lemma_identity_counts(n);
    assert(identity_order(n).len() == n);
    assert(identity_order(n).to_multiset().len() == n);
    assert(m.len() == m.to_multiset().len());
    assert forall|p: int| 0 <= p < n implies m[p] < n by {
        assert(m.contains(m[p]));
        assert(m.to_multiset().count(m[p]) > 0);
    }
    assert forall|k: usize| k < n implies m.contains(k) by {
        assert(m.to_multiset().count(k) > 0);
    }
    assert forall|x: usize| m.to_multiset().contains(x) implies m.to_multiset().count(x) == 1 by {
    }
    m.lemma_multiset_has_no_duplicates_conv();
}

/// The registry: members in configuration order, the health of each, the
/// ring ordering over their indices, and the check cursor.
pub struct Ring {
    members: Vec<Member>,
    health: Vec<MemberHealth>,
    mapping: Vec<usize>,
    check_index: usize,
}

impl Ring {
    /// The members, in configuration order.
    pub closed spec fn member_seq(self) -> Seq<Member> {
        self.members@
    }

    /// The health of each member, indexed as the members are.
    pub closed spec fn health_seq(self) -> Seq<MemberHealth> {
        self.health@
    }

    /// The ring ordering: member indices in ring order.
    pub closed spec fn order(self) -> Seq<usize> {
        self.mapping@
    }

    /// The index of the member that the next check takes.
    pub closed spec fn cursor(self) -> nat {
        self.check_index as nat
    }

    /// The number of members.
    pub open spec fn size(self) -> nat {
        self.member_seq().len()
    }

    /// The registry is consistent: one health entry per member, an ordering
    /// over all of them, and a cursor on a member.
    pub open spec fn wf(self) -> bool {
        &&& self.entries_wf()
        &&& is_ordering(self.order(), self.size())
    }

    /// One health entry per member, and a cursor on a member.
    pub open spec fn entries_wf(self) -> bool {
        &&& self.size() <= usize::MAX
        &&& self.health_seq().len() == self.size()
        &&& (self.size() > 0 ==> self.cursor() < self.size())
        &&& (self.size() == 0 ==> self.cursor() == 0)
    }

    /// The member at index `i` takes part in the ring.
    pub open spec fn healthy_at(self, i: int) -> bool {
        self.health_seq()[i].status.is_healthy()
    }

    /// The test that keeps a member index in the healthy subsequence.
    pub open spec fn healthy_pred(self) -> spec_fn(usize) -> bool {
        |i: usize| self.healthy_at(i as int)
    }

    /// The healthy members' indices, in ring order.
    pub open spec fn healthy_order(self) -> Seq<usize> {
        self.order().filter(self.healthy_pred())
    }

    /// `i` is the first member index whose id is `id`.
    pub open spec fn is_first_with_id(self, id: Seq<char>, i: int) -> bool {
        &&& 0 <= i < self.size()
        &&& self.member_seq()[i].id@ == id
        &&& forall|j: int| 0 <= j < i ==> self.member_seq()[j].id@ != id
    }

    /// The index of the first member whose id is `id`, if any.
    pub open spec fn index_of_id(self, id: Seq<char>) -> Option<int> {
        if exists|i: int| self.is_first_with_id(id, i) {
            Some(choose|i: int| self.is_first_with_id(id, i))
        } else {
            None
        }
    }

    /// No two members share an id.
    pub open spec fn ids_unique(self) -> bool {
        forall|i: int, j: int|
            0 <= i < self.size() && 0 <= j < self.size() && i != j ==> self.member_seq()[i].id@
                != self.member_seq()[j].id@
    }

    /// `o` is the fewest steps back from ring position `pos` to a healthy
    /// member (`pos` itself counts after `n` steps).
    pub open spec fn is_first_healthy_back(self, pos: int, o: int) -> bool {
        let n = self.size() as int;
        &&& 1 <= o <= n
        &&& self.healthy_at(self.order()[steps_back(pos, o, n)] as int)
        &&& forall|o2: int|
            1 <= o2 < o ==> !self.healthy_at(self.order()[steps_back(pos, o2, n)] as int)
    }

    /// `o` is the fewest steps forward from ring position `pos` to a healthy
    /// member (`pos` itself counts after `n` steps).
    pub open spec fn is_first_healthy_forward(self, pos: int, o: int) -> bool {
        let n = self.size() as int;
        &&& 1 <= o <= n
        &&& self.healthy_at(self.order()[steps_forward(pos, o, n)] as int)
        &&& forall|o2: int|
            1 <= o2 < o ==> !self.healthy_at(self.order()[steps_forward(pos, o2, n)] as int)
    }

    /// The member indices of the previous and next neighbours of the member
    /// at index `m`, while some member is healthy. A healthy member's
    /// neighbours are its cyclic neighbours among the healthy members; an
    /// unhealthy member's are the first healthy members met going backward
    /// and forward from its own place in the ring ordering.
    pub open spec fn neighbor_indices(self, m: int) -> (int, int) {
        let h = self.healthy_order();
        let n = self.size() as int;
        if self.healthy_at(m) {
            let k = position_of(h, m as usize);
            (h[cycle_prev(k, h.len() as int)] as int, h[cycle_next(k, h.len() as int)] as int)
        } else {
            let pos = position_of(self.order(), m as usize);
            let back = choose|o: int| self.is_first_healthy_back(pos, o);
            let forward = choose|o: int| self.is_first_healthy_forward(pos, o);
            (
                self.order()[steps_back(pos, back, n)] as int,
                self.order()[steps_forward(pos, forward, n)] as int,
            )
        }
    }

    /// What a neighbour lookup of `id` gives, as member indices.
    pub open spec fn neighbors_spec(self, id: Seq<char>) -> Result<(int, int), RingError> {
        match self.index_of_id(id) {
            None => Err(RingError::NotFound),
            Some(m) => if self.healthy_order().len() == 0 {
                Err(RingError::NoNeighbors)
            } else {
                Ok(self.neighbor_indices(m))
            },
        }
    }

    /// The healthy subsequence holds each healthy member once, and nothing
    /// else.
    pub proof fn lemma_healthy_order(self)
        requires
            self.wf(),
        ensures
            self.healthy_order().no_duplicates(),
            forall|k: int|
                0 <= k < self.healthy_order().len() ==> {
                    &&& #[trigger] self.healthy_order()[k] < self.size()
                    &&& self.healthy_at(self.healthy_order()[k] as int)
                },
            forall|i: usize|
                i < self.size() ==> (#[trigger] self.healthy_order().contains(i)
                    <==> self.healthy_at(i as int)),
    {
        let h = self.healthy_order();
        let pred = self.healthy_pred();
        lemma_filter_no_duplicates(self.order(), pred);
        assert forall|k: int| 0 <= k < h.len() implies #[trigger] h[k] < self.size()
            && self.healthy_at(h[k] as int) by {
            self.order().lemma_filter_pred(pred, k);
            assert(h.contains(h[k]));
            self.order().lemma_filter_contains_rev(pred, h[k]);
        }
        assert forall|i: usize| i < self.size() implies (#[trigger] h.contains(i)
            <==> self.healthy_at(i as int)) by {
            if h.contains(i) {
                let k = choose|k: int| 0 <= k < h.len() && h[k] == i;
                self.order().lemma_filter_pred(pred, k);
            }
            if self.healthy_at(i as int) {
                assert(self.order().contains(i));
                let p = choose|p: int| 0 <= p < self.order().len() && self.order()[p] == i;
                self.order().lemma_filter_contains(pred, p);
            }
        }
    }

    /// Where some step count back from `pos` reaches a healthy member, a
    /// fewest one does.
    pub proof fn lemma_first_back_exists(self, pos: int, w: int)
        requires
            1 <= w <= self.size(),
            self.healthy_at(self.order()[steps_back(pos, w, self.size() as int)] as int),
        ensures
            exists|o: int| self.is_first_healthy_back(pos, o),
        decreases w,
    {
        let n = self.size() as int;
        if exists|o2: int|
            1 <= o2 < w && self.healthy_at(self.order()[steps_back(pos, o2, n)] as int) {
            let o2 = choose|o2: int|
                1 <= o2 < w && self.healthy_at(self.order()[steps_back(pos, o2, n)] as int);
            self.lemma_first_back_exists(pos, o2);
        } else {
            assert(self.is_first_healthy_back(pos, w));
        }
    }

    /// Where some step count forward from `pos` reaches a healthy member, a
    /// fewest one does.
    pub proof fn lemma_first_forward_exists(self, pos: int, w: int)
        requires
            1 <= w <= self.size(),
            self.healthy_at(self.order()[steps_forward(pos, w, self.size() as int)] as int),
        ensures
            exists|o: int| self.is_first_healthy_forward(pos, o),
        decreases w,
    {
        let n = self.size() as int;
        if exists|o2: int|
            1 <= o2 < w && self.healthy_at(self.order()[steps_forward(pos, o2, n)] as int) {
            let o2 = choose|o2: int|
                1 <= o2 < w && self.healthy_at(self.order()[steps_forward(pos, o2, n)] as int);
            self.lemma_first_forward_exists(pos, o2);
        } else {
            assert(self.is_first_healthy_forward(pos, w));
        }
    }

    /// Some step count back from `pos` reaches a healthy member.
    pub proof fn lemma_back_witness(self, pos: int) -> (o: int)
        requires
            self.wf(),
            0 <= pos < self.size(),
            self.healthy_order().len() > 0,
        ensures
            1 <= o <= self.size(),
            self.healthy_at(self.order()[steps_back(pos, o, self.size() as int)] as int),
    {
        self.lemma_healthy_order();
        let x = self.healthy_order()[0];
        assert(self.order().contains(x));
        let q = choose|q: int| 0 <= q < self.order().len() && self.order()[q] == x;
        if q < pos {
            pos - q
        } else {
            pos + self.size() - q
        }
    }

    /// Some step count forward from `pos` reaches a healthy member.
    pub proof fn lemma_forward_witness(self, pos: int) -> (o: int)
        requires
            self.wf(),
            0 <= pos < self.size(),
            self.healthy_order().len() > 0,
        ensures
            1 <= o <= self.size(),
            self.healthy_at(self.order()[steps_forward(pos, o, self.size() as int)] as int),
    {
        self.lemma_healthy_order();
        let x = self.healthy_order()[0];
        assert(self.order().contains(x));
        let q = choose|q: int| 0 <= q < self.order().len() && self.order()[q] == x;
        if q > pos {
            q - pos
        } else {
            q + self.size() - pos
        }
    }

    /// Orders the members for the epoch `epoch`; members, health and cursor
    /// stay as they are.
    pub fn reshuffle(&mut self, epoch: u64)
        requires
            old(self).entries_wf(),
        ensures
            final(self).wf(),
            final(self).order() == epoch_ordering(old(self).size(), epoch),
            final(self).member_seq() == old(self).member_seq(),
            final(self).health_seq() == old(self).health_seq(),
            final(self).cursor() == old(self).cursor(),
    {
        let n = self.members.len();
        let mut mapping: Vec<usize> = Vec::new();
        let mut i: usize = 0;
        while i < n
            invariant
                i <= n,
                mapping@ == identity_order(i as nat),
            decreases n - i,
        {
            mapping.push(i);
            i = i + 1;
            assert(mapping@ =~= identity_order(i as nat));
        }
        shuffle_seeded(&mut mapping, epoch);
        proof {
            lemma_permutation_is_ordering(mapping@, n as nat);
        }
        self.mapping = mapping;
    }

    /// Orders the members for the current week, read from the system clock.
    pub fn shuffle(&mut self)
        requires
            old(self).entries_wf(),
        ensures
            final(self).wf(),
            exists|e: u64| final(self).order() == epoch_ordering(old(self).size(), e),
            final(self).member_seq() == old(self).member_seq(),
            final(self).health_seq() == old(self).health_seq(),
            final(self).cursor() == old(self).cursor(),
    {
        let secs = match unix_time_secs() {
            Some(s) => s,
            None => 1,
        };
        self.reshuffle(secs / EPOCH_SECS);
    }

    /// A registry of the configured members, none of them checked yet, in the
    /// ordering of the current week.
    pub fn new(source: RingSource) -> (r: Ring)
        ensures
            r.wf(),
            r.member_seq() == source.users@,
            forall|i: int|
                0 <= i < r.size() ==> #[trigger] r.health_seq()[i] == (MemberHealth {
                    status: HealthStatus::Unknown,
                    last_checked: None,
                }),
            r.cursor() == 0,
            exists|e: u64| r.order() == epoch_ordering(r.size(), e),
    {
        let users = source.users;
        let mut health: Vec<MemberHealth> = Vec::new();
        let mut i: usize = 0;
        while i < users.len()
            invariant
                i <= users.len(),
                health@.len() == i,
                forall|j: int|
                    0 <= j < i ==> #[trigger] health@[j] == (MemberHealth {
                        status: HealthStatus::Unknown,
                        last_checked: None,
                    }),
            decreases users.len() - i,
        {
            health.push(MemberHealth::unchecked());
            i = i + 1;
        }
        let mut ring = Ring { members: users, health, mapping: Vec::new(), check_index: 0 };
        ring.shuffle();
        ring
    }

    /// The indices of the healthy members, in ring order.
    pub fn healthy_indices(&self) -> (r: Vec<usize>)
        requires
            self.wf(),
        ensures
            r@ == self.healthy_order(),
    {
        let mut r: Vec<usize> = Vec::new();
        let mut i: usize = 0;
        while i < self.mapping.len()
            invariant
                self.wf(),
                i <= self.mapping.len(),
                r@ == self.order().subrange(0, i as int).filter(self.healthy_pred()),
            decreases self.mapping.len() - i,
        {
            let idx = self.mapping[i];
            proof {
                self.order().subrange(0, i as int).lemma_filter_push(idx, self.healthy_pred());
                assert(self.order().subrange(0, i + 1) =~= self.order().subrange(0, i as int).push(
                    idx,
                ));
            }
            if self.health[idx].status.is_healthy() {
                r.push(idx);
            }
            i = i + 1;
        }
        assert(self.order().subrange(0, i as int) =~= self.order());
        r
    }

    /// The index of the first member whose id is `id`.
    fn find_member(&self, id: &str) -> (r: Option<usize>)
        ensures
            match r {
                Some(i) => self.index_of_id(id@) == Some(i as int),
                None => self.index_of_id(id@) is None,
            },
    {
        let key = id.to_owned();
        let mut i: usize = 0;
        while i < self.members.len()
            invariant
                key@ == id@,
                i <= self.members.len(),
                forall|j: int| 0 <= j < i ==> self.member_seq()[j].id@ != id@,
            decreases self.members.len() - i,
        {
            if self.members[i].id == key {
                assert(self.is_first_with_id(id@, i as int));
                return Some(i);
            }
            i = i + 1;
        }
        None
    }

    /// The member whose id is `id`, healthy or not.
    pub fn get(&self, id: &str) -> (r: Option<&Member>)
        ensures
            match self.index_of_id(id@) {
                Some(i) => r == Some(&self.member_seq()[i]),
                None => r is None,
            },
    {
        match self.find_member(id) {
            Some(i) => Some(&self.members[i]),
            None => None,
        }
    }

    /// The fewest steps back from ring position `pos` to a healthy member.
    fn first_healthy_back(&self, pos: usize) -> (o: usize)
        requires
            self.wf(),
            pos < self.size(),
            self.healthy_order().len() > 0,
        ensures
            self.is_first_healthy_back(pos as int, o as int),
    {
        let n = self.mapping.len();
        let ghost w = self.lemma_back_witness(pos as int);
        let mut o: usize = 1;
        loop
            invariant
                self.wf(),
                n == self.size(),
                pos < n,
                1 <= o <= w <= n,
                self.healthy_at(self.order()[steps_back(pos as int, w, n as int)] as int),
                forall|o2: int|
                    1 <= o2 < o ==> !self.healthy_at(
                        self.order()[steps_back(pos as int, o2, n as int)] as int,
                    ),
            decreases n - o,
        {
            let p = if o <= pos {
                pos - o
            } else {
                n - (o - pos)
            };
            if self.health[self.mapping[p]].status.is_healthy() {
                return o;
            }
            o = o + 1;
        }
    }

    /// The fewest steps forward from ring position `pos` to a healthy member.
    fn first_healthy_forward(&self, pos: usize) -> (o: usize)
        requires
            self.wf(),
            pos < self.size(),
            self.healthy_order().len() > 0,
        ensures
            self.is_first_healthy_forward(pos as int, o as int),
    {
        let n = self.mapping.len();
        let ghost w = self.lemma_forward_witness(pos as int);
        let mut o: usize = 1;
        loop
            invariant
                self.wf(),
                n == self.size(),
                pos < n,
                1 <= o <= w <= n,
                self.healthy_at(self.order()[steps_forward(pos as int, w, n as int)] as int),
                forall|o2: int|
                    1 <= o2 < o ==> !self.healthy_at(
                        self.order()[steps_forward(pos as int, o2, n as int)] as int,
                    ),
            decreases n - o,
        {
            let p = if o < n - pos {
                pos + o
            } else {
                o - (n - pos)
            };
            if self.health[self.mapping[p]].status.is_healthy() {
                return o;
            }
            o = o + 1;
        }
    }

    /// The health entries after the member whose id is `id` is recorded with
    /// `status`, checked at `now`.
    pub open spec fn health_after_set(self, id: Seq<char>, status: HealthStatus, now: u64) -> Seq<
        MemberHealth,
    > {
        match self.index_of_id(id) {
            Some(i) => self.health_seq().update(
                i,
                (MemberHealth { status, last_checked: Some(now) }),
            ),
            None => self.health_seq(),
        }
    }

    /// The previous and next neighbours of the member whose id is `id`:
    /// `NotFound` where no member has that id, `NoNeighbors` where no member
    /// is healthy.
    pub fn neighbors(&self, id: &str) -> (r: Result<(&Member, &Member), RingError>)
        requires
            self.wf(),
        ensures
            match self.neighbors_spec(id@) {
                Ok((p, n)) => (r matches Ok((a, b)) && *a == self.member_seq()[p] && *b
                    == self.member_seq()[n]),
                Err(e) => r == Err::<(&Member, &Member), RingError>(e),
            },
    {
        let healthy = self.healthy_indices();
        let member_idx = match self.find_member(id) {
            Some(i) => i,
            None => return Err(RingError::NotFound),
        };
        if healthy.len() == 0 {
            return Err(RingError::NoNeighbors);
        }
        proof {
            self.lemma_healthy_order();
        }
        if let Some(index) = position_in(&healthy, member_idx) {
            // The member is healthy: its neighbours in the healthy ring.
            let len = healthy.len();
            let prev_idx = healthy[if index == 0 {
                len - 1
            } else {
                index - 1
            }];
            let next_idx = healthy[if index + 1 == len {
                0
            } else {
                index + 1
            }];
            assert(self.healthy_at(member_idx as int));
            assert(position_of(healthy@, member_idx) == index);
            return Ok((&self.members[prev_idx], &self.members[next_idx]));
        }
        // The member is unhealthy: the healthy members nearest to its place.
        assert(!self.healthy_at(member_idx as int));
        assert(self.order().contains(member_idx));
        let pos = match position_in(&self.mapping, member_idx) {
            Some(p) => p,
            None => return Err(RingError::NoNeighbors),
        };
        assert(position_of(self.order(), member_idx) == pos);
        let n = self.mapping.len();
        let back = self.first_healthy_back(pos);
        let forward = self.first_healthy_forward(pos);
        let prev_pos = if back <= pos {
            pos - back
        } else {
            n - (back - pos)
        };
        let next_pos = if forward < n - pos {
            pos + forward
        } else {
            forward - (n - pos)
        };
        let prev_idx = self.mapping[prev_pos];
        let next_idx = self.mapping[next_pos];
        Ok((&self.members[prev_idx], &self.members[next_idx]))
    }

    /// The healthy members, in ring order.
    pub fn iter(&self) -> (r: Vec<&Member>)
        requires
            self.wf(),
        ensures
            r@.len() == self.healthy_order().len(),
            forall|k: int|
                0 <= k < r@.len() ==> *#[trigger] r@[k] == self.member_seq()[self.healthy_order()[k] as int],
    {
        let healthy = self.healthy_indices();
        proof {
            self.lemma_healthy_order();
        }
        let mut r: Vec<&Member> = Vec::new();
        let mut k: usize = 0;
        while k < healthy.len()
            invariant
                self.wf(),
                healthy@ == self.healthy_order(),
                k <= healthy.len(),
                r@.len() == k,
                forall|j: int|
                    0 <= j < k ==> *#[trigger] r@[j] == self.member_seq()[healthy@[j] as int],
            decreases healthy.len() - k,
        {
            proof {
                self.lemma_healthy_order();
            }
            r.push(&self.members[healthy[k]]);
            k = k + 1;
        }
        r
    }

    /// Every member with its health, in ring order.
    pub fn all_with_health(&self) -> (r: Vec<(&Member, &MemberHealth)>)
        requires
            self.wf(),
        ensures
            r@.len() == self.size(),
            forall|p: int|
                0 <= p < r@.len() ==> {
                    &&& *(#[trigger] r@[p]).0 == self.member_seq()[self.order()[p] as int]
                    &&& *r@[p].1 == self.health_seq()[self.order()[p] as int]
                },
    {
        let mut r: Vec<(&Member, &MemberHealth)> = Vec::new();
        let mut p: usize = 0;
        while p < self.mapping.len()
            invariant
                self.wf(),
                p <= self.mapping.len(),
                r@.len() == p,
                forall|j: int|
                    0 <= j < p ==> {
                        &&& *(#[trigger] r@[j]).0 == self.member_seq()[self.order()[j] as int]
                        &&& *r@[j].1 == self.health_seq()[self.order()[j] as int]
                    },
            decreases self.mapping.len() - p,
        {
            let i = self.mapping[p];
            r.push((&self.members[i], &self.health[i]));
            p = p + 1;
        }
        r
    }

    /// The id and address of every member, in ring order: what a full scan
    /// checks.
    pub fn scan_targets(&self) -> (r: Vec<(String, String)>)
        requires
            self.wf(),
        ensures
            r@.len() == self.size(),
            forall|p: int|
                0 <= p < r@.len() ==> {
                    &&& (#[trigger] r@[p]).0@ == self.member_seq()[self.order()[p] as int].id@
                    &&& r@[p].1@ == self.member_seq()[self.order()[p] as int].url@
                },
    {
        let mut r: Vec<(String, String)> = Vec::new();
        let mut p: usize = 0;
        while p < self.mapping.len()
            invariant
                self.wf(),
                p <= self.mapping.len(),
                r@.len() == p,
                forall|j: int|
                    0 <= j < p ==> {
                        &&& (#[trigger] r@[j]).0@ == self.member_seq()[self.order()[j] as int].id@
                        &&& r@[j].1@ == self.member_seq()[self.order()[j] as int].url@
                    },
            decreases self.mapping.len() - p,
        {
            let m = &self.members[self.mapping[p]];
            r.push((m.id.clone(), m.url.clone()));
            p = p + 1;
        }
        r
    }

    /// How many members are healthy, and how many are not.
    pub fn health_counts(&self) -> (r: (usize, usize))
        requires
            self.wf(),
        ensures
            r.0 == self.healthy_order().len(),
            r.0 + r.1 == self.size(),
    {
        let healthy = self.healthy_indices();
        proof {
            self.order().lemma_filter_len(self.healthy_pred());
        }
        (healthy.len(), self.mapping.len() - healthy.len())
    }

    /// The member indices whose status is `status`, in ring order.
    pub open spec fn order_with_status(self, status: HealthStatus) -> Seq<usize> {
        self.order().filter(|i: usize| self.health_seq()[i as int].status == status)
    }

    /// The members whose status is `status`, in ring order.
    pub fn members_with_status(&self, status: HealthStatus) -> (r: Vec<&Member>)
        requires
            self.wf(),
        ensures
            r@.len() == self.order_with_status(status).len(),
            forall|k: int|
                0 <= k < r@.len() ==> *#[trigger] r@[k] == self.member_seq()[self.order_with_status(
                    status,
                )[k] as int],
    {
        let ghost pred = |i: usize| self.health_seq()[i as int].status == status;
        let mut r: Vec<&Member> = Vec::new();
        let ghost mut kept: Seq<usize> = Seq::empty();
        let mut p: usize = 0;
        while p < self.mapping.len()
            invariant
                self.wf(),
                pred == (|i: usize| self.health_seq()[i as int].status == status),
                p <= self.mapping.len(),
                kept == self.order().subrange(0, p as int).filter(pred),
                r@.len() == kept.len(),
                forall|k: int|
                    0 <= k < r@.len() ==> *#[trigger] r@[k] == self.member_seq()[kept[k] as int],
            decreases self.mapping.len() - p,
        {
            let i = self.mapping[p];
            proof {
                self.order().subrange(0, p as int).lemma_filter_push(i, pred);
                assert(self.order().subrange(0, p + 1) =~= self.order().subrange(0, p as int).push(
                    i,
                ));
            }
            if self.health[i].status == status {
                r.push(&self.members[i]);
                proof {
                    kept = kept.push(i);
                }
            }
            p = p + 1;
        }
        assert(self.order().subrange(0, p as int) =~= self.order());
        r
    }

    /// The number of members.
    pub fn len(&self) -> (r: usize)
        ensures
            r == self.size(),
    {
        self.members.len()
    }

    /// The member under the check cursor; the cursor moves on to the next
    /// member in configuration order, wrapping at the end.
    pub fn next_member_to_check(&mut self) -> (r: &Member)
        requires
            old(self).wf(),
            old(self).size() > 0,
        ensures
            final(self).wf(),
            *r == old(self).member_seq()[old(self).cursor() as int],
            final(self).cursor() == advance_cursor(old(self).cursor(), old(self).size()),
            final(self).member_seq() == old(self).member_seq(),
            final(self).health_seq() == old(self).health_seq(),
            final(self).order() == old(self).order(),
    {
        let i = self.check_index;
        let n = self.members.len();
        assert(i < n);
        self.check_index = if i + 1 == n {
            0
        } else {
            i + 1
        };
        &self.members[i]
    }

    /// Records the status of the member whose id is `id`, checked at `now`
    /// (seconds since the Unix epoch). An unknown id changes nothing.
    pub fn set_health_at(&mut self, id: &str, status: HealthStatus, now: u64)
        requires
            old(self).wf(),
        ensures
            final(self).wf(),
            final(self).member_seq() == old(self).member_seq(),
            final(self).order() == old(self).order(),
            final(self).cursor() == old(self).cursor(),
            final(self).health_seq() == old(self).health_after_set(id@, status, now),
    {
        if let Some(idx) = self.find_member(id) {
            self.health.set(idx, MemberHealth { status, last_checked: Some(now) });
        }
    }

    /// Records the status of the member whose id is `id`, stamped with the
    /// system clock. An unknown id changes nothing.
    pub fn set_health(&mut self, id: &str, status: HealthStatus)
        requires
            old(self).wf(),
        ensures
            final(self).wf(),
            final(self).member_seq() == old(self).member_seq(),
            final(self).order() == old(self).order(),
            final(self).cursor() == old(self).cursor(),
            exists|t: u64| final(self).health_seq() == old(self).health_after_set(id@, status, t),
    {
        let now = match unix_time_secs() {
            Some(s) => s,
            None => 0,
        };
        self.set_health_at(id, status, now);
    }
}

/// Filtering keeps a sequence free of repeats.
pub proof fn lemma_filter_no_duplicates(s: Seq<usize>, pred: spec_fn(usize) -> bool)
    requires
        s.no_duplicates(),
    ensures
        s.filter(pred).no_duplicates(),
    decreases s.len(),
{
    if s.len() > 0 {
        let d = s.drop_last();
        assert(d.no_duplicates());
        lemma_filter_no_duplicates(d, pred);
        assert(d.push(s.last()) =~= s);
        d.lemma_filter_push(s.last(), pred);
        if d.filter(pred).contains(s.last()) {
            d.lemma_filter_contains_rev(pred, s.last());
        }
    }
}

/// Where `x` stands in `s`, or `None`.
fn position_in(s: &Vec<usize>, x: usize) -> (r: Option<usize>)
    ensures
        match r {
            Some(k) => k < s.len() && s@[k as int] == x,
            None => !s@.contains(x),
        },
{
    let mut k: usize = 0;
    while k < s.len()
        invariant
            k <= s.len(),
            forall|j: int| 0 <= j < k ==> s@[j] != x,
        decreases s.len() - k,
    {
        if s[k] == x {
            return Some(k);
        }
        k = k + 1;
    }
    None
}

/// Where the check cursor goes after the member at `c`, among `n` members.
pub open spec fn advance_cursor(c: nat, n: nat) -> nat {
    if c + 1 == n {
        0
    } else {
        c + 1
    }
}

/// The position at which `x` stands in `s`, where it stands once.
pub open spec fn position_of(s: Seq<usize>, x: usize) -> int {
    choose|k: int| 0 <= k < s.len() && s[k] == x
}

/// The position before `k` in a cycle of `len` positions.
pub open spec fn cycle_prev(k: int, len: int) -> int {
    if k == 0 {
        len - 1
    } else {
        k - 1
    }
}

/// The position after `k` in a cycle of `len` positions.
pub open spec fn cycle_next(k: int, len: int) -> int {
    if k + 1 == len {
        0
    } else {
        k + 1
    }
}

/// The position `o` steps before `pos` in a cycle of `n` positions (`1 <= o <= n`).
pub open spec fn steps_back(pos: int, o: int, n: int) -> int {
    if o <= pos {
        pos - o
    } else {
        pos + n - o
    }
}

/// The position `o` steps after `pos` in a cycle of `n` positions (`1 <= o <= n`).
pub open spec fn steps_forward(pos: int, o: int, n: int) -> int {
    if pos + o < n {
        pos + o
    } else {
        pos + o - n
    }
}

} // verus!
