//! Properties of the ring that hold across calls and states.
use vstd::prelude::*;

use vstd::arithmetic::div_mod::{lemma_add_mod_noop, lemma_mod_self_0, lemma_small_mod};

use crate::classify::{
    page_verdict, script_verdict, API_PATTERN, REDIRECT_NEXT, REDIRECT_PREV, RING_JS_PATTERN,
};
use crate::ring::{
    advance_cursor, cycle_next, cycle_prev, epoch_of, epoch_ordering, position_of, steps_back,
    steps_forward, Ring, RingError,
};
use crate::status::{HealthStatus, MemberHealth};
use crate::text::{contains_text, lemma_first_match_exists, matches_at};

verus! {

/// One step around a cycle of `len` positions is one more, modulo `len`.
pub proof fn lemma_cycle_step(a: nat, len: nat)
    requires
        len > 0,
    ensures
        ((a + 1) as int) % (len as int) == cycle_next((a as int) % (len as int), len as int),
{
    let m = len as int;
    lemma_add_mod_noop(a as int, 1, m);
    let r = (a as int) % m;
    if len == 1 {
        assert(1int % 1 == 0);
        assert((r + 0) % 1 == 0);
    } else {
        lemma_small_mod(1, len);
        if r + 1 == m {
            lemma_mod_self_0(m);
        } else {
            lemma_small_mod((r + 1) as nat, len);
        }
    }
}

/// Where the check cursor stands after `j` checks, starting at `c`, among `n`
/// members.
pub open spec fn cursor_after(c: nat, n: nat, j: nat) -> nat
    decreases j,
{
    if j == 0 {
        c
    } else {
        advance_cursor(cursor_after(c, n, (j - 1) as nat), n)
    }
}

/// How many checks, starting with the cursor at `c`, pass before the member
/// at `m` is checked.
pub open spec fn checks_until(c: nat, n: nat, m: nat) -> nat {
    if m >= c {
        (m - c) as nat
    } else {
        (m + n - c) as nat
    }
}

/// The check cursor, moved once per check, visits each of the `n` members
/// exactly once in any `n` consecutive checks, and is back where it started
/// after `n` of them.
pub proof fn lemma_cursor_round_robin(c: nat, n: nat)
    requires
        c < n,
    ensures
        forall|j: nat| #[trigger] cursor_after(c, n, j) == ((c + j) as int) % (n as int),
        forall|i: nat, j: nat|
            i < n && j < n && i != j ==> cursor_after(c, n, i) != cursor_after(c, n, j),
        forall|m: nat|
            m < n ==> #[trigger] checks_until(c, n, m) < n && cursor_after(
                c,
                n,
                checks_until(c, n, m),
            ) == m,
        cursor_after(c, n, n) == c,
{
    assert forall|j: nat| #[trigger] cursor_after(c, n, j) == ((c + j) as int) % (n as int) by {
        lemma_cursor_after_mod(c, n, j);
    }
    assert forall|i: nat, j: nat|
        i < n && j < n && i != j implies cursor_after(c, n, i) != cursor_after(c, n, j) by {
        lemma_mod_distinct(c, n, i, j);
    }
    assert forall|m: nat| m < n implies #[trigger] checks_until(c, n, m) < n && cursor_after(
        c,
        n,
        checks_until(c, n, m),
    ) == m by {
        let j = checks_until(c, n, m);
        if m >= c {
            lemma_small_mod(m, n);
        } else {
            vstd::arithmetic::div_mod::lemma_mod_add_multiples_vanish(m as int, n as int);
            lemma_small_mod(m, n);
        }
        assert(cursor_after(c, n, j) == m);
    }
    lemma_cursor_after_mod(c, n, n);
    vstd::arithmetic::div_mod::lemma_mod_add_multiples_vanish(c as int, n as int);
    lemma_small_mod(c, n);
}

proof fn lemma_cursor_after_mod(c: nat, n: nat, j: nat)
    requires
        c < n,
    ensures
        cursor_after(c, n, j) == ((c + j) as int) % (n as int),
    decreases j,
{
    if j == 0 {
        lemma_small_mod(c, n);
    } else {
        lemma_cursor_after_mod(c, n, (j - 1) as nat);
        lemma_cycle_step((c + j - 1) as nat, n);
    }
}

/// Distinct step counts below `n` land on distinct positions modulo `n`.
proof fn lemma_mod_distinct(c: nat, n: nat, i: nat, j: nat)
    requires
        c < n,
        i < n,
        j < n,
        i != j,
    ensures
        ((c + i) as int) % (n as int) != ((c + j) as int) % (n as int),
{
    let m = n as int;
    let a = c + i;
    let b = c + j;
    if a < m {
        lemma_small_mod(a as nat, n);
    } else {
        vstd::arithmetic::div_mod::lemma_mod_add_multiples_vanish(a - m, m);
        lemma_small_mod((a - m) as nat, n);
    }
    if b < m {
        lemma_small_mod(b as nat, n);
    } else {
        vstd::arithmetic::div_mod::lemma_mod_add_multiples_vanish(b - m, m);
        lemma_small_mod((b - m) as nat, n);
    }
}

/// The ring ordering holds every member index exactly once: no index is
/// missing and none is repeated.
pub proof fn lemma_ordering_is_bijection(ring: Ring)
    requires
        ring.wf(),
    ensures
        ring.order().len() == ring.size(),
        forall|p: int| 0 <= p < ring.size() ==> #[trigger] ring.order()[p] < ring.size(),
        forall|p: int, q: int|
            0 <= p < ring.size() && 0 <= q < ring.size() && p != q ==> ring.order()[p]
                != ring.order()[q],
        forall|k: usize|
            k < ring.size() ==> {
                &&& 0 <= #[trigger] position_of(ring.order(), k) < ring.size()
                &&& ring.order()[position_of(ring.order(), k)] == k
            },
{
    assert forall|k: usize| k < ring.size() implies {
        &&& 0 <= #[trigger] position_of(ring.order(), k) < ring.size()
        &&& ring.order()[position_of(ring.order(), k)] == k
    } by {
        assert(ring.order().contains(k));
    }
}

/// Two reshuffles of equally many members for the same epoch give the same
/// ordering.
pub proof fn lemma_reshuffle_deterministic(a: Ring, b: Ring, epoch: u64)
    requires
        a.size() == b.size(),
        a.order() == epoch_ordering(a.size(), epoch),
        b.order() == epoch_ordering(b.size(), epoch),
    ensures
        a.order() == b.order(),
{
}

/// Two times in the same week give the same ordering of `n` members.
pub proof fn lemma_same_epoch_same_ordering(n: nat, t1: u64, t2: u64)
    requires
        epoch_of(t1) == epoch_of(t2),
    ensures
        epoch_ordering(n, epoch_of(t1)) == epoch_ordering(n, epoch_of(t2)),
{
}

/// Among two or more healthy members, a healthy member's neighbours are
/// healthy members other than itself; among three or more, they are two
/// different members.
pub proof fn lemma_healthy_neighbors_distinct(ring: Ring, m: int)
    requires
        ring.wf(),
        0 <= m < ring.size(),
        ring.healthy_at(m),
        ring.healthy_order().len() >= 2,
    ensures
        ring.neighbor_indices(m).0 != m,
        ring.neighbor_indices(m).1 != m,
        ring.healthy_order().len() >= 3 ==> ring.neighbor_indices(m).0 != ring.neighbor_indices(
            m,
        ).1,
        ring.healthy_at(ring.neighbor_indices(m).0),
        ring.healthy_at(ring.neighbor_indices(m).1),
{
    ring.lemma_healthy_order();
    let h = ring.healthy_order();
    assert(h.contains(m as usize));
    let k = position_of(h, m as usize);
    let len = h.len() as int;
    assert(h[cycle_prev(k, len)] != h[k]);
    assert(h[cycle_next(k, len)] != h[k]);
    if len >= 3 {
        assert(h[cycle_prev(k, len)] != h[cycle_next(k, len)]);
    }
}

/// Where ids are unique, looking a member up by its id finds its neighbours
/// by index, so the laws on `neighbor_indices` speak of what `neighbors`
/// returns.
pub proof fn lemma_neighbors_by_id(ring: Ring, m: int)
    requires
        ring.wf(),
        ring.ids_unique(),
        0 <= m < ring.size(),
        ring.healthy_order().len() > 0,
    ensures
        ring.index_of_id(ring.member_seq()[m].id@) == Some(m),
        ring.neighbors_spec(ring.member_seq()[m].id@) == Ok::<(int, int), RingError>(
            ring.neighbor_indices(m),
        ),
{
    assert(ring.is_first_with_id(ring.member_seq()[m].id@, m));
}

/// The member reached from the member at `m` by following `next` `j` times.
pub open spec fn walk_next(ring: Ring, m: int, j: nat) -> int
    decreases j,
{
    if j == 0 {
        m
    } else {
        ring.neighbor_indices(walk_next(ring, m, (j - 1) as nat)).1
    }
}

/// How many `next` steps lead from position `k` to position `q` of a cycle of
/// `len` positions.
pub open spec fn cycle_distance(k: int, q: int, len: int) -> nat {
    if q >= k {
        (q - k) as nat
    } else {
        (q + len - k) as nat
    }
}

/// Following `next` from a healthy member walks the healthy members in ring
/// order and closes a single cycle: it meets every healthy member, each once
/// in `len` steps, and is back after `len` steps.
pub proof fn lemma_healthy_ring_one_cycle(ring: Ring, k: int)
    requires
        ring.wf(),
        0 <= k < ring.healthy_order().len(),
    ensures
        forall|j: nat|
            #[trigger] walk_next(ring, ring.healthy_order()[k] as int, j) == ring.healthy_order()[((
            k + j) % (ring.healthy_order().len() as int))] as int,
        walk_next(ring, ring.healthy_order()[k] as int, ring.healthy_order().len())
            == ring.healthy_order()[k] as int,
        forall|i: nat, j: nat|
            i < ring.healthy_order().len() && j < ring.healthy_order().len() && i != j ==> walk_next(
                ring,
                ring.healthy_order()[k] as int,
                i,
            ) != walk_next(ring, ring.healthy_order()[k] as int, j),
        forall|q: int|
            0 <= q < ring.healthy_order().len() ==> walk_next(
                ring,
                ring.healthy_order()[k] as int,
                #[trigger] cycle_distance(k, q, ring.healthy_order().len() as int),
            ) == ring.healthy_order()[q] as int,
{
    let h = ring.healthy_order();
    let len = h.len();
    ring.lemma_healthy_order();
    assert forall|j: nat|
        #[trigger] walk_next(ring, h[k] as int, j) == h[((k + j) % (len as int))] as int by {
        lemma_walk_next_mod(ring, k, j);
    }
    lemma_small_mod(k as nat, len);
    vstd::arithmetic::div_mod::lemma_mod_add_multiples_vanish(k, len as int);
    assert(walk_next(ring, h[k] as int, len) == h[((k + len) % (len as int))] as int);
    assert forall|i: nat, j: nat| i < len && j < len && i != j implies walk_next(
        ring,
        h[k] as int,
        i,
    ) != walk_next(ring, h[k] as int, j) by {
        lemma_mod_distinct(k as nat, len, i, j);
        vstd::arithmetic::div_mod::lemma_mod_bound((k + i) as int, len as int);
        vstd::arithmetic::div_mod::lemma_mod_bound((k + j) as int, len as int);
        assert(walk_next(ring, h[k] as int, i) == h[((k + i) % (len as int))] as int);
        assert(walk_next(ring, h[k] as int, j) == h[((k + j) % (len as int))] as int);
    }
    assert forall|q: int| 0 <= q < len implies walk_next(
        ring,
        h[k] as int,
        #[trigger] cycle_distance(k, q, len as int),
    ) == h[q] as int by {
        let d = cycle_distance(k, q, len as int);
        assert(walk_next(ring, h[k] as int, d) == h[((k + d) % (len as int))] as int);
        if q >= k {
            lemma_small_mod(q as nat, len);
        } else {
            vstd::arithmetic::div_mod::lemma_mod_add_multiples_vanish(q, len as int);
            lemma_small_mod(q as nat, len);
        }
    }
}

proof fn lemma_walk_next_mod(ring: Ring, k: int, j: nat)
    requires
        ring.wf(),
        0 <= k < ring.healthy_order().len(),
    ensures
        walk_next(ring, ring.healthy_order()[k] as int, j) == ring.healthy_order()[((k + j) % (
        ring.healthy_order().len() as int))] as int,
    decreases j,
{
    let h = ring.healthy_order();
    let len = h.len();
    ring.lemma_healthy_order();
    if j == 0 {
        lemma_small_mod(k as nat, len);
    } else {
        lemma_walk_next_mod(ring, k, (j - 1) as nat);
        let r = (k + j - 1) % (len as int);
        vstd::arithmetic::div_mod::lemma_mod_bound((k + j - 1) as int, len as int);
        let x = h[r];
        assert(ring.healthy_at(x as int));
        assert(h.contains(x));
        assert(position_of(h, x) == r);
        lemma_cycle_step((k + j - 1) as nat, len);
    }
}

/// An unhealthy member still has neighbours while some member is healthy:
/// both are healthy, and they are the first healthy members met going
/// backward and forward from its place in the ring ordering.
pub proof fn lemma_unhealthy_member_neighbors(ring: Ring, m: int)
    requires
        ring.wf(),
        0 <= m < ring.size(),
        !ring.healthy_at(m),
        ring.healthy_order().len() > 0,
    ensures
        ring.healthy_at(ring.neighbor_indices(m).0),
        ring.healthy_at(ring.neighbor_indices(m).1),
        ({
            let pos = position_of(ring.order(), m as usize);
            let n = ring.size() as int;
            &&& exists|o: int|
                ring.is_first_healthy_back(pos, o) && ring.neighbor_indices(m).0
                    == ring.order()[steps_back(pos, o, n)] as int
            &&& exists|o: int|
                ring.is_first_healthy_forward(pos, o) && ring.neighbor_indices(m).1
                    == ring.order()[steps_forward(pos, o, n)] as int
        }),
{
    assert(ring.order().contains(m as usize));
    let pos = position_of(ring.order(), m as usize);
    let wb = ring.lemma_back_witness(pos);
    ring.lemma_first_back_exists(pos, wb);
    let wf = ring.lemma_forward_witness(pos);
    ring.lemma_first_forward_exists(pos, wf);
    let back = choose|o: int| ring.is_first_healthy_back(pos, o);
    let forward = choose|o: int| ring.is_first_healthy_forward(pos, o);
    assert(ring.is_first_healthy_back(pos, back));
    assert(ring.is_first_healthy_forward(pos, forward));
}

/// With no healthy member, the ring lists no one and every known member's
/// neighbour lookup reports that no neighbours exist.
pub proof fn lemma_no_healthy_members(ring: Ring, id: Seq<char>)
    requires
        ring.wf(),
        forall|i: int| 0 <= i < ring.size() ==> !ring.healthy_at(i),
    ensures
        ring.healthy_order().len() == 0,
        ring.index_of_id(id) is Some ==> ring.neighbors_spec(id) == Err::<(int, int), RingError>(
            RingError::NoNeighbors,
        ),
{
    ring.lemma_healthy_order();
    if ring.healthy_order().len() > 0 {
        assert(ring.healthy_at(ring.healthy_order()[0] as int));
    }
}

/// Recording a member's status and reading the listing back shows that
/// status, stamped with the time of the check, at the member's place in the
/// ring ordering.
pub proof fn lemma_set_health_round_trip(
    before: Ring,
    after: Ring,
    id: Seq<char>,
    status: HealthStatus,
    now: u64,
)
    requires
        before.wf(),
        before.index_of_id(id) is Some,
        after.member_seq() == before.member_seq(),
        after.order() == before.order(),
        after.health_seq() == before.health_after_set(id, status, now),
    ensures
        ({
            let i = before.index_of_id(id)->0;
            let p = position_of(after.order(), i as usize);
            &&& 0 <= p < after.size()
            &&& after.order()[p] == i
            &&& after.member_seq()[i].id@ == id
            &&& after.health_seq()[after.order()[p] as int] == (MemberHealth {
                status,
                last_checked: Some(now),
            })
        }),
{
    let i = before.index_of_id(id)->0;
    assert(before.is_first_with_id(id, i));
    assert(before.order().contains(i as usize));
}

/// A text that names the ring's script is classified as using it, whatever
/// else it holds.
pub proof fn lemma_ring_js_takes_priority(t: Seq<char>)
    requires
        contains_text(t, RING_JS_PATTERN@),
    ensures
        page_verdict(t) == Some(HealthStatus::HealthyRingJs),
        script_verdict(t) == Some(HealthStatus::HealthyRingJs),
{
}

/// A text without the ring's script, holding the API base followed later by
/// a previous or next suffix, is classified as using redirect links.
pub proof fn lemma_redirect_after_api(t: Seq<char>, a: int, i: int)
    requires
        !contains_text(t, RING_JS_PATTERN@),
        matches_at(t, API_PATTERN@, a),
        a + API_PATTERN@.len() <= i,
        matches_at(t, REDIRECT_NEXT@, i) || matches_at(t, REDIRECT_PREV@, i),
    ensures
        page_verdict(t) == Some(HealthStatus::HealthyRedirectLinks),
        script_verdict(t) == Some(HealthStatus::HealthyRedirectLinks),
{
    lemma_first_match_exists(t, API_PATTERN@, 0, a);
}

} // verus!
