//! The bounds on what clients can use up: requests of one source in a window of time, and
//! connections and fetches at one time.

use std::collections::HashMap;
use std::hash::Hash;
use vstd::prelude::*;
use vstd::std_specs::hash::obeys_key_model;

use crate::source::{accept_peer_limited, peer_is_limited, Ip, TrustedProxy};

verus! {

broadcast use vstd::std_specs::hash::group_hash_axioms;

/// The length of a window, in nanoseconds.
pub const RATE_WINDOW_NANOS: u64 = 10_000_000_000;

/// The requests that one source may make in a window.
pub const MAX_REQ_PER_WINDOW: u32 = 100;

/// With more sources than this on record, those whose window is over are forgotten.
pub const RATE_MAP_SWEEP_AT: usize = 10_000;

/// The connections that are served at one time.
pub const MAX_CONNS: usize = 256;

/// The fetches from the origin, on behalf of the mesh, that run at one time.
pub const MAX_INFLIGHT_FETCHES: usize = 128;

/// The window of one source: when it began, and the requests in it.
#[derive(Clone, Copy)]
pub struct Window {
    pub start: u64,
    pub count: u32,
}

/// A window as two numbers: its start and its requests.
pub type WindowSpec = (nat, nat);

/// True once a window that began at `start` is over.
pub open spec fn is_over(start: nat, now: nat) -> bool {
    now >= start + RATE_WINDOW_NANOS
}

fn window_over(w: &Window, now: u64) -> (r: bool)
    ensures
        r == is_over(w.start as nat, now as nat),
{
    now.saturating_sub(w.start) >= RATE_WINDOW_NANOS
}

/// The sources whose window is not over.
pub open spec fn live(m: Map<Ip, WindowSpec>, now: nat) -> Map<Ip, WindowSpec> {
    Map::new(|ip: Ip| m.contains_key(ip) && !is_over(m[ip].0, now), |ip: Ip| m[ip])
}

/// The record once the sources whose window is over are forgotten, which happens only where the
/// record has grown too long.
pub open spec fn swept(m: Map<Ip, WindowSpec>, now: nat) -> Map<Ip, WindowSpec> {
    if m.len() > RATE_MAP_SWEEP_AT {
        live(m, now)
    } else {
        m
    }
}

/// The requests that a source has made in its window, none where the window is over.
pub open spec fn counted(m: Map<Ip, WindowSpec>, ip: Ip, now: nat) -> nat {
    if m.contains_key(ip) && !is_over(m[ip].0, now) {
        m[ip].1
    } else {
        0
    }
}

/// The window of a source after one more request: the running one with the request counted, or a
/// new one that begins with it.
pub open spec fn next_window(m: Map<Ip, WindowSpec>, ip: Ip, now: nat) -> WindowSpec {
    if m.contains_key(ip) && !is_over(m[ip].0, now) {
        (m[ip].0, m[ip].1 + 1)
    } else {
        (now, 1)
    }
}

/// Whether one more request of a source is within its budget.
pub open spec fn is_allowed(m: Map<Ip, WindowSpec>, ip: Ip, now: nat) -> bool {
    next_window(m, ip, now).1 <= MAX_REQ_PER_WINDOW
}

/// The record after one more request of a source.
pub open spec fn recorded(m: Map<Ip, WindowSpec>, ip: Ip, now: nat) -> Map<Ip, WindowSpec> {
    swept(m, now).insert(ip, next_window(m, ip, now))
}

/// The windows of sources, by address.
pub struct RateLimiter {
    v4: HashMap<u32, Window>,
    v6: HashMap<u128, Window>,
}

spec fn joined(v4: Map<u32, Window>, v6: Map<u128, Window>) -> Map<Ip, WindowSpec> {
    Map::new(
        |ip: Ip|
            match ip {
                Ip::V4(a) => v4.contains_key(a),
                Ip::V6(a) => v6.contains_key(a),
            },
        |ip: Ip|
            match ip {
                Ip::V4(a) => (v4[a].start as nat, v4[a].count as nat),
                Ip::V6(a) => (v6[a].start as nat, v6[a].count as nat),
            },
    )
}

impl View for RateLimiter {
    type V = Map<Ip, WindowSpec>;

    closed spec fn view(&self) -> Map<Ip, WindowSpec> {
        joined(self.v4@, self.v6@)
    }
}

proof fn lemma_joined_len(v4: Map<u32, Window>, v6: Map<u128, Window>)
    requires
        v4.dom().finite(),
        v6.dom().finite(),
    ensures
        joined(v4, v6).dom().finite(),
        joined(v4, v6).len() == v4.len() + v6.len(),
{
    let f4 = |a: u32| Ip::V4(a);
    let f6 = |a: u128| Ip::V6(a);
    let d4 = v4.dom().map(f4);
    let d6 = v6.dom().map(f6);
    vstd::set_lib::lemma_map_size(v4.dom(), d4, f4);
    vstd::set_lib::lemma_map_size(v6.dom(), d6, f6);
    vstd::set_lib::lemma_set_disjoint_lens(d4, d6);
    assert(joined(v4, v6).dom() =~= d4.union(d6)) by {
        assert forall|ip: Ip| joined(v4, v6).dom().contains(ip) implies d4.union(d6).contains(
            ip,
        ) by {
            match ip {
                Ip::V4(a) => {
                    assert(v4.dom().contains(a) && f4(a) == ip);
                },
                Ip::V6(a) => {
                    assert(v6.dom().contains(a) && f6(a) == ip);
                },
            }
        }
    }
}

/// The windows of `map` that are not over.
fn live_windows<K: Eq + Hash + Copy>(map: &HashMap<K, Window>, now: u64) -> (r: HashMap<K, Window>)
    requires
        obeys_key_model::<K>(),
    ensures
        forall|k: K| #[trigger]
            r@.contains_key(k) <==> map@.contains_key(k) && !is_over(
                map@[k].start as nat,
                now as nat,
            ),
        forall|k: K| #[trigger] r@.contains_key(k) ==> r@[k] == map@[k],
{
    let mut out: HashMap<K, Window> = HashMap::new();
    for kv in it: map.iter()
        invariant
            obeys_key_model::<K>(),
            it.seq() == vstd::std_specs::iter::IteratorSpec::remaining(&map.iter()),
            forall|k: K| #[trigger]
                out@.contains_key(k) ==> map@.contains_key(k) && out@[k] == map@[k] && !is_over(
                    map@[k].start as nat,
                    now as nat,
                ),
            forall|j: int|
                #![trigger it.seq()[j]]
                0 <= j < it.index() && !is_over(it.seq()[j].1.start as nat, now as nat)
                    ==> out@.contains_key(*it.seq()[j].0),
    {
        assert(kv == it.seq()[it.index() as int]);
        assert(map@.contains_key(*kv.0) && map@[*kv.0] == *kv.1);
        if !window_over(kv.1, now) {
            out.insert(*kv.0, *kv.1);
        }
    }
    assert forall|k: K| map@.contains_key(k) && !is_over(map@[k].start as nat, now as nat) implies
        #[trigger] out@.contains_key(k) by {
        let s = vstd::std_specs::iter::IteratorSpec::remaining(&map.iter());
        assert(s.contains((&k, &map@[k])));
        let j = choose|j: int| 0 <= j < s.len() && s[j] == (&k, &map@[k]);
        assert(*s[j].0 == k);
    }
    out
}

/// The window of a source after one more request.
fn window_after(found: Option<&Window>, now: u64) -> (r: Window)
    requires
        found matches Some(w) ==> !is_over(w.start as nat, now as nat) ==> w.count < u32::MAX,
    ensures
        match found {
            Some(w) if !is_over(w.start as nat, now as nat) => r.start == w.start && r.count
                == w.count + 1,
            _ => r.start == now && r.count == 1,
        },
{
    match found {
        Some(w) => if window_over(w, now) {
            Window { start: now, count: 1 }
        } else {
            Window { start: w.start, count: w.count + 1 }
        },
        None => Window { start: now, count: 1 },
    }
}

impl RateLimiter {
    /// A record without sources.
    pub fn new() -> (r: RateLimiter)
        ensures
            r@ == Map::<Ip, WindowSpec>::empty(),
    {
        let r = RateLimiter { v4: HashMap::new(), v6: HashMap::new() };
        assert(r@ =~= Map::<Ip, WindowSpec>::empty());
        r
    }

    /// The requests that `ip` has made in its window at the time `now`, in nanoseconds.
    pub fn requests_in_window(&self, ip: Ip, now: u64) -> (r: u32)
        ensures
            r == counted(self@, ip, now as nat),
    {
        let found = match ip {
            Ip::V4(a) => self.v4.get(&a),
            Ip::V6(a) => self.v6.get(&a),
        };
        match found {
            Some(w) => if window_over(w, now) {
                0
            } else {
                w.count
            },
            None => 0,
        }
    }

    fn sweep(&mut self, now: u64)
        ensures
            final(self)@ == swept(old(self)@, now as nat),
    {
        proof {
            lemma_joined_len(self.v4@, self.v6@);
        }
        let n4: usize = self.v4.len();
        let n6: usize = self.v6.len();
        if n4 > RATE_MAP_SWEEP_AT || n6 > RATE_MAP_SWEEP_AT || n4 + n6 > RATE_MAP_SWEEP_AT {
            self.v4 = live_windows(&self.v4, now);
            self.v6 = live_windows(&self.v6, now);
            assert(self@ =~= live(old(self)@, now as nat));
        }
    }

    /// Counts one more request of `ip` at the time `now`, in nanoseconds, and tells whether it is
    /// within the budget of its window. One that is not must be shed.
    pub fn allow_source(&mut self, ip: Ip, now: u64) -> (r: bool)
        requires
            counted(old(self)@, ip, now as nat) < u32::MAX,
        ensures
            final(self)@ == recorded(old(self)@, ip, now as nat),
            r == is_allowed(old(self)@, ip, now as nat),
    {
        self.sweep(now);
        let ghost m = self@;
        proof {
            law_sweep_changes_no_decision(old(self)@, ip, now as nat, now as nat);
        }
        let w = match ip {
            Ip::V4(a) => {
                let w = window_after(self.v4.get(&a), now);
                self.v4.insert(a, w);
                w
            },
            Ip::V6(a) => {
                let w = window_after(self.v6.get(&a), now);
                self.v6.insert(a, w);
                w
            },
        };
        assert(self@ =~= m.insert(ip, next_window(m, ip, now as nat)));
        w.count <= MAX_REQ_PER_WINDOW
    }
}

/// Forgetting windows that are over changes no decision, then or later.
pub proof fn law_sweep_changes_no_decision(
    m: Map<Ip, WindowSpec>,
    ip: Ip,
    now: nat,
    later: nat,
)
    requires
        now <= later,
    ensures
        next_window(swept(m, now), ip, later) == next_window(m, ip, later),
        counted(swept(m, now), ip, later) == counted(m, ip, later),
{
}

/// A request of one source leaves the window of every other source as it was.
pub proof fn law_sources_do_not_share_a_budget(
    m: Map<Ip, WindowSpec>,
    ip: Ip,
    other: Ip,
    now: nat,
    later: nat,
)
    requires
        ip != other,
        now <= later,
    ensures
        next_window(recorded(m, ip, now), other, later) == next_window(m, other, later),
        is_allowed(recorded(m, ip, now), other, later) == is_allowed(m, other, later),
{
}

/// The record after a sequence of requests, each with its source and its time.
pub open spec fn replayed(m: Map<Ip, WindowSpec>, reqs: Seq<(Ip, nat)>) -> Map<Ip, WindowSpec>
    decreases reqs.len(),
{
    if reqs.len() == 0 {
        m
    } else {
        recorded(replayed(m, reqs.drop_last()), reqs.last().0, reqs.last().1)
    }
}

/// How many of the requests a source made.
pub open spec fn made(reqs: Seq<(Ip, nat)>, ip: Ip) -> nat
    decreases reqs.len(),
{
    if reqs.len() == 0 {
        0
    } else {
        made(reqs.drop_last(), ip) + (if reqs.last().0 == ip {
            1nat
        } else {
            0
        })
    }
}

/// How many of the requests of a source were allowed.
pub open spec fn allowed(m: Map<Ip, WindowSpec>, reqs: Seq<(Ip, nat)>, ip: Ip) -> nat
    decreases reqs.len(),
{
    if reqs.len() == 0 {
        0
    } else {
        allowed(m, reqs.drop_last(), ip) + (if reqs.last().0 == ip && is_allowed(
            replayed(m, reqs.drop_last()),
            ip,
            reqs.last().1,
        ) {
            1nat
        } else {
            0
        })
    }
}

/// In a window of time that begins without a running window of a source, the source gets its
/// budget and no more, however many requests it makes and whatever other sources do.
pub proof fn law_budget_per_window(
    m: Map<Ip, WindowSpec>,
    reqs: Seq<(Ip, nat)>,
    ip: Ip,
    begin: nat,
)
    requires
        m.contains_key(ip) ==> is_over(m[ip].0, begin),
        forall|i: int|
            0 <= i < reqs.len() ==> begin <= (#[trigger] reqs[i]).1 < begin + RATE_WINDOW_NANOS,
    ensures
        allowed(m, reqs, ip) == if made(reqs, ip) <= 100 {
            made(reqs, ip)
        } else {
            100
        },
{
    lemma_budget(m, reqs, ip, begin);
}

proof fn lemma_budget(m: Map<Ip, WindowSpec>, reqs: Seq<(Ip, nat)>, ip: Ip, begin: nat)
    requires
        m.contains_key(ip) ==> is_over(m[ip].0, begin),
        forall|i: int|
            0 <= i < reqs.len() ==> begin <= (#[trigger] reqs[i]).1 < begin + RATE_WINDOW_NANOS,
    ensures
        allowed(m, reqs, ip) == if made(reqs, ip) <= MAX_REQ_PER_WINDOW {
            made(reqs, ip)
        } else {
            MAX_REQ_PER_WINDOW as nat
        },
        ({
            let after = replayed(m, reqs);
            if made(reqs, ip) == 0 {
                after.contains_key(ip) ==> is_over(after[ip].0, begin)
            } else {
                after.contains_key(ip) && after[ip].1 == made(reqs, ip) && begin <= after[ip].0
                    < begin + RATE_WINDOW_NANOS
            }
        }),
    decreases reqs.len(),
{
    if reqs.len() > 0 {
        let before = reqs.drop_last();
        assert forall|i: int| 0 <= i < before.len() implies begin <= (#[trigger] before[i]).1
            < begin + RATE_WINDOW_NANOS by {
            assert(before[i] == reqs[i]);
        }
        lemma_budget(m, before, ip, begin);
        assert(reqs.last() == reqs[reqs.len() - 1]);
    }
}

/// A window is fixed: a request in it adds one to its count and leaves its start where it was, and
/// ten seconds after its start it is over, whatever came in between; the next request begins a new
/// one. Up to a hundred requests in a window are allowed, and no more.
pub proof fn law_window_is_fixed(m: Map<Ip, WindowSpec>, ip: Ip, now: nat)
    ensures
        recorded(m, ip, now).contains_key(ip),
        m.contains_key(ip) && now < m[ip].0 + 10_000_000_000 ==> recorded(m, ip, now)[ip].0
            == m[ip].0 && recorded(m, ip, now)[ip].1 == m[ip].1 + 1,
        !(m.contains_key(ip) && now < m[ip].0 + 10_000_000_000) ==> recorded(m, ip, now)[ip].0
            == now && recorded(m, ip, now)[ip].1 == 1,
        is_allowed(m, ip, now) <==> recorded(m, ip, now)[ip].1 <= 100,
        recorded(m, ip, now)[ip].1 == counted(m, ip, now) + 1,
{
}

/// A record of more than ten thousand sources forgets every source whose window is over, and no
/// other; a shorter one forgets nobody. So it never holds more than that many sources beside those
/// of the last ten seconds.
pub proof fn law_a_long_record_is_swept(
    m: Map<Ip, WindowSpec>,
    ip: Ip,
    other: Ip,
    now: nat,
)
    requires
        ip != other,
    ensures
        m.len() <= 10_000 ==> recorded(m, ip, now).contains_key(other) == m.contains_key(other),
        m.len() > 10_000 ==> (recorded(m, ip, now).contains_key(other) <==> m.contains_key(other)
            && now < m[other].0 + 10_000_000_000),
        recorded(m, ip, now).contains_key(other) ==> recorded(m, ip, now)[other] == m[other],
{
}

/// How many of the requests a source made in the ten seconds from a time on.
pub open spec fn made_in_ten_seconds(reqs: Seq<(Ip, nat)>, ip: Ip, from: nat) -> nat
    decreases reqs.len(),
{
    if reqs.len() == 0 {
        0
    } else {
        made_in_ten_seconds(reqs.drop_last(), ip, from) + (if reqs.last().0 == ip && from
            <= reqs.last().1 < from + 10_000_000_000 {
            1nat
        } else {
            0
        })
    }
}

/// True where no request comes before an earlier one.
pub open spec fn in_order(reqs: Seq<(Ip, nat)>) -> bool {
    forall|i: int, j: int|
        0 <= i < j < reqs.len() ==> (#[trigger] reqs[i]).1 <= (#[trigger] reqs[j]).1
}

proof fn lemma_fewer_before(reqs: Seq<(Ip, nat)>, ip: Ip, from: nat, n: int)
    requires
        0 <= n <= reqs.len(),
    ensures
        made_in_ten_seconds(reqs.take(n), ip, from) <= made_in_ten_seconds(reqs, ip, from),
    decreases reqs.len(),
{
    if n < reqs.len() {
        lemma_fewer_before(reqs.drop_last(), ip, from, n);
        assert(reqs.drop_last().take(n) =~= reqs.take(n));
    } else {
        assert(reqs.take(n) =~= reqs);
    }
}

proof fn lemma_window_counts_what_was_made(reqs: Seq<(Ip, nat)>, ip: Ip)
    requires
        in_order(reqs),
    ensures
        ({
            let m = replayed(Map::empty(), reqs);
            m.contains_key(ip) ==> reqs.len() > 0 && m[ip].0 <= reqs.last().1 && m[ip].1
                <= made_in_ten_seconds(reqs, ip, m[ip].0)
        }),
    decreases reqs.len(),
{
    if reqs.len() > 0 {
        let before = reqs.drop_last();
        let m = replayed(Map::empty(), before);
        let (who, now) = reqs.last();
        assert forall|i: int, j: int| 0 <= i < j < before.len() implies (#[trigger] before[i]).1
            <= (#[trigger] before[j]).1 by {
            assert(before[i] == reqs[i] && before[j] == reqs[j]);
        }
        lemma_window_counts_what_was_made(before, ip);
        if before.len() > 0 {
            assert(reqs[before.len() - 1].1 <= reqs[reqs.len() - 1].1);
        }
        law_window_is_fixed(m, ip, now);
    }
}

/// A source that never makes more than a hundred requests in ten seconds is always allowed, however
/// long it goes on and whatever other sources do.
pub proof fn law_steady_source_is_always_allowed(reqs: Seq<(Ip, nat)>, ip: Ip, i: int)
    requires
        in_order(reqs),
        forall|from: nat| #[trigger] made_in_ten_seconds(reqs, ip, from) <= 100,
        0 <= i < reqs.len(),
        reqs[i].0 == ip,
    ensures
        is_allowed(replayed(Map::empty(), reqs.take(i)), ip, reqs[i].1),
{
    let so_far = reqs.take(i + 1);
    let before = reqs.take(i);
    assert(so_far.drop_last() =~= before);
    assert(so_far.last() == reqs[i]);
    assert forall|a: int, b: int| 0 <= a < b < so_far.len() implies (#[trigger] so_far[a]).1 <= (
    #[trigger] so_far[b]).1 by {
        assert(so_far[a] == reqs[a] && so_far[b] == reqs[b]);
    }
    lemma_window_counts_what_was_made(so_far, ip);
    let m = replayed(Map::empty(), before);
    law_window_is_fixed(m, ip, reqs[i].1);
    let after = replayed(Map::empty(), so_far);
    lemma_fewer_before(reqs, ip, after[ip].0, i + 1);
}

/// A source that made a hundred requests or more in the ten seconds of its window is shed until
/// the window is over.
pub proof fn law_full_window_sheds(m: Map<Ip, WindowSpec>, ip: Ip, now: nat)
    requires
        m.contains_key(ip),
        m[ip].1 >= 100,
    ensures
        is_allowed(m, ip, now) <==> now >= m[ip].0 + 10_000_000_000,
{
}

/// Places for things that run at one time.
pub struct Slots {
    active: usize,
    cap: usize,
}

impl Slots {
    #[verifier::type_invariant]
    spec fn within_cap(self) -> bool {
        self.active <= self.cap
    }

    /// The places that are taken.
    pub closed spec fn taken(self) -> nat {
        self.active as nat
    }

    /// The places that there are.
    pub closed spec fn places(self) -> nat {
        self.cap as nat
    }

    /// `cap` places, all free.
    pub fn new(cap: usize) -> (r: Slots)
        ensures
            r.taken() == 0,
            r.places() == cap,
    {
        Slots { active: 0, cap }
    }

    /// How many places are taken, never more than there are.
    pub fn active(&self) -> (r: usize)
        ensures
            r == self.taken(),
            r <= self.places(),
    {
        proof {
            use_type_invariant(self);
        }
        self.active
    }

    /// Takes a place where one is free.
    pub fn try_acquire(&mut self) -> (r: bool)
        ensures
            r == (old(self).taken() < old(self).places()),
            final(self).taken() == old(self).taken() + (if r {
                1nat
            } else {
                0
            }),
            final(self).places() == old(self).places(),
    {
        if self.active < self.cap {
            self.active = self.active + 1;
            true
        } else {
            false
        }
    }

    /// Gives a place back.
    pub fn release(&mut self)
        requires
            old(self).taken() > 0,
        ensures
            final(self).taken() == old(self).taken() - 1,
            final(self).places() == old(self).places(),
    {
        proof {
            use_type_invariant(&*self);
        }
        self.active = self.active - 1;
    }
}

/// Whether a connection is let in.
pub open spec fn let_in(
    m: Map<Ip, WindowSpec>,
    peer: Option<Ip>,
    trusted: TrustedProxy,
    now: nat,
    free: bool,
) -> bool {
    free && (peer is None || !peer_is_limited(peer->0, trusted) || is_allowed(m, peer->0, now))
}

/// The record after a connection was decided on.
pub open spec fn counted_at_the_door(
    m: Map<Ip, WindowSpec>,
    peer: Option<Ip>,
    trusted: TrustedProxy,
    now: nat,
) -> Map<Ip, WindowSpec> {
    if peer is Some && peer_is_limited(peer->0, trusted) {
        recorded(m, peer->0, now)
    } else {
        m
    }
}

/// Decides on a new connection: one from a source over its budget is shed before it takes a
/// place, and one without a free place is shed too.
pub fn admit_connection(
    peer: Option<Ip>,
    trusted: TrustedProxy,
    limiter: &mut RateLimiter,
    now: u64,
    slots: &mut Slots,
) -> (r: bool)
    requires
        peer matches Some(ip) ==> peer_is_limited(ip, trusted) ==> counted(
            old(limiter)@,
            ip,
            now as nat,
        ) < u32::MAX,
    ensures
        ({
            let limited = peer is Some && peer_is_limited(peer->0, trusted);
            let within = !limited || is_allowed(old(limiter)@, peer->0, now as nat);
            let free = old(slots).taken() < old(slots).places();
            &&& r == (within && free)
            &&& final(limiter)@ == if limited {
                recorded(old(limiter)@, peer->0, now as nat)
            } else {
                old(limiter)@
            }
            &&& final(slots).taken() == old(slots).taken() + (if r {
                1nat
            } else {
                0
            })
            &&& final(slots).places() == old(slots).places()
        }),
        r == let_in(
            old(limiter)@,
            peer,
            trusted,
            now as nat,
            old(slots).taken() < old(slots).places(),
        ),
        final(limiter)@ == counted_at_the_door(old(limiter)@, peer, trusted, now as nat),
{
    match peer {
        Some(ip) => if accept_peer_limited(ip, trusted) && !limiter.allow_source(ip, now) {
            return false;
        },
        None => {},
    }
    slots.try_acquire()
}

/// A connection is let in exactly where a place is free and its peer, if it is known and limited by
/// its address, is within its budget. Only such a peer is counted, and it is whether or not a place
/// is free; a place is taken only for a connection that is let in.
pub proof fn law_who_is_let_in(
    m: Map<Ip, WindowSpec>,
    peer: Ip,
    trusted: TrustedProxy,
    now: nat,
    free: bool,
)
    ensures
        let_in(m, None, trusted, now, free) == free,
        trusted == TrustedProxy::Any || trusted == TrustedProxy::Ip(peer) ==> let_in(
            m,
            Some(peer),
            trusted,
            now,
            free,
        ) == free && counted_at_the_door(m, Some(peer), trusted, now) == m,
        trusted != TrustedProxy::Any && trusted != TrustedProxy::Ip(peer) ==> let_in(
            m,
            Some(peer),
            trusted,
            now,
            free,
        ) == (free && is_allowed(m, peer, now)) && counted_at_the_door(m, Some(peer), trusted, now)
            == recorded(m, peer, now),
        counted_at_the_door(m, None, trusted, now) == m,
{
}

/// At most 256 connections are served at one time, and at most 128 fetches run for the mesh.
pub proof fn law_caps_of_places()
    ensures
        MAX_CONNS == 256,
        MAX_INFLIGHT_FETCHES == 128,
{
}

} // verus!
