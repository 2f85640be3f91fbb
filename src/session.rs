//! The session cache: maps a UDP flow to the carrier stream pair that serves
//! it.
//!
//! Sessions are identified by an integer chosen by the caller, who keeps the
//! actual stream handles. The cache decides, for every packet, whether an
//! existing session is reused, whether the caller must wait for an
//! initialization already in flight, or whether it must open a new stream
//! pair itself. An initialization in flight is an explicit `Pending` entry, so
//! concurrent first packets of one flow open exactly one stream pair. Entries
//! are reclaimed after an idle window and, when the cache is full, the least
//! recently used session makes room. The sessions that leave the cache are
//! queued for the caller to close.
use vstd::prelude::*;
use crate::addr::TunnelCacheKey;

verus! {

/// The state of one cached flow.
#[derive(Clone, Copy, Debug, PartialEq, Eq, Structural)]
pub enum SlotState {
    /// A carrier stream pair is being opened for this flow.
    Pending,
    /// The flow is served by `session`; `reader_taken` records whether its
    /// reverse-direction reader has been handed out.
    Ready { session: u64, reader_taken: bool },
}

/// A cached flow: its state and the time of its last access.
#[derive(Clone, Copy, Debug, PartialEq, Eq, Structural)]
pub struct Entry {
    pub state: SlotState,
    pub last_access: u64,
}

/// What a caller is told to do with a packet of a flow.
#[derive(Clone, Copy, Debug, PartialEq, Eq, Structural)]
pub enum Lookup {
    /// Use this existing session.
    Hit { session: u64 },
    /// Another caller is opening the stream pair: wait for it, then look up again.
    Wait,
    /// Open a stream pair, then report it with `complete` (or `fail`).
    Start,
    /// The cache is full of flows that are still being opened: drop the packet.
    Busy,
}

#[derive(Clone, Copy, Debug)]
struct Slot {
    key: TunnelCacheKey,
    entry: Entry,
}

/// The abstract state of a cache.
pub struct CacheView {
    pub entries: Map<TunnelCacheKey, Entry>,
    pub closing: Seq<u64>,
    pub capacity: int,
    pub idle_ms: int,
}

/// A session cache with a capacity and an idle window (in milliseconds).
pub struct SessionCache {
    slots: Vec<Slot>,
    closing: Vec<u64>,
    capacity: usize,
    idle_ms: u64,
}

/// An entry is expired when it is ready and was last touched more than
/// `idle` before `now`. Entries still being opened never expire.
pub open spec fn expired(e: Entry, now: int, idle: int) -> bool {
    &&& e.state is Ready
    &&& now > e.last_access + idle
}

/// The flow `k` has an entry that counts at time `now`.
pub open spec fn live(m: Map<TunnelCacheKey, Entry>, k: TunnelCacheKey, now: int, idle: int) -> bool {
    m.contains_key(k) && !expired(m[k], now, idle)
}

pub open spec fn pending_at(now: int) -> Entry {
    Entry { state: SlotState::Pending, last_access: now as u64 }
}

pub open spec fn session_of(e: Entry) -> u64 {
    match e.state {
        SlotState::Ready { session, .. } => session,
        SlotState::Pending => 0,
    }
}

pub open spec fn is_ready(m: Map<TunnelCacheKey, Entry>, k: TunnelCacheKey) -> bool {
    m.contains_key(k) && m[k].state is Ready
}

/// `v` is a ready entry that was used no later than any other ready entry.
pub open spec fn is_lru_victim(m: Map<TunnelCacheKey, Entry>, v: TunnelCacheKey) -> bool {
    &&& is_ready(m, v)
    &&& forall|w: TunnelCacheKey| #[trigger] is_ready(m, w) ==> m[v].last_access <= m[w].last_access
}

/// The flow `k` with its stale entry (if any) dropped and queued for closing.
pub open spec fn without_stale(pre: CacheView, k: TunnelCacheKey) -> CacheView {
    if pre.entries.contains_key(k) {
        CacheView {
            entries: pre.entries.remove(k),
            closing: pre.closing.push(session_of(pre.entries[k])),
            ..pre
        }
    } else {
        pre
    }
}

/// One lookup of flow `k` at time `now` takes the cache from `pre` to `post`
/// and answers `r`.
pub open spec fn lookup_step(pre: CacheView, k: TunnelCacheKey, now: int, post: CacheView, r: Lookup) -> bool {
    &&& post.capacity == pre.capacity
    &&& post.idle_ms == pre.idle_ms
    &&& if live(pre.entries, k, now, pre.idle_ms) {
        match pre.entries[k].state {
            SlotState::Ready { session, .. } => {
                &&& r == Lookup::Hit { session }
                &&& post.entries == pre.entries.insert(k, Entry { last_access: now as u64, ..pre.entries[k] })
                &&& post.closing == pre.closing
            },
            SlotState::Pending => {
                &&& r == Lookup::Wait
                &&& post.entries == pre.entries
                &&& post.closing == pre.closing
            },
        }
    } else {
        let mid = without_stale(pre, k);
        if mid.entries.dom().len() < pre.capacity {
            &&& r == Lookup::Start
            &&& post.entries == mid.entries.insert(k, pending_at(now))
            &&& post.closing == mid.closing
        } else if exists|v: TunnelCacheKey| is_ready(mid.entries, v) {
            &&& r == Lookup::Start
            &&& exists|v: TunnelCacheKey|
                {
                    &&& is_lru_victim(mid.entries, v)
                    &&& post.entries == mid.entries.remove(v).insert(k, pending_at(now))
                    &&& post.closing == mid.closing.push(session_of(mid.entries[v]))
                }
        } else {
            &&& r == Lookup::Busy
            &&& post.entries == mid.entries
            &&& post.closing == mid.closing
        }
    }
}

/// Reporting that the stream pair of flow `k` is open as `session`.
pub open spec fn complete_step(pre: CacheView, k: TunnelCacheKey, session: u64, now: int, post: CacheView, r: bool) -> bool {
    &&& post.capacity == pre.capacity
    &&& post.idle_ms == pre.idle_ms
    &&& post.closing == pre.closing
    &&& r == (pre.entries.contains_key(k) && pre.entries[k].state is Pending)
    &&& post.entries == if r {
        pre.entries.insert(
            k,
            Entry { state: SlotState::Ready { session, reader_taken: false }, last_access: now as u64 },
        )
    } else {
        pre.entries
    }
}

/// Reporting that opening the stream pair of flow `k` failed: the pending
/// entry is not retained.
pub open spec fn fail_step(pre: CacheView, k: TunnelCacheKey, post: CacheView, r: bool) -> bool {
    &&& post.capacity == pre.capacity
    &&& post.idle_ms == pre.idle_ms
    &&& post.closing == pre.closing
    &&& r == (pre.entries.contains_key(k) && pre.entries[k].state is Pending)
    &&& post.entries == if r {
        pre.entries.remove(k)
    } else {
        pre.entries
    }
}

/// Recording activity on flow `k` at time `now`: a live ready entry has its
/// idle window restarted.
pub open spec fn touch_step(pre: CacheView, k: TunnelCacheKey, now: int, post: CacheView, r: bool) -> bool {
    &&& post.capacity == pre.capacity
    &&& post.idle_ms == pre.idle_ms
    &&& post.closing == pre.closing
    &&& r == (live(pre.entries, k, now, pre.idle_ms) && pre.entries[k].state is Ready)
    &&& post.entries == if r {
        pre.entries.insert(k, Entry { last_access: now as u64, ..pre.entries[k] })
    } else {
        pre.entries
    }
}

/// Claiming the reverse-direction reader of flow `k`: succeeds once per session.
pub open spec fn take_reader_step(pre: CacheView, k: TunnelCacheKey, post: CacheView, r: bool) -> bool {
    &&& post.capacity == pre.capacity
    &&& post.idle_ms == pre.idle_ms
    &&& post.closing == pre.closing
    &&& r == (pre.entries.contains_key(k) && pre.entries[k].state == SlotState::Ready {
        session: session_of(pre.entries[k]),
        reader_taken: false,
    })
    &&& post.entries == if r {
        pre.entries.insert(
            k,
            Entry {
                state: SlotState::Ready { session: session_of(pre.entries[k]), reader_taken: true },
                ..pre.entries[k]
            },
        )
    } else {
        pre.entries
    }
}

/// Dropping every expired entry at time `now`; their sessions are queued for
/// closing.
pub open spec fn evict_step(pre: CacheView, now: int, post: CacheView) -> bool {
    &&& post.capacity == pre.capacity
    &&& post.idle_ms == pre.idle_ms
    &&& forall|k: TunnelCacheKey|
        #[trigger] post.entries.contains_key(k) <==> live(pre.entries, k, now, pre.idle_ms)
    &&& forall|k: TunnelCacheKey| #[trigger] post.entries.contains_key(k) ==> post.entries[k] == pre.entries[k]
    &&& post.closing.len() >= pre.closing.len()
    &&& post.closing.subrange(0, pre.closing.len() as int) == pre.closing
    &&& forall|s: u64|
        #[trigger] post.closing.subrange(pre.closing.len() as int, post.closing.len() as int).contains(s)
            <==> exists|k: TunnelCacheKey|
            {
                &&& #[trigger] pre.entries.contains_key(k)
                &&& expired(pre.entries[k], now, pre.idle_ms)
                &&& session_of(pre.entries[k]) == s
            }
}

/// Concurrent first packets of one flow open a single stream pair: in a run
/// of lookups of flow `k` whose first answer is `Start`, every later lookup
/// answers `Wait`, so exactly one caller opens the pair.
pub proof fn lemma_single_initialization(
    states: Seq<CacheView>,
    k: TunnelCacheKey,
    times: Seq<int>,
    results: Seq<Lookup>,
)
    requires
        states.len() == results.len() + 1,
        times.len() == results.len(),
        forall|i: int| 0 <= i < results.len() ==> lookup_step(states[i], k, times[i], states[i + 1], #[trigger] results[i]),
        results.len() > 0,
        results[0] == Lookup::Start,
    ensures
        forall|i: int| 1 <= i < results.len() ==> #[trigger] results[i] == Lookup::Wait,
        forall|i: int|
            1 <= i < states.len() ==> (#[trigger] states[i]).entries.contains_key(k) && states[i].entries[k].state is Pending,
{
    assert forall|i: int| 1 <= i < states.len() implies (#[trigger] states[i]).entries.contains_key(k)
        && states[i].entries[k].state is Pending by {
        lemma_pending_run(states, k, times, results, i);
    }
    assert forall|i: int| 1 <= i < results.len() implies #[trigger] results[i] == Lookup::Wait by {
        lemma_pending_run(states, k, times, results, i);
        assert(lookup_step(states[i], k, times[i], states[i + 1], results[i]));
    }
}

proof fn lemma_pending_run(states: Seq<CacheView>, k: TunnelCacheKey, times: Seq<int>, results: Seq<Lookup>, i: int)
    requires
        states.len() == results.len() + 1,
        times.len() == results.len(),
        forall|j: int| 0 <= j < results.len() ==> lookup_step(states[j], k, times[j], states[j + 1], #[trigger] results[j]),
        results.len() > 0,
        results[0] == Lookup::Start,
        1 <= i < states.len(),
    ensures
        states[i].entries.contains_key(k),
        states[i].entries[k].state is Pending,
    decreases i,
{
    assert(lookup_step(states[i - 1], k, times[i - 1], states[i], results[i - 1]));
    if i == 1 {
        let pre = states[0];
        if live(pre.entries, k, times[0], pre.idle_ms) {
            assert(pre.entries[k].state is Pending ==> results[0] == Lookup::Wait);
        } else {
            let mid = without_stale(pre, k);
            if mid.entries.dom().len() < pre.capacity {
            } else if exists|v: TunnelCacheKey| is_ready(mid.entries, v) {
                let v = choose|v: TunnelCacheKey|
                    {
                        &&& is_lru_victim(mid.entries, v)
                        &&& states[1].entries == mid.entries.remove(v).insert(k, pending_at(times[0]))
                        &&& states[1].closing == mid.closing.push(session_of(mid.entries[v]))
                    };
                assert(states[1].entries[k] == pending_at(times[0]));
            }
        }
    } else {
        lemma_pending_run(states, k, times, results, i - 1);
    }
}

/// All callers of a flow share one session: once the stream pair of flow
/// `k` is reported open as `session` at time `done`, every lookup of `k`
/// within the idle window after `done` answers that same session.
pub proof fn lemma_shared_session(
    pre: CacheView,
    k: TunnelCacheKey,
    session: u64,
    done: int,
    states: Seq<CacheView>,
    times: Seq<int>,
    results: Seq<Lookup>,
)
    requires
        0 <= done,
        states.len() == results.len() + 1,
        times.len() == results.len(),
        complete_step(pre, k, session, done, states[0], true),
        done <= u64::MAX,
        forall|i: int| 0 <= i < results.len() ==> lookup_step(states[i], k, times[i], states[i + 1], #[trigger] results[i]),
        forall|i: int| 0 <= i < times.len() ==> done <= #[trigger] times[i] <= done + pre.idle_ms && times[i] <= u64::MAX,
    ensures
        forall|i: int| 0 <= i < results.len() ==> #[trigger] results[i] == (Lookup::Hit { session }),
{
    assert forall|i: int| 0 <= i < results.len() implies #[trigger] results[i] == (Lookup::Hit { session }) by {
        lemma_ready_run(pre, k, session, done, states, times, results, i);
        assert(lookup_step(states[i], k, times[i], states[i + 1], results[i]));
    }
}

proof fn lemma_ready_run(
    pre: CacheView,
    k: TunnelCacheKey,
    session: u64,
    done: int,
    states: Seq<CacheView>,
    times: Seq<int>,
    results: Seq<Lookup>,
    i: int,
)
    requires
        0 <= done,
        states.len() == results.len() + 1,
        times.len() == results.len(),
        complete_step(pre, k, session, done, states[0], true),
        done <= u64::MAX,
        forall|j: int| 0 <= j < results.len() ==> lookup_step(states[j], k, times[j], states[j + 1], #[trigger] results[j]),
        forall|j: int| 0 <= j < times.len() ==> done <= #[trigger] times[j] <= done + pre.idle_ms && times[j] <= u64::MAX,
        0 <= i < states.len(),
    ensures
        states[i].entries.contains_key(k),
        session_of(states[i].entries[k]) == session,
        states[i].entries[k].state is Ready,
        states[i].entries[k].last_access >= done,
        states[i].idle_ms == pre.idle_ms,
    decreases i,
{
    if i > 0 {
        lemma_ready_run(pre, k, session, done, states, times, results, i - 1);
        assert(lookup_step(states[i - 1], k, times[i - 1], states[i], results[i - 1]));
        assert(done <= times[i - 1] <= done + pre.idle_ms);
    }
}

/// A flow idle for longer than the window is gone: after an eviction pass
/// at `now` its entry is absent, and its next lookup does not answer the old
/// session; when told to start, the caller opens a new stream pair.
pub proof fn lemma_idle_eviction(
    pre: CacheView,
    k: TunnelCacheKey,
    now: int,
    mid: CacheView,
    later: int,
    post: CacheView,
    r: Lookup,
)
    requires
        pre.entries.contains_key(k),
        expired(pre.entries[k], now, pre.idle_ms),
        evict_step(pre, now, mid),
        lookup_step(mid, k, later, post, r),
    ensures
        !mid.entries.contains_key(k),
        exists|i: int|
            pre.closing.len() <= i < mid.closing.len() && #[trigger] mid.closing[i] == session_of(pre.entries[k]),
        r == Lookup::Start || r == Lookup::Busy,
        r == Lookup::Start ==> post.entries.contains_key(k) && post.entries[k].state is Pending,
{
    let part = mid.closing.subrange(pre.closing.len() as int, mid.closing.len() as int);
    assert(part.contains(session_of(pre.entries[k])));
    let n = choose|n: int| 0 <= n < part.len() && part[n] == session_of(pre.entries[k]);
    assert(mid.closing[pre.closing.len() + n] == part[n]);
    let m1 = without_stale(mid, k);
    if m1.entries.dom().len() < mid.capacity {
    } else if exists|v: TunnelCacheKey| is_ready(m1.entries, v) {
        let v = choose|v: TunnelCacheKey|
            {
                &&& is_lru_victim(m1.entries, v)
                &&& post.entries == m1.entries.remove(v).insert(k, pending_at(later))
                &&& post.closing == m1.closing.push(session_of(m1.entries[v]))
            };
        assert(post.entries[k] == pending_at(later));
    }
}

/// Flows do not interfere: a lookup of `k1` answers from `k1`'s own entry
/// alone, and leaves the entry of any other flow `k2` as it was, except that
/// a full cache drops its least recently used ready flow to make room.
pub proof fn lemma_flows_independent(
    pre: CacheView,
    k1: TunnelCacheKey,
    k2: TunnelCacheKey,
    now: int,
    post: CacheView,
    r: Lookup,
)
    requires
        k1 != k2,
        pre.entries.contains_key(k2),
        lookup_step(pre, k1, now, post, r),
    ensures
        r == Lookup::Wait <==> (pre.entries.contains_key(k1) && pre.entries[k1].state is Pending),
        r is Hit ==> pre.entries.contains_key(k1) && r == (Lookup::Hit { session: session_of(pre.entries[k1]) }),
        post.entries.contains_key(k2) ==> post.entries[k2] == pre.entries[k2],
        !post.entries.contains_key(k2) ==> {
            &&& is_lru_victim(without_stale(pre, k1).entries, k2)
            &&& without_stale(pre, k1).entries.dom().len() >= pre.capacity
        },
{
    let mid = without_stale(pre, k1);
    if !live(pre.entries, k1, now, pre.idle_ms) {
        assert(mid.entries.contains_key(k2));
        if mid.entries.dom().len() < pre.capacity {
        } else if exists|v: TunnelCacheKey| is_ready(mid.entries, v) {
            let v = choose|v: TunnelCacheKey|
                {
                    &&& is_lru_victim(mid.entries, v)
                    &&& post.entries == mid.entries.remove(v).insert(k1, pending_at(now))
                    &&& post.closing == mid.closing.push(session_of(mid.entries[v]))
                };
            if v != k2 {
                assert(post.entries.contains_key(k2));
            }
        }
    }
}

/// Reports about one flow change no other flow: completing, failing or
/// touching `k1` leaves the entry of every `k2 != k1` as it was.
pub proof fn lemma_reports_independent(
    pre: CacheView,
    k1: TunnelCacheKey,
    k2: TunnelCacheKey,
    session: u64,
    now: int,
    after_complete: CacheView,
    after_fail: CacheView,
    after_touch: CacheView,
    r1: bool,
    r2: bool,
    r3: bool,
)
    requires
        k1 != k2,
        complete_step(pre, k1, session, now, after_complete, r1),
        fail_step(pre, k1, after_fail, r2),
        touch_step(pre, k1, now, after_touch, r3),
    ensures
        after_complete.entries.contains_key(k2) == pre.entries.contains_key(k2),
        after_fail.entries.contains_key(k2) == pre.entries.contains_key(k2),
        after_touch.entries.contains_key(k2) == pre.entries.contains_key(k2),
        pre.entries.contains_key(k2) ==> {
            &&& after_complete.entries[k2] == pre.entries[k2]
            &&& after_fail.entries[k2] == pre.entries[k2]
            &&& after_touch.entries[k2] == pre.entries[k2]
        },
{
}

/// A session's reverse-direction reader is handed out at most once: after
/// it has been claimed, later lookups that reuse the session and later
/// activity leave it claimed, and claiming it again fails.
pub proof fn lemma_reader_claimed_once(
    s0: CacheView,
    k: TunnelCacheKey,
    s1: CacheView,
    t: int,
    s2: CacheView,
    r: Lookup,
    u: int,
    s3: CacheView,
    touched: bool,
    s4: CacheView,
    again: bool,
)
    requires
        take_reader_step(s0, k, s1, true),
        lookup_step(s1, k, t, s2, r),
        r is Hit,
        touch_step(s2, k, u, s3, touched),
        take_reader_step(s3, k, s4, again),
    ensures
        !again,
{
    assert(s1.entries[k].state == SlotState::Ready { session: session_of(s0.entries[k]), reader_taken: true });
    assert(s2.entries[k].state == s1.entries[k].state);
}

spec fn has_key(s: Seq<Slot>, k: TunnelCacheKey) -> bool {
    exists|i: int| 0 <= i < s.len() && s[i].key == k
}

spec fn index_of_key(s: Seq<Slot>, k: TunnelCacheKey) -> int {
    choose|i: int| 0 <= i < s.len() && s[i].key == k
}

spec fn entries_of(s: Seq<Slot>) -> Map<TunnelCacheKey, Entry> {
    Map::new(|k: TunnelCacheKey| has_key(s, k), |k: TunnelCacheKey| s[index_of_key(s, k)].entry)
}

spec fn keys_unique(s: Seq<Slot>) -> bool {
    forall|i: int, j: int|
        0 <= i < s.len() && 0 <= j < s.len() && #[trigger] s[i].key == #[trigger] s[j].key ==> i == j
}

spec fn keys_of(s: Seq<Slot>) -> Seq<TunnelCacheKey> {
    s.map_values(|x: Slot| x.key)
}

proof fn lemma_entry_at(s: Seq<Slot>, i: int)
    requires
        keys_unique(s),
        0 <= i < s.len(),
    ensures
        entries_of(s).contains_key(s[i].key),
        entries_of(s)[s[i].key] == s[i].entry,
{
    assert(has_key(s, s[i].key));
    let j = index_of_key(s, s[i].key);
    assert(s[j].key == s[i].key);
}

proof fn lemma_update(s: Seq<Slot>, i: int, e: Entry)
    requires
        keys_unique(s),
        0 <= i < s.len(),
    ensures
        keys_unique(s.update(i, Slot { key: s[i].key, entry: e })),
        entries_of(s.update(i, Slot { key: s[i].key, entry: e })) == entries_of(s).insert(s[i].key, e),
{
    let t = s.update(i, Slot { key: s[i].key, entry: e });
    assert forall|a: int, b: int|
        0 <= a < t.len() && 0 <= b < t.len() && #[trigger] t[a].key == #[trigger] t[b].key implies a == b by {
        assert(t[a].key == s[a].key);
        assert(t[b].key == s[b].key);
    }
    assert forall|k: TunnelCacheKey| #[trigger] has_key(t, k) == entries_of(s).insert(s[i].key, e).contains_key(k) by {
        if has_key(t, k) {
            let j = choose|j: int| 0 <= j < t.len() && t[j].key == k;
            assert(s[j].key == k);
        }
        if has_key(s, k) {
            let j = choose|j: int| 0 <= j < s.len() && s[j].key == k;
            assert(t[j].key == k);
        }
        if k == s[i].key {
            assert(t[i].key == k);
        }
    }
    assert forall|k: TunnelCacheKey| has_key(t, k) implies #[trigger] entries_of(t)[k] == entries_of(s).insert(s[i].key, e)[k] by {
        let j = index_of_key(t, k);
        assert(t[j].key == k);
        lemma_entry_at(t, j);
        if j != i {
            lemma_entry_at(s, j);
        }
    }
    assert(entries_of(t) =~= entries_of(s).insert(s[i].key, e));
}

proof fn lemma_remove(s: Seq<Slot>, i: int)
    requires
        keys_unique(s),
        0 <= i < s.len(),
    ensures
        keys_unique(s.remove(i)),
        entries_of(s.remove(i)) == entries_of(s).remove(s[i].key),
{
    let t = s.remove(i);
    assert forall|a: int, b: int|
        0 <= a < t.len() && 0 <= b < t.len() && #[trigger] t[a].key == #[trigger] t[b].key implies a == b by {
        let a0 = if a < i { a } else { a + 1 };
        let b0 = if b < i { b } else { b + 1 };
        assert(t[a] == s[a0]);
        assert(t[b] == s[b0]);
    }
    assert forall|k: TunnelCacheKey| #[trigger] has_key(t, k) == entries_of(s).remove(s[i].key).contains_key(k) by {
        if has_key(t, k) {
            let j = choose|j: int| 0 <= j < t.len() && t[j].key == k;
            let j0 = if j < i { j } else { j + 1 };
            assert(t[j] == s[j0]);
            assert(s[j0].key == k);
            assert(j0 != i);
        }
        if has_key(s, k) && k != s[i].key {
            let j = choose|j: int| 0 <= j < s.len() && s[j].key == k;
            assert(j != i);
            let j1 = if j < i { j } else { j - 1 };
            assert(t[j1] == s[j]);
        }
    }
    assert forall|k: TunnelCacheKey| has_key(t, k) implies #[trigger] entries_of(t)[k] == entries_of(s).remove(s[i].key)[k] by {
        let j = index_of_key(t, k);
        assert(t[j].key == k);
        lemma_entry_at(t, j);
        let j0 = if j < i { j } else { j + 1 };
        assert(t[j] == s[j0]);
        lemma_entry_at(s, j0);
    }
    assert(entries_of(t) =~= entries_of(s).remove(s[i].key));
}

proof fn lemma_push(s: Seq<Slot>, x: Slot)
    requires
        keys_unique(s),
        !has_key(s, x.key),
    ensures
        keys_unique(s.push(x)),
        entries_of(s.push(x)) == entries_of(s).insert(x.key, x.entry),
{
    let t = s.push(x);
    assert forall|a: int, b: int|
        0 <= a < t.len() && 0 <= b < t.len() && #[trigger] t[a].key == #[trigger] t[b].key implies a == b by {
        if a < s.len() && b == s.len() {
            assert(s[a].key == x.key);
        }
        if b < s.len() && a == s.len() {
            assert(s[b].key == x.key);
        }
        if a < s.len() && b < s.len() {
            assert(t[a] == s[a] && t[b] == s[b]);
        }
    }
    assert forall|k: TunnelCacheKey| #[trigger] has_key(t, k) == entries_of(s).insert(x.key, x.entry).contains_key(k) by {
        if has_key(t, k) && k != x.key {
            let j = choose|j: int| 0 <= j < t.len() && t[j].key == k;
            assert(t[j] == s[j]);
        }
        if has_key(s, k) {
            let j = choose|j: int| 0 <= j < s.len() && s[j].key == k;
            assert(t[j] == s[j]);
        }
        if k == x.key {
            assert(t[s.len() as int] == x);
        }
    }
    assert forall|k: TunnelCacheKey| has_key(t, k) implies #[trigger] entries_of(t)[k] == entries_of(s).insert(x.key, x.entry)[k] by {
        let j = index_of_key(t, k);
        assert(t[j].key == k);
        lemma_entry_at(t, j);
        if j < s.len() {
            assert(t[j] == s[j]);
            lemma_entry_at(s, j);
        }
    }
    assert(entries_of(t) =~= entries_of(s).insert(x.key, x.entry));
}

proof fn lemma_size(s: Seq<Slot>)
    requires
        keys_unique(s),
    ensures
        entries_of(s).dom().finite(),
        entries_of(s).dom().len() == s.len(),
{
    let ks = keys_of(s);
    assert(ks.no_duplicates()) by {
        assert forall|a: int, b: int| 0 <= a < ks.len() && 0 <= b < ks.len() && a != b implies ks[a] != ks[b] by {
            assert(ks[a] == s[a].key);
            assert(ks[b] == s[b].key);
        }
    }
    ks.unique_seq_to_set();
    assert forall|k: TunnelCacheKey| #[trigger] entries_of(s).dom().contains(k) == ks.to_set().contains(k) by {
        if has_key(s, k) {
            let j = choose|j: int| 0 <= j < s.len() && s[j].key == k;
            assert(ks[j] == k);
        }
        if ks.contains(k) {
            let j = choose|j: int| 0 <= j < ks.len() && ks[j] == k;
            assert(s[j].key == k);
        }
    }
    assert(entries_of(s).dom() =~= ks.to_set());
}

impl SessionCache {
    pub closed spec fn view(&self) -> CacheView {
        CacheView {
            entries: entries_of(self.slots@),
            closing: self.closing@,
            capacity: self.capacity as int,
            idle_ms: self.idle_ms as int,
        }
    }

    pub closed spec fn wf(&self) -> bool {
        &&& keys_unique(self.slots@)
        &&& self.slots@.len() <= self.capacity
    }

    /// An empty cache holding at most `capacity` flows, each reclaimed after
    /// `idle_ms` milliseconds without activity.
    pub fn new(capacity: usize, idle_ms: u64) -> (r: SessionCache)
        ensures
            r.wf(),
            r@.entries == Map::<TunnelCacheKey, Entry>::empty(),
            r@.closing == Seq::<u64>::empty(),
            r@.capacity == capacity,
            r@.idle_ms == idle_ms,
    {
        let r = SessionCache { slots: Vec::new(), closing: Vec::new(), capacity, idle_ms };
        assert(entries_of(r.slots@) =~= Map::<TunnelCacheKey, Entry>::empty());
        r
    }

    fn find(&self, key: &TunnelCacheKey) -> (r: Option<usize>)
        requires
            self.wf(),
        ensures
            match r {
                Some(i) => i < self.slots@.len() && self.slots@[i as int].key == *key,
                None => !self@.entries.contains_key(*key),
            },
    {
        let mut i: usize = 0;
        while i < self.slots.len()
            invariant
                i <= self.slots@.len(),
                forall|j: int| 0 <= j < i ==> self.slots@[j].key != *key,
            decreases self.slots@.len() - i,
        {
            if self.slots[i].key == *key {
                return Some(i);
            }
            i = i + 1;
        }
        None
    }

    /// The index of a ready slot used no later than any other ready slot.
    fn least_recent_ready(&self) -> (r: Option<usize>)
        requires
            self.wf(),
        ensures
            match r {
                Some(i) => i < self.slots@.len() && is_lru_victim(self@.entries, self.slots@[i as int].key),
                None => forall|k: TunnelCacheKey| !is_ready(self@.entries, k),
            },
    {
        let mut best: Option<usize> = None;
        let mut i: usize = 0;
        while i < self.slots.len()
            invariant
                i <= self.slots@.len(),
                match best {
                    Some(b) => {
                        &&& b < i
                        &&& self.slots@[b as int].entry.state is Ready
                        &&& forall|j: int|
                            0 <= j < i && #[trigger] self.slots@[j].entry.state is Ready
                                ==> self.slots@[b as int].entry.last_access <= self.slots@[j].entry.last_access
                    },
                    None => forall|j: int| 0 <= j < i ==> !(#[trigger] self.slots@[j].entry.state is Ready),
                },
            decreases self.slots@.len() - i,
        {
            let s = self.slots[i];
            if let SlotState::Ready { .. } = s.entry.state {
                match best {
                    Some(b) => {
                        if s.entry.last_access < self.slots[b].entry.last_access {
                            best = Some(i);
                        }
                    },
                    None => {
                        best = Some(i);
                    },
                }
            }
            i = i + 1;
        }
        proof {
            let m = self@.entries;
            match best {
                Some(b) => {
                    lemma_entry_at(self.slots@, b as int);
                    assert forall|w: TunnelCacheKey| #[trigger] is_ready(m, w) implies m[self.slots@[b as int].key].last_access <= m[w].last_access by {
                        let j = index_of_key(self.slots@, w);
                        assert(self.slots@[j].key == w);
                        lemma_entry_at(self.slots@, j);
                    }
                },
                None => {
                    assert forall|k: TunnelCacheKey| !is_ready(m, k) by {
                        if m.contains_key(k) {
                            let j = index_of_key(self.slots@, k);
                            assert(self.slots@[j].key == k);
                            lemma_entry_at(self.slots@, j);
                        }
                    }
                },
            }
        }
        best
    }

    /// Looks up flow `key` for a packet that arrived at time `now`.
    pub fn lookup(&mut self, key: TunnelCacheKey, now: u64) -> (r: Lookup)
        requires
            old(self).wf(),
        ensures
            final(self).wf(),
            lookup_step(old(self)@, key, now as int, final(self)@, r),
    {
        let ghost pre = self@;
        let found = self.find(&key);
        if let Some(i) = found {
            let e = self.slots[i].entry;
            proof {
                lemma_entry_at(self.slots@, i as int);
            }
            let stale = match e.state {
                SlotState::Ready { .. } => now > e.last_access && now - e.last_access > self.idle_ms,
                SlotState::Pending => false,
            };
            if !stale {
                match e.state {
                    SlotState::Ready { session, .. } => {
                        let ne = Entry { state: e.state, last_access: now };
                        proof {
                            lemma_update(self.slots@, i as int, ne);
                        }
                        self.slots.set(i, Slot { key, entry: ne });
                        return Lookup::Hit { session };
                    },
                    SlotState::Pending => {
                        return Lookup::Wait;
                    },
                }
            }
            if let SlotState::Ready { session, .. } = e.state {
                self.closing.push(session);
            }
            proof {
                lemma_remove(self.slots@, i as int);
            }
            self.slots.remove(i);
        }
        let ghost mid = self@;
        assert(mid == without_stale(pre, key));
        proof {
            lemma_size(self.slots@);
            assert(!has_key(self.slots@, key));
        }
        let ne = Entry { state: SlotState::Pending, last_access: now };
        if self.slots.len() < self.capacity {
            proof {
                lemma_push(self.slots@, Slot { key, entry: ne });
            }
            self.slots.push(Slot { key, entry: ne });
            return Lookup::Start;
        }
        match self.least_recent_ready() {
            Some(v) => {
                let victim = self.slots[v];
                proof {
                    lemma_entry_at(self.slots@, v as int);
                    lemma_remove(self.slots@, v as int);
                }
                if let SlotState::Ready { session, .. } = victim.entry.state {
                    self.closing.push(session);
                }
                self.slots.remove(v);
                proof {
                    assert(!has_key(self.slots@, key)) by {
                        if has_key(self.slots@, key) {
                            let j = index_of_key(self.slots@, key);
                            lemma_entry_at(self.slots@, j);
                        }
                    }
                    lemma_push(self.slots@, Slot { key, entry: ne });
                }
                self.slots.push(Slot { key, entry: ne });
                assert(is_lru_victim(mid.entries, victim.key));
                Lookup::Start
            },
            None => Lookup::Busy,
        }
    }

    /// Reports that the stream pair of flow `key` was opened as `session`.
    /// Returns false, changing nothing, if no open was pending for `key`.
    pub fn complete(&mut self, key: TunnelCacheKey, session: u64, now: u64) -> (r: bool)
        requires
            old(self).wf(),
        ensures
            final(self).wf(),
            complete_step(old(self)@, key, session, now as int, final(self)@, r),
    {
        match self.find(&key) {
            Some(i) => {
                proof {
                    lemma_entry_at(self.slots@, i as int);
                }
                if let SlotState::Pending = self.slots[i].entry.state {
                    let ne = Entry { state: SlotState::Ready { session, reader_taken: false }, last_access: now };
                    proof {
                        lemma_update(self.slots@, i as int, ne);
                    }
                    self.slots.set(i, Slot { key, entry: ne });
                    true
                } else {
                    false
                }
            },
            None => false,
        }
    }

    /// Reports that opening the stream pair of flow `key` failed; the next
    /// packet of the flow starts a fresh attempt. Returns false, changing
    /// nothing, if no open was pending for `key`.
    pub fn fail(&mut self, key: TunnelCacheKey) -> (r: bool)
        requires
            old(self).wf(),
        ensures
            final(self).wf(),
            fail_step(old(self)@, key, final(self)@, r),
    {
        match self.find(&key) {
            Some(i) => {
                proof {
                    lemma_entry_at(self.slots@, i as int);
                }
                if let SlotState::Pending = self.slots[i].entry.state {
                    proof {
                        lemma_remove(self.slots@, i as int);
                    }
                    self.slots.remove(i);
                    true
                } else {
                    false
                }
            },
            None => false,
        }
    }

    /// Records a successful read or write on flow `key` at time `now`.
    pub fn touch(&mut self, key: TunnelCacheKey, now: u64) -> (r: bool)
        requires
            old(self).wf(),
        ensures
            final(self).wf(),
            touch_step(old(self)@, key, now as int, final(self)@, r),
    {
        match self.find(&key) {
            Some(i) => {
                proof {
                    lemma_entry_at(self.slots@, i as int);
                }
                let e = self.slots[i].entry;
                if let SlotState::Ready { .. } = e.state {
                    if now > e.last_access && now - e.last_access > self.idle_ms {
                        return false;
                    }
                    let ne = Entry { state: e.state, last_access: now };
                    proof {
                        lemma_update(self.slots@, i as int, ne);
                    }
                    self.slots.set(i, Slot { key, entry: ne });
                    true
                } else {
                    false
                }
            },
            None => false,
        }
    }

    /// Claims the reverse-direction reader of flow `key`. True exactly once
    /// per session.
    pub fn take_reader(&mut self, key: TunnelCacheKey) -> (r: bool)
        requires
            old(self).wf(),
        ensures
            final(self).wf(),
            take_reader_step(old(self)@, key, final(self)@, r),
    {
        match self.find(&key) {
            Some(i) => {
                proof {
                    lemma_entry_at(self.slots@, i as int);
                }
                let e = self.slots[i].entry;
                match e.state {
                    SlotState::Ready { session, reader_taken } => {
                        if reader_taken {
                            false
                        } else {
                            let ne = Entry {
                                state: SlotState::Ready { session, reader_taken: true },
                                last_access: e.last_access,
                            };
                            proof {
                                lemma_update(self.slots@, i as int, ne);
                            }
                            self.slots.set(i, Slot { key, entry: ne });
                            true
                        }
                    },
                    SlotState::Pending => false,
                }
            },
            None => false,
        }
    }

    /// Drops every flow that has been idle for longer than the idle window at
    /// time `now`; their sessions are queued for closing.
    pub fn evict_idle(&mut self, now: u64)
        requires
            old(self).wf(),
        ensures
            final(self).wf(),
            evict_step(old(self)@, now as int, final(self)@),
    {
        let ghost orig = self@.entries;
        let ghost idle = self.idle_ms as int;
        let ghost c0 = self.closing@;
        let mut i: usize = 0;
        while i < self.slots.len()
            invariant
                keys_unique(self.slots@),
                self.slots@.len() <= self.capacity,
                self.idle_ms == idle,
                self.capacity == old(self).capacity,
                i <= self.slots@.len(),
                forall|j: int| 0 <= j < i ==> !expired(#[trigger] self.slots@[j].entry, now as int, idle),
                forall|k: TunnelCacheKey|
                    #[trigger] has_key(self.slots@, k) ==> orig.contains_key(k) && entries_of(self.slots@)[k] == orig[k],
                forall|k: TunnelCacheKey| live(orig, k, now as int, idle) ==> #[trigger] has_key(self.slots@, k),
                self.closing@.len() >= c0.len(),
                self.closing@.subrange(0, c0.len() as int) == c0,
                forall|s: u64|
                    #[trigger] self.closing@.subrange(c0.len() as int, self.closing@.len() as int).contains(s)
                        <==> exists|k: TunnelCacheKey|
                        {
                            &&& #[trigger] orig.contains_key(k)
                            &&& expired(orig[k], now as int, idle)
                            &&& !has_key(self.slots@, k)
                            &&& session_of(orig[k]) == s
                        },
            decreases self.slots@.len() - i,
        {
            let s = self.slots[i];
            let stale = match s.entry.state {
                SlotState::Ready { .. } => now > s.entry.last_access && now - s.entry.last_access > self.idle_ms,
                SlotState::Pending => false,
            };
            if stale {
                let ghost pre_slots = self.slots@;
                let ghost pre_closing = self.closing@;
                proof {
                    lemma_entry_at(pre_slots, i as int);
                    lemma_remove(pre_slots, i as int);
                }
                let session = match s.entry.state {
                    SlotState::Ready { session, .. } => session,
                    SlotState::Pending => 0,
                };
                self.closing.push(session);
                self.slots.remove(i);
                proof {
                    let k0 = s.key;
                    let post_slots = self.slots@;
                    assert(has_key(pre_slots, k0));
                    assert(orig[k0] == s.entry);
                    assert forall|k: TunnelCacheKey| #[trigger] has_key(post_slots, k) == (has_key(pre_slots, k) && k != k0) by {
                        assert(entries_of(post_slots).dom().contains(k) == entries_of(pre_slots).remove(k0).dom().contains(k));
                    }
                    assert forall|j: int| 0 <= j < i implies !expired(#[trigger] post_slots[j].entry, now as int, idle) by {
                        assert(post_slots[j] == pre_slots[j]);
                    }
                    assert forall|k: TunnelCacheKey| #[trigger] has_key(post_slots, k) implies orig.contains_key(k) && entries_of(post_slots)[k] == orig[k] by {
                        assert(has_key(pre_slots, k));
                    }
                    let old_part = pre_closing.subrange(c0.len() as int, pre_closing.len() as int);
                    let new_part = self.closing@.subrange(c0.len() as int, self.closing@.len() as int);
                    assert(new_part =~= old_part.push(session));
                    assert(self.closing@.subrange(0, c0.len() as int) =~= pre_closing.subrange(0, c0.len() as int));
                    assert forall|x: u64| #[trigger] new_part.contains(x) <==> exists|k: TunnelCacheKey|
                        {
                            &&& #[trigger] orig.contains_key(k)
                            &&& expired(orig[k], now as int, idle)
                            &&& !has_key(post_slots, k)
                            &&& session_of(orig[k]) == x
                        } by {
                        if new_part.contains(x) {
                            let n = choose|n: int| 0 <= n < new_part.len() && new_part[n] == x;
                            if n < old_part.len() {
                                assert(old_part[n] == x);
                                assert(old_part.contains(x));
                                let k = choose|k: TunnelCacheKey|
                                    {
                                        &&& #[trigger] orig.contains_key(k)
                                        &&& expired(orig[k], now as int, idle)
                                        &&& !has_key(pre_slots, k)
                                        &&& session_of(orig[k]) == x
                                    };
                                assert(!has_key(post_slots, k));
                            } else {
                                assert(x == session);
                                assert(!has_key(post_slots, k0));
                            }
                        }
                        if exists|k: TunnelCacheKey|
                            {
                                &&& #[trigger] orig.contains_key(k)
                                &&& expired(orig[k], now as int, idle)
                                &&& !has_key(post_slots, k)
                                &&& session_of(orig[k]) == x
                            } {
                            let k = choose|k: TunnelCacheKey|
                                {
                                    &&& #[trigger] orig.contains_key(k)
                                    &&& expired(orig[k], now as int, idle)
                                    &&& !has_key(post_slots, k)
                                    &&& session_of(orig[k]) == x
                                };
                            if k == k0 {
                                assert(new_part[new_part.len() - 1] == x);
                            } else {
                                assert(!has_key(pre_slots, k));
                                assert(old_part.contains(x));
                                let n = choose|n: int| 0 <= n < old_part.len() && old_part[n] == x;
                                assert(new_part[n] == x);
                            }
                        }
                    }
                }
            } else {
                proof {
                    lemma_entry_at(self.slots@, i as int);
                }
                i = i + 1;
            }
        }
        proof {
            let fin = self.slots@;
            assert forall|k: TunnelCacheKey| #[trigger] entries_of(fin).contains_key(k) <==> live(orig, k, now as int, idle) by {
                if has_key(fin, k) {
                    let j = index_of_key(fin, k);
                    lemma_entry_at(fin, j);
                    assert(!expired(fin[j].entry, now as int, idle));
                }
            }
            assert forall|k: TunnelCacheKey| orig.contains_key(k) && expired(orig[k], now as int, idle) implies !#[trigger] has_key(fin, k) by {
                if has_key(fin, k) {
                    let j = index_of_key(fin, k);
                    lemma_entry_at(fin, j);
                }
            }
            let new_part = self.closing@.subrange(c0.len() as int, self.closing@.len() as int);
            assert forall|x: u64| #[trigger] new_part.contains(x) <==> exists|k: TunnelCacheKey|
                {
                    &&& #[trigger] orig.contains_key(k)
                    &&& expired(orig[k], now as int, idle)
                    &&& session_of(orig[k]) == x
                } by {
                if exists|k: TunnelCacheKey|
                    {
                        &&& #[trigger] orig.contains_key(k)
                        &&& expired(orig[k], now as int, idle)
                        &&& session_of(orig[k]) == x
                    } {
                    let k = choose|k: TunnelCacheKey|
                        {
                            &&& #[trigger] orig.contains_key(k)
                            &&& expired(orig[k], now as int, idle)
                            &&& session_of(orig[k]) == x
                        };
                    assert(!has_key(fin, k));
                }
            }
            assert forall|k: TunnelCacheKey| #[trigger] entries_of(fin).contains_key(k) implies entries_of(fin)[k] == orig[k] by {
                assert(has_key(fin, k));
            }
            assert(self.closing@.subrange(0, c0.len() as int) == c0);
        }
    }

    /// Whether flow `key` has an entry that counts at time `now`.
    pub fn contains(&self, key: &TunnelCacheKey, now: u64) -> (r: bool)
        requires
            self.wf(),
        ensures
            r == live(self@.entries, *key, now as int, self@.idle_ms),
    {
        match self.find(key) {
            Some(i) => {
                proof {
                    lemma_entry_at(self.slots@, i as int);
                }
                let e = self.slots[i].entry;
                match e.state {
                    SlotState::Ready { .. } => !(now > e.last_access && now - e.last_access > self.idle_ms),
                    SlotState::Pending => true,
                }
            },
            None => false,
        }
    }

    /// The number of cached flows, pending ones included.
    pub fn len(&self) -> (r: usize)
        requires
            self.wf(),
        ensures
            r == self@.entries.dom().len(),
    {
        proof {
            lemma_size(self.slots@);
        }
        self.slots.len()
    }

    /// Hands out the sessions that left the cache since the last call; the
    /// caller closes their stream pairs.
    pub fn drain_closing(&mut self) -> (r: Vec<u64>)
        requires
            old(self).wf(),
        ensures
            final(self).wf(),
            r@ == old(self)@.closing,
            final(self)@ == (CacheView { closing: Seq::empty(), ..old(self)@ }),
    {
        let mut r: Vec<u64> = Vec::new();
        core::mem::swap(&mut r, &mut self.closing);
        assert(self@ =~= (CacheView { closing: Seq::empty(), ..old(self)@ }));
        r
    }
}

} // verus!
