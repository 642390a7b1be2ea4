//! A fixed-window rate limiter, keyed by caller.
//!
//! Each key has a window that opens with its first call and a count of the
//! calls let through since. A call is let through while the count is below
//! the limit; once the window has run out, the next call opens a new one.
//! Bursts across the edge of two windows are possible and accepted.
//!
//! The limiter is a value to be handed to every path that needs it. Whoever
//! shares it between threads puts it behind one lock and holds the lock for
//! the whole of a call.

use crate::models::same_text;
use std::time::{Duration, Instant};
use vstd::prelude::*;

verus! {

/// `std::time::Instant`, a reading of the monotonic clock, carried as it is.
#[verifier::external_type_specification]
#[verifier::external_body]
pub struct ExInstant(std::time::Instant);

/// A length of time, in nanoseconds.
#[derive(Debug, Clone, Copy, PartialEq, Eq, Structural)]
pub struct Span {
    pub nanos: u128,
}

impl Span {
    pub fn from_secs(secs: u64) -> (span: Span)
        ensures
            span.nanos == secs * 1_000_000_000,
    {
        Span { nanos: secs as u128 * 1_000_000_000 }
    }

    pub fn from_millis(millis: u64) -> (span: Span)
        ensures
            span.nanos == millis * 1_000_000,
    {
        Span { nanos: millis as u128 * 1_000_000 }
    }

    pub fn from_nanos(nanos: u128) -> (span: Span)
        ensures
            span.nanos == nanos,
    {
        Span { nanos }
    }
}

/// What the limiter remembers of one key: the calls let through in the
/// current window, and when that window opened, in nanoseconds on the
/// limiter's clock.
#[derive(Debug, Clone, Copy, PartialEq, Eq, Structural)]
pub struct Usage {
    pub count: u32,
    pub window_start: u128,
}

#[derive(Debug, Clone)]
struct RateLimitEntry {
    key: String,
    usage: Usage,
}

/// The limiter: one `Usage` per key seen, and the clock it reads.
#[derive(Debug)]
pub struct RateLimiter {
    entries: Vec<RateLimitEntry>,
    started: Instant,
}

/// Time gone by at `now` since `since`: nothing where `since` is the later.
pub open spec fn elapsed(now: u128, since: u128) -> int {
    if now >= since {
        now - since
    } else {
        0
    }
}

/// Whether a call at `now` is let through, given what is remembered of its key.
pub open spec fn admits(usage: Option<Usage>, max_count: u32, window: Span, now: u128) -> bool {
    match usage {
        None => true,
        Some(usage) => elapsed(now, usage.window_start) > window.nanos || usage.count < max_count,
    }
}

/// What is remembered of a key once a call at `now` has been let through.
pub open spec fn counted(usage: Option<Usage>, window: Span, now: u128) -> Usage {
    match usage {
        None => Usage { count: 1, window_start: now },
        Some(usage) => if elapsed(now, usage.window_start) > window.nanos {
            Usage { count: 1, window_start: now }
        } else {
            Usage { count: (usage.count + 1) as u32, window_start: usage.window_start }
        },
    }
}

/// What the limiter remembers of `key`.
pub open spec fn usage_of(state: Map<Seq<char>, Usage>, key: Seq<char>) -> Option<Usage> {
    if state.contains_key(key) {
        Some(state[key])
    } else {
        None
    }
}

/// Whether a call for `key` at `now` is let through.
pub open spec fn allowed_at(
    state: Map<Seq<char>, Usage>,
    key: Seq<char>,
    max_count: u32,
    window: Span,
    now: u128,
) -> bool {
    admits(usage_of(state, key), max_count, window, now)
}

/// The limiter after a call for `key` at `now`: a call let through is
/// counted, a call turned away changes nothing.
pub open spec fn after_call(
    state: Map<Seq<char>, Usage>,
    key: Seq<char>,
    max_count: u32,
    window: Span,
    now: u128,
) -> Map<Seq<char>, Usage> {
    if allowed_at(state, key, max_count, window, now) {
        state.insert(key, counted(usage_of(state, key), window, now))
    } else {
        state
    }
}

/// One call for `key` at `now`: whether it was `allowed`, and what the limiter
/// remembers `after` it.
pub open spec fn limiter_moved(
    before: Map<Seq<char>, Usage>,
    after: Map<Seq<char>, Usage>,
    key: Seq<char>,
    max_count: u32,
    window: Span,
    now: u128,
    allowed: bool,
) -> bool {
    allowed == allowed_at(before, key, max_count, window, now) && after == after_call(
        before,
        key,
        max_count,
        window,
        now,
    )
}

/// Whether a window that opened at `usage.window_start` is no older than
/// `max_age` at `now`.
pub open spec fn is_recent(usage: Usage, max_age: Span, now: u128) -> bool {
    elapsed(now, usage.window_start) <= max_age.nanos
}

/// The limiter with every key dropped whose window is older than `max_age`:
/// a window of exactly that age stays.
pub open spec fn purged(state: Map<Seq<char>, Usage>, max_age: Span, now: u128) -> Map<
    Seq<char>,
    Usage,
> {
    Map::new(|key: Seq<char>| state.contains_key(key) && is_recent(state[key], max_age, now), |key: Seq<char>| state[key])
}

spec fn keys_distinct(entries: Seq<RateLimitEntry>) -> bool {
    forall|i: int, j: int|
        0 <= i < j < entries.len() ==> (#[trigger] entries[i]).key@ != (#[trigger] entries[j]).key@
}

spec fn has_key(entry: RateLimitEntry, key: Seq<char>) -> bool {
    entry.key@ == key
}

spec fn row_of(entries: Seq<RateLimitEntry>, key: Seq<char>) -> int {
    choose|i: int| 0 <= i < entries.len() && has_key(#[trigger] entries[i], key)
}

spec fn usage_map(entries: Seq<RateLimitEntry>) -> Map<Seq<char>, Usage> {
    Map::new(
        |key: Seq<char>|
            exists|i: int| 0 <= i < entries.len() && has_key(#[trigger] entries[i], key),
        |key: Seq<char>| entries[row_of(entries, key)].usage,
    )
}

proof fn lemma_usage_at(entries: Seq<RateLimitEntry>, row: int)
    requires
        keys_distinct(entries),
        0 <= row < entries.len(),
    ensures
        usage_map(entries).contains_key(entries[row].key@),
        usage_map(entries)[entries[row].key@] == entries[row].usage,
{
    let key = entries[row].key@;
    assert(has_key(entries[row], key));
    let chosen = row_of(entries, key);
    assert(has_key(entries[chosen], key));
    if chosen < row {
        assert(entries[chosen].key@ != entries[row].key@);
    } else if row < chosen {
        assert(entries[row].key@ != entries[chosen].key@);
    }
}

proof fn lemma_usage_absent(entries: Seq<RateLimitEntry>, key: Seq<char>)
    requires
        forall|i: int| 0 <= i < entries.len() ==> !has_key(#[trigger] entries[i], key),
    ensures
        !usage_map(entries).contains_key(key),
{
}

proof fn lemma_map_after_update(entries: Seq<RateLimitEntry>, row: int, usage: Usage)
    requires
        keys_distinct(entries),
        0 <= row < entries.len(),
    ensures
        keys_distinct(entries.update(row, RateLimitEntry { usage, ..entries[row] })),
        usage_map(entries.update(row, RateLimitEntry { usage, ..entries[row] })) == usage_map(
            entries,
        ).insert(entries[row].key@, usage),
{
    let changed = entries.update(row, RateLimitEntry { usage, ..entries[row] });
    let expected = usage_map(entries).insert(entries[row].key@, usage);
    assert forall|i: int, j: int| 0 <= i < j < changed.len() implies (#[trigger] changed[i]).key@
        != (#[trigger] changed[j]).key@ by {
        assert(entries[i].key@ != entries[j].key@);
    }
    assert forall|key: Seq<char>| #[trigger]
        usage_map(changed).contains_key(key) == expected.contains_key(key) by {
        if usage_map(changed).contains_key(key) {
            let i = row_of(changed, key);
            assert(has_key(entries[i], key));
        }
        if expected.contains_key(key) && key != entries[row].key@ {
            let i = row_of(entries, key);
            assert(has_key(changed[i], key));
        }
        if key == entries[row].key@ {
            assert(has_key(changed[row], key));
        }
    }
    assert forall|key: Seq<char>| usage_map(changed).contains_key(key) implies #[trigger]
        usage_map(changed)[key] == expected[key] by {
        let i = row_of(changed, key);
        assert(has_key(changed[i], key));
        lemma_usage_at(changed, i);
        lemma_usage_at(entries, i);
    }
    assert(usage_map(changed) =~= expected);
}

proof fn lemma_map_after_push(entries: Seq<RateLimitEntry>, entry: RateLimitEntry)
    requires
        keys_distinct(entries),
        forall|i: int| 0 <= i < entries.len() ==> !has_key(#[trigger] entries[i], entry.key@),
    ensures
        keys_distinct(entries.push(entry)),
        usage_map(entries.push(entry)) == usage_map(entries).insert(entry.key@, entry.usage),
{
    let longer = entries.push(entry);
    let expected = usage_map(entries).insert(entry.key@, entry.usage);
    assert forall|i: int, j: int| 0 <= i < j < longer.len() implies (#[trigger] longer[i]).key@
        != (#[trigger] longer[j]).key@ by {
        if j < entries.len() {
            assert(entries[i].key@ != entries[j].key@);
        } else {
            assert(!has_key(entries[i], entry.key@));
        }
    }
    assert forall|key: Seq<char>| #[trigger]
        usage_map(longer).contains_key(key) == expected.contains_key(key) by {
        if usage_map(longer).contains_key(key) {
            let i = row_of(longer, key);
            if i < entries.len() {
                assert(has_key(entries[i], key));
            }
        }
        if usage_map(entries).contains_key(key) {
            let i = row_of(entries, key);
            assert(has_key(longer[i], key));
        }
        if key == entry.key@ {
            assert(has_key(longer[entries.len() as int], key));
        }
    }
    assert forall|key: Seq<char>| usage_map(longer).contains_key(key) implies #[trigger]
        usage_map(longer)[key] == expected[key] by {
        let i = row_of(longer, key);
        assert(has_key(longer[i], key));
        lemma_usage_at(longer, i);
        if i < entries.len() {
            lemma_usage_at(entries, i);
        }
    }
    assert(usage_map(longer) =~= expected);
}

/// `Instant::now`: a reading of the monotonic clock. Nothing is claimed of it.
#[verifier::external_body]
fn clock_start() -> Instant {
    Instant::now()
}

/// `Instant::elapsed`: the time gone by since `origin`. Nothing is claimed of it.
#[verifier::external_body]
fn clock_elapsed(origin: &Instant) -> Duration {
    origin.elapsed()
}

/// `Duration::as_nanos`: a length of time as a number of nanoseconds. Nothing
/// is claimed of the number.
#[verifier::external_body]
fn duration_nanos(duration: Duration) -> u128 {
    duration.as_nanos()
}

proof fn lemma_usage_map_size(entries: Seq<RateLimitEntry>)
    requires
        keys_distinct(entries),
    ensures
        usage_map(entries).dom().finite(),
        usage_map(entries).len() == entries.len(),
    decreases entries.len(),
{
    if entries.len() == 0 {
        assert(usage_map(entries) =~= Map::<Seq<char>, Usage>::empty());
    } else {
        let front = entries.drop_last();
        let last = entries.last();
        assert forall|i: int, j: int| 0 <= i < j < front.len() implies (#[trigger] front[i]).key@
            != (#[trigger] front[j]).key@ by {
            assert(entries[i].key@ != entries[j].key@);
        }
        lemma_usage_map_size(front);
        assert forall|i: int| 0 <= i < front.len() implies !has_key(
            #[trigger] front[i],
            last.key@,
        ) by {
            assert(entries[i].key@ != entries[entries.len() - 1].key@);
        }
        lemma_map_after_push(front, last);
        lemma_usage_absent(front, last.key@);
        assert(front.push(last) =~= entries);
    }
}

proof fn lemma_map_after_purge(
    before: Seq<RateLimitEntry>,
    kept: Seq<RateLimitEntry>,
    origin: Seq<int>,
    max_age: Span,
    now: u128,
)
    requires
        keys_distinct(before),
        origin.len() == kept.len(),
        forall|k: int|
            0 <= k < kept.len() ==> 0 <= #[trigger] origin[k] < before.len() && kept[k]
                == before[origin[k]] && is_recent(before[origin[k]].usage, max_age, now),
        forall|k1: int, k2: int|
            0 <= k1 < k2 < kept.len() ==> #[trigger] origin[k1] != #[trigger] origin[k2],
        forall|j: int|
            0 <= j < before.len() && is_recent((#[trigger] before[j]).usage, max_age, now)
                ==> origin.contains(j),
    ensures
        keys_distinct(kept),
        usage_map(kept) == purged(usage_map(before), max_age, now),
{
    let expected = purged(usage_map(before), max_age, now);
    assert forall|i: int, j: int| 0 <= i < j < kept.len() implies (#[trigger] kept[i]).key@ != (
    #[trigger] kept[j]).key@ by {
        assert(origin[i] != origin[j]);
        if origin[i] < origin[j] {
            assert(before[origin[i]].key@ != before[origin[j]].key@);
        } else {
            assert(before[origin[j]].key@ != before[origin[i]].key@);
        }
    }
    assert forall|key: Seq<char>| #[trigger]
        usage_map(kept).contains_key(key) == expected.contains_key(key) by {
        if usage_map(kept).contains_key(key) {
            let k = row_of(kept, key);
            assert(has_key(kept[k], key));
            assert(has_key(before[origin[k]], key));
            lemma_usage_at(before, origin[k]);
        }
        if expected.contains_key(key) {
            let j = row_of(before, key);
            assert(has_key(before[j], key));
            lemma_usage_at(before, j);
            assert(origin.contains(j));
            let k = choose|k: int| 0 <= k < origin.len() && origin[k] == j;
            assert(has_key(kept[k], key));
        }
    }
    assert forall|key: Seq<char>| usage_map(kept).contains_key(key) implies #[trigger]
        usage_map(kept)[key] == expected[key] by {
        let k = row_of(kept, key);
        assert(has_key(kept[k], key));
        lemma_usage_at(kept, k);
        lemma_usage_at(before, origin[k]);
    }
    assert(usage_map(kept) =~= expected);
}

fn set_usage(entries: &mut Vec<RateLimitEntry>, row: usize, usage: Usage)
    requires
        row < old(entries).len(),
    ensures
        final(entries)@ == old(entries)@.update(
            row as int,
            RateLimitEntry { usage, ..old(entries)@[row as int] },
        ),
{
    entries[row].usage = usage;
    assert(entries@ =~= old(entries)@.update(
        row as int,
        RateLimitEntry { usage, ..old(entries)@[row as int] },
    ));
}

impl View for RateLimiter {
    type V = Map<Seq<char>, Usage>;

    closed spec fn view(&self) -> Map<Seq<char>, Usage> {
        usage_map(self.entries@)
    }
}

impl RateLimiter {
    #[verifier::type_invariant]
    spec fn no_key_twice(self) -> bool {
        keys_distinct(self.entries@)
    }

    /// A limiter that remembers nothing, with its clock started now.
    pub fn new() -> (limiter: RateLimiter)
        ensures
            limiter@ == Map::<Seq<char>, Usage>::empty(),
    {
        let limiter = RateLimiter { entries: Vec::new(), started: clock_start() };
        assert(limiter@ =~= Map::<Seq<char>, Usage>::empty());
        limiter
    }

    /// Nanoseconds gone by on the limiter's clock.
    pub fn now(&self) -> u128 {
        duration_nanos(clock_elapsed(&self.started))
    }

    fn row(&self, key: &str) -> (found: Option<usize>)
        ensures
            match found {
                Some(row) => row < self.entries.len() && has_key(self.entries@[row as int], key@),
                None => forall|i: int|
                    0 <= i < self.entries.len() ==> !has_key(#[trigger] self.entries@[i], key@),
            },
    {
        let mut i: usize = 0;
        while i < self.entries.len()
            invariant
                i <= self.entries.len(),
                forall|j: int| 0 <= j < i ==> !has_key(#[trigger] self.entries@[j], key@),
            decreases self.entries.len() - i,
        {
            if same_text(self.entries[i].key.as_str(), key) {
                return Some(i);
            }
            i = i + 1;
        }
        None
    }

    fn remember(&mut self, row: usize, usage: Usage)
        requires
            row < old(self).entries.len(),
        ensures
            final(self).entries@ == old(self).entries@.update(
                row as int,
                RateLimitEntry { usage, ..old(self).entries@[row as int] },
            ),
    {
        proof {
            use_type_invariant(&*self);
            lemma_map_after_update(self.entries@, row as int, usage);
        }
        let mut entries: Vec<RateLimitEntry> = Vec::new();
        std::mem::swap(&mut self.entries, &mut entries);
        set_usage(&mut entries, row, usage);
        self.entries = entries;
    }

    /// What the limiter remembers of `key`.
    pub fn usage(&self, key: &str) -> (usage: Option<Usage>)
        ensures
            usage == usage_of(self@, key@),
    {
        proof {
            use_type_invariant(self);
        }
        match self.row(key) {
            Some(row) => {
                proof {
                    lemma_usage_at(self.entries@, row as int);
                }
                Some(self.entries[row].usage)
            },
            None => {
                proof {
                    lemma_usage_absent(self.entries@, key@);
                }
                None
            },
        }
    }

    /// Number of keys remembered.
    pub fn len(&self) -> (count: usize)
        ensures
            self@.dom().finite(),
            count == self@.len(),
    {
        proof {
            use_type_invariant(self);
            lemma_usage_map_size(self.entries@);
        }
        self.entries.len()
    }

    /// Decides a call for `key` made at `now` on the limiter's clock, and
    /// counts it if it is let through.
    pub fn allow(&mut self, key: &str, max_count: u32, window: Span, now: u128) -> (allowed: bool)
        ensures
            allowed == allowed_at(old(self)@, key@, max_count, window, now),
            final(self)@ == after_call(old(self)@, key@, max_count, window, now),
    {
        proof {
            use_type_invariant(&*self);
        }
        match self.row(key) {
            Some(row) => {
                proof {
                    lemma_usage_at(self.entries@, row as int);
                }
                let usage = self.entries[row].usage;
                let expired = now >= usage.window_start && now - usage.window_start > window.nanos;
                if expired {
                    proof {
                        lemma_map_after_update(
                            self.entries@,
                            row as int,
                            Usage { count: 1, window_start: now },
                        );
                    }
                    self.remember(row, Usage { count: 1, window_start: now });
                    true
                } else if usage.count < max_count {
                    proof {
                        lemma_map_after_update(
                            self.entries@,
                            row as int,
                            Usage {
                                count: (usage.count + 1) as u32,
                                window_start: usage.window_start,
                            },
                        );
                    }
                    self.remember(
                        row,
                        Usage { count: usage.count + 1, window_start: usage.window_start },
                    );
                    true
                } else {
                    false
                }
            },
            None => {
                let entry = RateLimitEntry {
                    key: key.to_owned(),
                    usage: Usage { count: 1, window_start: now },
                };
                proof {
                    lemma_usage_absent(self.entries@, key@);
                    lemma_map_after_push(self.entries@, entry);
                }
                let mut entries: Vec<RateLimitEntry> = Vec::new();
                std::mem::swap(&mut self.entries, &mut entries);
                entries.push(entry);
                self.entries = entries;
                true
            },
        }
    }

    /// Forgets every key whose window is older than `max_age` at `now`; a
    /// window of exactly that age stays.
    pub fn purge(&mut self, max_age: Span, now: u128)
        ensures
            final(self)@ == purged(old(self)@, max_age, now),
    {
        proof {
            use_type_invariant(&*self);
        }
        let mut entries: Vec<RateLimitEntry> = Vec::new();
        std::mem::swap(&mut self.entries, &mut entries);
        let ghost before = entries@;
        let ghost mut origin: Seq<int> = Seq::empty();
        let mut kept: Vec<RateLimitEntry> = Vec::new();
        while entries.len() > 0
            invariant
                entries@ == before.take(entries.len() as int),
                entries.len() <= before.len(),
                origin.len() == kept.len(),
                forall|k: int|
                    0 <= k < kept.len() ==> entries.len() <= #[trigger] origin[k] < before.len()
                        && kept@[k] == before[origin[k]] && is_recent(
                        before[origin[k]].usage,
                        max_age,
                        now,
                    ),
                forall|k1: int, k2: int|
                    0 <= k1 < k2 < kept.len() ==> #[trigger] origin[k1] != #[trigger] origin[k2],
                forall|j: int|
                    entries.len() <= j < before.len() && is_recent(
                        (#[trigger] before[j]).usage,
                        max_age,
                        now,
                    ) ==> origin.contains(j),
            decreases entries.len(),
        {
            let ghost last = entries.len() - 1;
            let entry = entries.pop().unwrap();
            assert(entry == before[last]);
            let age = if now >= entry.usage.window_start {
                now - entry.usage.window_start
            } else {
                0
            };
            let ghost earlier = origin;
            if age <= max_age.nanos {
                kept.push(entry);
                proof {
                    origin = origin.push(last);
                    assert forall|j: int|
                        entries.len() <= j < before.len() && is_recent(
                            (#[trigger] before[j]).usage,
                            max_age,
                            now,
                        ) implies origin.contains(j) by {
                        if j == last {
                            assert(origin[earlier.len() as int] == j);
                        } else {
                            assert(earlier.contains(j));
                            let k = choose|k: int| 0 <= k < earlier.len() && earlier[k] == j;
                            assert(origin[k] == j);
                        }
                    }
                }
            }
        }
        proof {
            lemma_map_after_purge(before, kept@, origin, max_age, now);
        }
        self.entries = kept;
    }
}

/// While a key's window runs, a call is let through exactly when fewer than
/// `max_count` have been counted in it: one let through is counted, one
/// turned away leaves the limiter as it was.
pub proof fn law_window_counts_calls(
    state: Map<Seq<char>, Usage>,
    key: Seq<char>,
    max_count: u32,
    window: Span,
    now: u128,
)
    requires
        state.contains_key(key),
        elapsed(now, state[key].window_start) <= window.nanos,
    ensures
        allowed_at(state, key, max_count, window, now) <==> state[key].count < max_count,
        state[key].count < max_count ==> after_call(state, key, max_count, window, now)
            == state.insert(
            key,
            Usage { count: (state[key].count + 1) as u32, window_start: state[key].window_start },
        ),
        state[key].count >= max_count ==> after_call(state, key, max_count, window, now) == state,
{
}

/// Once a key's window has run out, the next call is let through whatever
/// was counted, and opens a new window with that call as its first.
pub proof fn law_window_reopens(
    state: Map<Seq<char>, Usage>,
    key: Seq<char>,
    max_count: u32,
    window: Span,
    now: u128,
)
    requires
        state.contains_key(key),
        elapsed(now, state[key].window_start) > window.nanos,
    ensures
        allowed_at(state, key, max_count, window, now),
        after_call(state, key, max_count, window, now) == state.insert(
            key,
            Usage { count: 1, window_start: now },
        ),
{
}

/// A key never seen is let through, and its window opens with that call.
pub proof fn law_first_call_allowed(
    state: Map<Seq<char>, Usage>,
    key: Seq<char>,
    max_count: u32,
    window: Span,
    now: u128,
)
    requires
        !state.contains_key(key),
    ensures
        allowed_at(state, key, max_count, window, now),
        after_call(state, key, max_count, window, now) == state.insert(
            key,
            Usage { count: 1, window_start: now },
        ),
{
}

/// Decides a call for `ip` made now, and counts it if it is let through:
/// `RateLimiter::allow` at the reading of the limiter's clock.
pub fn check_rate_limit(limiter: &mut RateLimiter, ip: &str, max_requests: u32, window: Span) -> (allowed:
    bool)
    ensures
        exists|now: u128| #[trigger]
            limiter_moved(old(limiter)@, final(limiter)@, ip@, max_requests, window, now, allowed),
{
    let now = limiter.now();
    let allowed = limiter.allow(ip, max_requests, window, now);
    assert(limiter_moved(old(limiter)@, limiter@, ip@, max_requests, window, now, allowed));
    allowed
}

/// Forgets every key whose window is older than `max_age` now:
/// `RateLimiter::purge` at the reading of the limiter's clock.
pub fn cleanup_old_entries(limiter: &mut RateLimiter, max_age: Span)
    ensures
        exists|now: u128| final(limiter)@ == #[trigger] purged(old(limiter)@, max_age, now),
{
    let now = limiter.now();
    limiter.purge(max_age, now);
}

} // verus!
