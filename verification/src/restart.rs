//! How often a tool that ends by itself is started again.
use std::collections::VecDeque;
use vstd::prelude::*;

verus! {

/// Nanoseconds in a second.
pub const SECOND: u128 = 1_000_000_000;

/// Nanoseconds in a millisecond.
pub const MILLISECOND: u128 = 1_000_000;

/// Whether a moment lies further back than `window` nanoseconds.
pub open spec fn is_past(time: u64, now: u64, window: int) -> bool {
    now - time > window
}

/// The moments that are left once the ones at the front that lie too far back are gone.
pub open spec fn recent(times: Seq<u64>, now: u64, window: int) -> Seq<u64>
    decreases times.len(),
{
    if times.len() > 0 && is_past(times[0], now, window) {
        recent(times.drop_first(), now, window)
    } else {
        times
    }
}

/// Whether one more restart is allowed at `now`: fewer than `max` lie within the window.
pub open spec fn allows(times: Seq<u64>, now: u64, window: int, max: int) -> bool {
    recent(times, now, window).len() < max
}

/// The moments to remember after a restart was asked for at `now`.
pub open spec fn remember(times: Seq<u64>, now: u64, window: int, max: int) -> Seq<u64> {
    if allows(times, now, window, max) {
        recent(times, now, window).push(now)
    } else {
        recent(times, now, window)
    }
}

/// The length in nanoseconds of a window of `seconds`.
pub open spec fn window_of(seconds: u64) -> int {
    seconds * SECOND
}

/// The moments of the restarts that count towards the limit.
pub struct RestartHistory {
    times: VecDeque<u64>,
}

impl View for RestartHistory {
    type V = Seq<u64>;

    closed spec fn view(&self) -> Seq<u64> {
        self.times@
    }
}

impl RestartHistory {
    /// No restarts.
    pub fn new() -> (history: Self)
        ensures
            history@ == Seq::<u64>::empty(),
    {
        RestartHistory { times: VecDeque::new() }
    }

    /// Forgets all restarts.
    pub fn clear(&mut self)
        ensures
            final(self)@ == Seq::<u64>::empty(),
    {
        self.times.clear();
    }

    /// Asks for a restart at `now`. It is allowed, and remembered, when fewer than `max` lie
    /// within the last `window_seconds`.
    pub fn request(&mut self, now: u64, window_seconds: u64, max: usize) -> (allowed: bool)
        ensures
            allowed == allows(old(self)@, now, window_of(window_seconds), max as int),
            final(self)@ == remember(old(self)@, now, window_of(window_seconds), max as int),
    {
        let window: u128 = window_seconds as u128 * SECOND;
        let ghost goal = recent(self.times@, now, window as int);
        while self.times.len() > 0 && now > self.times[0] && (now - self.times[0]) as u128 > window
            invariant
                goal == recent(self.times@, now, window as int),
            decreases self.times@.len(),
        {
            self.times.pop_front();
        }
        if self.times.len() < max {
            self.times.push_back(now);
            true
        } else {
            false
        }
    }
}

// ---------------------------------------------------------------------------
// What holds over time
// ---------------------------------------------------------------------------

/// The moments remembered after restarts were asked for at the given times.
pub open spec fn remembered(requests: Seq<u64>, window: int, max: int) -> Seq<u64>
    decreases requests.len(),
{
    if requests.len() == 0 {
        Seq::empty()
    } else {
        remember(remembered(requests.drop_last(), window, max), requests.last(), window, max)
    }
}

/// The restarts that were allowed when restarts were asked for at the given times.
pub open spec fn allowed(requests: Seq<u64>, window: int, max: int) -> Seq<u64>
    decreases requests.len(),
{
    if requests.len() == 0 {
        Seq::empty()
    } else {
        let before = allowed(requests.drop_last(), window, max);
        if allows(
            remembered(requests.drop_last(), window, max),
            requests.last(),
            window,
            max,
        ) {
            before.push(requests.last())
        } else {
            before
        }
    }
}

/// Whether no moment lies before the one in front of it.
pub open spec fn in_order(times: Seq<u64>) -> bool {
    forall|i: int, j: int| 0 <= i <= j < times.len() ==> times[i] <= times[j]
}

pub proof fn lemma_recent(times: Seq<u64>, now: u64, window: int)
    ensures
        recent(times, now, window).len() <= times.len(),
        recent(times, now, window) == times.skip(times.len() - recent(times, now, window).len()),
        forall|i: int|
            0 <= i < times.len() - recent(times, now, window).len() ==> is_past(
                #[trigger] times[i],
                now,
                window,
            ),
    decreases times.len(),
{
    if times.len() > 0 && is_past(times[0], now, window) {
        let rest = times.drop_first();
        lemma_recent(rest, now, window);
        let kept = recent(rest, now, window);
        assert(times.skip(times.len() - kept.len()) =~= rest.skip(rest.len() - kept.len()));
        assert forall|i: int| 0 <= i < times.len() - kept.len() implies is_past(
            #[trigger] times[i],
            now,
            window,
        ) by {
            if i > 0 {
                assert(rest[i - 1] == times[i]);
            }
        }
    } else {
        assert(times.skip(0) =~= times);
    }
}

/// The remembered restarts are the last allowed ones, and the others lie too far back.
proof fn lemma_remembered(requests: Seq<u64>, window: int, max: int)
    requires
        in_order(requests),
        max >= 0,
    ensures
        ({
            let all = allowed(requests, window, max);
            let kept = remembered(requests, window, max);
            &&& kept.len() <= all.len()
            &&& kept.len() <= max
            &&& kept == all.skip(all.len() - kept.len())
            &&& forall|i: int|
                0 <= i < all.len() - kept.len() ==> requests.len() > 0 && is_past(
                    #[trigger] all[i],
                    requests.last(),
                    window,
                )
            &&& forall|i: int, j: int|
                0 <= i && j == i + max && j < all.len() ==> #[trigger] all[j] - #[trigger] all[i]
                    > window
        }),
    decreases requests.len(),
{
    let all = allowed(requests, window, max);
    let kept = remembered(requests, window, max);
    if requests.len() == 0 {
        assert(kept =~= all.skip(0));
    } else {
        let front = requests.drop_last();
        let now = requests.last();
        lemma_remembered(front, window, max);
        let all0 = allowed(front, window, max);
        let kept0 = remembered(front, window, max);
        let live = recent(kept0, now, window);
        lemma_recent(kept0, now, window);
        assert forall|i: int| 0 <= i < all0.len() - live.len() implies is_past(
            #[trigger] all0[i],
            now,
            window,
        ) by {
            if i < all0.len() - kept0.len() {
                assert(is_past(all0[i], front.last(), window));
                assert(requests[front.len() - 1] <= requests[requests.len() - 1]);
            } else {
                assert(kept0[i - (all0.len() - kept0.len())] == all0[i]);
            }
        }
        assert(live =~= all0.skip(all0.len() - live.len()));
        if live.len() < max {
            assert(all == all0.push(now));
            assert(kept =~= all.skip(all.len() - kept.len()));
        }
    }
}

/// Of restarts asked for one after the other, any `max` + 1 that follow each other among the
/// allowed ones take longer than the window: never are more than `max` allowed within it.
pub proof fn law_restarts_are_limited(
    requests: Seq<u64>,
    window_seconds: u64,
    max: usize,
    i: int,
    j: int,
)
    requires
        in_order(requests),
        0 <= i,
        i + max <= j < allowed(requests, window_of(window_seconds), max as int).len(),
    ensures
        allowed(requests, window_of(window_seconds), max as int)[j] - allowed(
            requests,
            window_of(window_seconds),
            max as int,
        )[i] > window_of(window_seconds),
{
    let window = window_of(window_seconds);
    let all = allowed(requests, window, max as int);
    lemma_remembered(requests, window, max as int);
    lemma_allowed_in_order(requests, window, max as int);
    assert(all[i + max] - all[i] > window);
    assert(all[i + max] <= all[j]);
}

proof fn lemma_allowed_in_order(requests: Seq<u64>, window: int, max: int)
    requires
        in_order(requests),
    ensures
        in_order(allowed(requests, window, max)),
        forall|i: int|
            0 <= i < allowed(requests, window, max).len() ==> requests.len() > 0 && #[trigger] allowed(
                requests,
                window,
                max,
            )[i] <= requests.last(),
    decreases requests.len(),
{
    if requests.len() > 0 {
        let front = requests.drop_last();
        lemma_allowed_in_order(front, window, max);
        let all0 = allowed(front, window, max);
        assert forall|i: int| 0 <= i < all0.len() implies #[trigger] all0[i] <= requests.last() by {
            assert(requests[front.len() - 1] <= requests[requests.len() - 1]);
        }
    }
}

proof fn lemma_filter_is_skip(times: Seq<u64>, p: spec_fn(u64) -> bool, k: int)
    requires
        0 <= k <= times.len(),
        forall|i: int| 0 <= i < k ==> !p(#[trigger] times[i]),
        forall|i: int| k <= i < times.len() ==> p(#[trigger] times[i]),
    ensures
        times.filter(p) == times.skip(k),
    decreases times.len(),
{
    reveal(Seq::filter);
    if times.len() > 0 {
        let front = times.drop_last();
        if k == times.len() {
            lemma_filter_is_skip(front, p, k - 1);
            assert(!p(times[times.len() - 1]));
            assert(front.skip(k - 1) =~= times.skip(k));
        } else {
            lemma_filter_is_skip(front, p, k);
            assert(p(times[times.len() - 1]));
            assert(front.skip(k).push(times.last()) =~= times.skip(k));
        }
    } else {
        assert(times.skip(k) =~= times);
    }
}

/// The restarts that count are those of the last `seconds`: one more is allowed exactly if they
/// are fewer than the limit, and then it is remembered behind them. One that lies exactly
/// `seconds` back still counts.
pub proof fn law_restart_is_allowed_below_the_limit(
    times: Seq<u64>,
    now: u64,
    seconds: u64,
    max: int,
)
    requires
        forall|i: int, j: int| 0 <= i <= j < times.len() ==> times[i] <= times[j],
    ensures
        ({
            let counting = times.filter(|time: u64| now - time <= seconds * 1_000_000_000);
            let window = window_of(seconds);
            &&& allows(times, now, window, max) <==> counting.len() < max
            &&& counting.len() < max ==> remember(times, now, window, max) == counting.push(now)
            &&& counting.len() >= max ==> remember(times, now, window, max) == counting
        }),
{
    let p = |time: u64| now - time <= seconds * 1_000_000_000;
    let window = window_of(seconds);
    let live = recent(times, now, window);
    lemma_recent(times, now, window);
    lemma_recent_front(times, now, window);
    let k = times.len() - live.len();
    assert forall|i: int| k <= i < times.len() implies p(#[trigger] times[i]) by {
        assert(live[0] == times[k]);
        assert(times[k] <= times[i]);
    }
    assert forall|i: int| 0 <= i < k implies !p(#[trigger] times[i]) by {
        assert(is_past(times[i], now, window));
    }
    lemma_filter_is_skip(times, p, k);
}

proof fn lemma_recent_front(times: Seq<u64>, now: u64, window: int)
    ensures
        recent(times, now, window).len() > 0 ==> !is_past(
            recent(times, now, window)[0],
            now,
            window,
        ),
    decreases times.len(),
{
    if times.len() > 0 && is_past(times[0], now, window) {
        lemma_recent_front(times.drop_first(), now, window);
    }
}

/// Times leave a history from the front, and only while the first of them lies before the window;
/// from there on the history stays as it is.
pub proof fn law_times_leave_from_the_front(times: Seq<u64>, now: u64, window: int)
    ensures
        times.len() == 0 ==> recent(times, now, window) == times,
        times.len() > 0 && now - times[0] > window ==> recent(times, now, window) == recent(
            times.drop_first(),
            now,
            window,
        ),
        times.len() > 0 && now - times[0] <= window ==> recent(times, now, window) == times,
{
}

} // verus!
