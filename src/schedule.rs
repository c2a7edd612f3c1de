use vstd::prelude::*;
use vstd::arithmetic::div_mod::{lemma_fundamental_div_mod, lemma_fundamental_div_mod_converse};

verus! {

/// Backlog left after the spawn steps whose extra delays are `js`: each step
/// consumes one interval and its delay, and the backlog never goes below zero.
pub open spec fn backlog_after(elapsed: int, interval: int, js: Seq<int>) -> int
    decreases js.len(),
{
    if js.len() == 0 {
        elapsed
    } else {
        let b = backlog_after(elapsed, interval, js.drop_last()) - interval - js.last();
        if b > 0 { b } else { 0 }
    }
}

/// `js` are the delays of a complete catch-up: a step was taken exactly while
/// the backlog still covered a whole interval.
pub open spec fn is_catch_up(elapsed: int, interval: int, js: Seq<int>) -> bool {
    &&& steps_covered(elapsed, interval, js)
    &&& backlog_after(elapsed, interval, js) < interval
}

/// Each step of `js` started with at least one interval of backlog.
pub open spec fn steps_covered(elapsed: int, interval: int, js: Seq<int>) -> bool {
    forall|k: int| 0 <= k < js.len() ==> backlog_after(elapsed, interval, #[trigger] js.take(k)) >= interval
}

/// One catch-up step: the backlog `remaining` less one interval and the drawn
/// `delay`, never below zero.
pub fn consume_backlog(remaining: u64, interval: u64, delay: u64) -> (r: u64)
    ensures
        r == (if remaining - interval - delay > 0 { remaining - interval - delay } else { 0 }),
{
    remaining.saturating_sub(interval.saturating_add(delay))
}

/// Every delay lies in `[0, bound]`.
pub open spec fn delays_within(js: Seq<int>, bound: int) -> bool {
    forall|k: int| 0 <= k < js.len() ==> 0 <= #[trigger] js[k] && js[k] <= bound
}

/// The creation times of `n` spawns after `last`: one per interval.
pub open spec fn spawn_grid(last: int, interval: int, n: nat) -> Seq<int> {
    Seq::new(n, |k: int| last + (k + 1) * interval)
}

/// Time a clock reading `now` has to catch up on since `last`; `None` when
/// there is no reading yet or it lies before `last`.
pub open spec fn backlog(last: int, now: Option<u64>) -> Option<int> {
    match now {
        Some(t) => if t >= last { Some(t - last) } else { None },
        None => None,
    }
}

/// Spawns owed on a backlog of `elapsed` with no jitter: whole intervals.
pub open spec fn due_count(elapsed: int, interval: int) -> int {
    elapsed / interval
}


/// What a run of steps says of the same run without its last step.
pub proof fn lemma_without_last(elapsed: int, interval: int, bound: int, js: Seq<int>)
    requires
        js.len() > 0,
    ensures
        js.take(js.len() - 1) == js.drop_last(),
        delays_within(js, bound) ==> delays_within(js.drop_last(), bound),
        steps_covered(elapsed, interval, js) ==> steps_covered(elapsed, interval, js.drop_last()),
        steps_covered(elapsed, interval, js) ==> backlog_after(elapsed, interval, js.drop_last()) >= interval,
{
    let prev = js.drop_last();
    assert(js.take(js.len() - 1) =~= prev);
    if delays_within(js, bound) {
        assert forall|k: int| 0 <= k < prev.len() implies 0 <= #[trigger] prev[k] && prev[k] <= bound by {
            assert(prev[k] == js[k]);
        }
    }
    if steps_covered(elapsed, interval, js) {
        assert forall|k: int| 0 <= k < prev.len() implies backlog_after(elapsed, interval, #[trigger] prev.take(k))
            >= interval by {
            assert(prev.take(k) =~= js.take(k));
        }
        assert(backlog_after(elapsed, interval, js.take(js.len() - 1)) >= interval);
    }
}

/// One more step after `js`, with delay `delay`, leaves the backlog that
/// `consume_backlog` computes from the backlog after `js`; when that step
/// started with a whole interval left, every step of the longer run did.
pub proof fn lemma_one_more_step(elapsed: int, interval: int, js: Seq<int>, delay: int)
    requires
        steps_covered(elapsed, interval, js),
        backlog_after(elapsed, interval, js) >= interval,
    ensures
        ({
            let b = backlog_after(elapsed, interval, js) - interval - delay;
            backlog_after(elapsed, interval, js.push(delay)) == if b > 0 { b } else { 0 }
        }),
        steps_covered(elapsed, interval, js.push(delay)),
{
    let longer = js.push(delay);
    assert(longer.drop_last() =~= js);
    assert forall|k: int| 0 <= k < longer.len() implies backlog_after(elapsed, interval, #[trigger] longer.take(k))
        >= interval by {
        if k < js.len() {
            assert(longer.take(k) =~= js.take(k));
        } else {
            assert(longer.take(k) =~= js);
        }
    }
}

/// A backlog shrinks by at most one interval plus the jitter bound per step.
pub proof fn lemma_backlog_lower(elapsed: int, interval: int, bound: int, js: Seq<int>)
    requires
        interval > 0,
        bound >= 0,
        delays_within(js, bound),
    ensures
        backlog_after(elapsed, interval, js) >= elapsed - js.len() * (interval + bound),
    decreases js.len(),
{
    if js.len() > 0 {
        let n = js.len() as int;
        lemma_without_last(elapsed, interval, bound, js);
        lemma_backlog_lower(elapsed, interval, bound, js.drop_last());
        assert((n - 1) * (interval + bound) + (interval + bound) == n * (interval + bound)) by (nonlinear_arith);
        assert(js.last() == js[n - 1]);
    }
}

/// While every step started with at least one interval of backlog, each step
/// consumed at least one interval, and exactly one when there was no delay.
pub proof fn lemma_backlog_upper(elapsed: int, interval: int, bound: int, js: Seq<int>)
    requires
        interval > 0,
        delays_within(js, bound),
        steps_covered(elapsed, interval, js),
    ensures
        backlog_after(elapsed, interval, js) <= elapsed - js.len() * interval,
        delays_within(js, 0) ==> backlog_after(elapsed, interval, js) == elapsed - js.len() * interval,
    decreases js.len(),
{
    if js.len() > 0 {
        let n = js.len() as int;
        lemma_without_last(elapsed, interval, bound, js);
        lemma_without_last(elapsed, interval, 0, js);
        lemma_backlog_upper(elapsed, interval, bound, js.drop_last());
        assert(js.last() == js[n - 1]);
        assert((n - 1) * interval + interval == n * interval) by (nonlinear_arith);
    }
}

/// `n` steps of at most one interval plus `bound` each, after which less than
/// one interval of `elapsed` is left, number at least `elapsed / (interval + bound)`.
proof fn lemma_enough_steps(elapsed: int, interval: int, bound: int, n: int, left: int)
    requires
        elapsed >= 0,
        interval > 0,
        bound >= 0,
        left < interval,
        left >= elapsed - n * (interval + bound),
    ensures
        elapsed / (interval + bound) <= n,
{
    let w = interval + bound;
    lemma_fundamental_div_mod(elapsed, w);
    let p = elapsed / w;
    assert(p <= n) by (nonlinear_arith)
        requires
            left < interval,
            left >= elapsed - n * w,
            elapsed == w * p + elapsed % w,
            elapsed % w >= 0,
            w >= interval,
            interval > 0,
    ;
}

/// At most `elapsed / interval` whole intervals fit in `elapsed`.
proof fn lemma_fits(elapsed: int, interval: int, n: int)
    requires
        interval > 0,
        n * interval <= elapsed,
    ensures
        n <= elapsed / interval,
{
    lemma_fundamental_div_mod(elapsed, interval);
    let q = elapsed / interval;
    assert(n <= q) by (nonlinear_arith)
        requires
            n * interval <= elapsed,
            elapsed == interval * q + elapsed % interval,
            elapsed % interval < interval,
            interval > 0,
    ;
}

/// A complete catch-up on a backlog of `elapsed` takes at least
/// `elapsed / (interval + bound)` and at most `elapsed / interval` steps, and
/// exactly `elapsed / interval` when no step is delayed.
pub proof fn lemma_catch_up_count(elapsed: int, interval: int, bound: int, js: Seq<int>)
    requires
        elapsed >= 0,
        interval > 0,
        bound >= 0,
        delays_within(js, bound),
        is_catch_up(elapsed, interval, js),
    ensures
        elapsed / (interval + bound) <= js.len() <= elapsed / interval,
        js.len() * interval <= elapsed,
        delays_within(js, 0) ==> js.len() == due_count(elapsed, interval),
{
    let n = js.len() as int;
    let b = backlog_after(elapsed, interval, js);
    lemma_backlog_lower(elapsed, interval, bound, js);
    lemma_backlog_upper(elapsed, interval, bound, js);
    if n > 0 {
        lemma_without_last(elapsed, interval, bound, js);
        lemma_backlog_upper(elapsed, interval, bound, js.drop_last());
        assert((n - 1) * interval + interval == n * interval) by (nonlinear_arith);
    }
    lemma_fits(elapsed, interval, n);
    lemma_enough_steps(elapsed, interval, bound, n, b);
    if delays_within(js, 0) {
        lemma_fundamental_div_mod_converse(elapsed, interval, n, b);
    }
}

/// Over any number of frames from spawn clock `start` to a last frame at
/// `end`, the spawn count stays within `(end - start) / (interval + bound)`
/// and `(end - start) / interval`, whatever the jitter: the earlier frames
/// spawned `earlier` particles and moved the clock by that many intervals,
/// and the last frame is a complete catch-up with delays `js` from there.
pub proof fn lemma_frames_count(start: int, end: int, interval: int, bound: int, earlier: nat, js: Seq<int>)
    requires
        interval > 0,
        bound >= 0,
        start + earlier * interval <= end,
        delays_within(js, bound),
        is_catch_up(end - (start + earlier * interval), interval, js),
    ensures
        (end - start) / (interval + bound) <= earlier + js.len() <= (end - start) / interval,
        start + (earlier + js.len()) * interval <= end,
{
    let e = end - (start + earlier * interval);
    let n: int = earlier + js.len() as int;
    lemma_catch_up_count(e, interval, bound, js);
    lemma_backlog_lower(e, interval, bound, js);
    let b = backlog_after(e, interval, js);
    assert(n * interval == earlier * interval + js.len() * interval) by (nonlinear_arith)
        requires
            n == earlier + js.len(),
    ;
    assert(earlier * interval <= earlier * (interval + bound)) by (nonlinear_arith)
        requires
            bound >= 0,
    ;
    assert(n * (interval + bound) == earlier * (interval + bound) + js.len() * (interval + bound)) by (nonlinear_arith)
        requires
            n == earlier + js.len(),
    ;
    lemma_fits(end - start, interval, n);
    lemma_enough_steps(end - start, interval, bound, n, b);
}

/// Spawns of consecutive frames continue one grid: the creation times of
/// `n1` spawns after `last`, followed by those of `n2` spawns after the
/// advanced spawn clock, are the times of `n1 + n2` spawns after `last`, so
/// no creation time is repeated or skipped between frames, whatever the jitter.
pub proof fn lemma_grid_continues(last: int, interval: int, n1: nat, n2: nat)
    ensures
        spawn_grid(last, interval, n1) + spawn_grid(last + n1 * interval, interval, n2)
            == spawn_grid(last, interval, n1 + n2),
{
    let a = spawn_grid(last, interval, n1);
    let b = spawn_grid(last + n1 * interval, interval, n2);
    let c = spawn_grid(last, interval, n1 + n2);
    assert forall|k: int| 0 <= k < c.len() implies #[trigger] (a + b)[k] == c[k] by {
        if k >= n1 {
            let m = k - n1;
            assert((last + n1 * interval) + (m + 1) * interval == last + (k + 1) * interval)
                by (nonlinear_arith)
                requires
                    m == k - n1,
            ;
        }
    }
    assert(a + b =~= c);
}

/// Without jitter, catching up in two frames, at `t1` and then at `t2`,
/// spawns as many particles as catching up once at `t2`.
pub proof fn lemma_catch_up_split(last: int, t1: int, t2: int, interval: int)
    requires
        interval > 0,
        last <= t1 <= t2,
    ensures
        ({
            let n1 = due_count(t1 - last, interval);
            let n2 = due_count(t2 - (last + n1 * interval), interval);
            &&& 0 <= n1
            &&& 0 <= n2
            &&& last + n1 * interval <= t1
            &&& n1 + n2 == due_count(t2 - last, interval)
        }),
{
    let n1 = due_count(t1 - last, interval);
    lemma_fundamental_div_mod(t1 - last, interval);
    assert(0 <= n1) by (nonlinear_arith)
        requires
            t1 - last >= 0,
            interval > 0,
            n1 == (t1 - last) / interval,
    ;
    assert(n1 * interval <= t1 - last) by (nonlinear_arith)
        requires
            t1 - last == interval * n1 + (t1 - last) % interval,
            (t1 - last) % interval >= 0,
    ;
    let rest = t2 - (last + n1 * interval);
    let n2 = due_count(rest, interval);
    lemma_fundamental_div_mod(rest, interval);
    assert(0 <= n2) by (nonlinear_arith)
        requires
            rest >= 0,
            interval > 0,
            n2 == rest / interval,
    ;
    let r = rest % interval;
    assert(t2 - last == (n1 + n2) * interval + r) by (nonlinear_arith)
        requires
            rest == interval * n2 + r,
            rest == t2 - (last + n1 * interval),
    ;
    lemma_fundamental_div_mod_converse(t2 - last, interval, n1 + n2, r);
}

/// Spawns over a run of frames, given how many each frame made.
pub open spec fn total(ns: Seq<nat>) -> nat
    decreases ns.len(),
{
    if ns.len() == 0 { 0 } else { ns[0] + total(ns.drop_first()) }
}

/// Creation times over a run of frames that made `ns` spawns each, every frame
/// going on from the spawn clock the previous one left.
pub open spec fn frames_grid(last: int, interval: int, ns: Seq<nat>) -> Seq<int>
    decreases ns.len(),
{
    if ns.len() == 0 {
        Seq::empty()
    } else {
        spawn_grid(last, interval, ns[0]) + frames_grid(last + ns[0] * interval, interval, ns.drop_first())
    }
}

/// Spawn counts of frames at clock readings `nows` without jitter: each frame
/// spawns the whole intervals of its backlog, none before the spawn clock.
pub open spec fn jitterless_counts(last: int, interval: int, nows: Seq<int>) -> Seq<nat>
    decreases nows.len(),
{
    if nows.len() == 0 {
        Seq::empty()
    } else {
        let n: nat = if nows[0] >= last { due_count(nows[0] - last, interval) as nat } else { 0 };
        seq![n] + jitterless_counts(last + n * interval, interval, nows.drop_first())
    }
}

/// Over any number of frames, whatever the jitter, the creation times are the
/// grid after the starting spawn clock, one per interval: none is lost or
/// repeated.
pub proof fn lemma_frames_grid(last: int, interval: int, ns: Seq<nat>)
    ensures
        frames_grid(last, interval, ns) == spawn_grid(last, interval, total(ns)),
    decreases ns.len(),
{
    if ns.len() > 0 {
        lemma_frames_grid(last + ns[0] * interval, interval, ns.drop_first());
        lemma_grid_continues(last, interval, ns[0], total(ns.drop_first()));
    } else {
        assert(spawn_grid(last, interval, 0) =~= Seq::empty());
    }
}

/// Without jitter, frames at any clock readings that never go back, the last
/// at `end` no earlier than the spawn clock, spawn as many particles in all as
/// one frame at `end`.
pub proof fn lemma_frames_split(last: int, interval: int, nows: Seq<int>)
    requires
        interval > 0,
        nows.len() > 0,
        last <= nows.last(),
        forall|i: int, j: int| 0 <= i <= j < nows.len() ==> nows[i] <= nows[j],
    ensures
        total(jitterless_counts(last, interval, nows)) == due_count(nows.last() - last, interval),
    decreases nows.len(),
{
    let rest = nows.drop_first();
    let ns = jitterless_counts(last, interval, nows);
    let n: nat = if nows[0] >= last { due_count(nows[0] - last, interval) as nat } else { 0 };
    let next = last + n * interval;
    assert(ns.drop_first() =~= jitterless_counts(next, interval, rest));
    if nows[0] >= last {
        lemma_catch_up_split(last, nows[0], nows.last(), interval);
    }
    if rest.len() == 0 {
        assert(nows.last() == nows[0]);
        assert(total(ns.drop_first()) == 0);
    } else {
        assert(rest.last() == nows.last());
        assert forall|i: int, j: int| 0 <= i <= j < rest.len() implies rest[i] <= rest[j] by {
            assert(rest[i] == nows[i + 1] && rest[j] == nows[j + 1]);
        }
        if nows[0] < last {
            assert(next == last);
        }
        lemma_frames_split(next, interval, rest);
    }
}

} // verus!
