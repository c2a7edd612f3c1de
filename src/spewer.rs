use vstd::prelude::*;
use nanorand::WyRand;
use crate::jitter::{entropy_rng, fork_rng, sample_jitter, seeded_rng};
use crate::particle::TimeCreated;
use crate::schedule::{
    backlog, backlog_after, consume_backlog, delays_within, due_count, is_catch_up, lemma_catch_up_count,
    lemma_one_more_step, spawn_grid, steps_covered,
};

verus! {

/// The spawn period an emitter starts with: one sixtieth of a second as a
/// single-precision float holds it, which is slightly above the exact value,
/// rounded to the nearest nanosecond, as `Duration::from_secs_f32` does.
pub const DEFAULT_INTERVAL_NANOS: u64 = 16_666_668;

/// An emitter's timing state: it spawns one particle every `interval`
/// nanoseconds, each spawn delayed by up to `jitter` more, and places its
/// particles as its children (`use_global_coords == false`) or as free
/// particles that carry a copy of its world pose.
pub struct Spewer {
    pub interval: u64,
    pub jitter: u64,
    pub last_spawn: u64,
    pub use_global_coords: bool,
    pub rng: WyRand,
}

/// One particle that the scheduler asks the host to create.
#[derive(Clone, Copy, Debug, PartialEq, Eq, Structural)]
pub struct Spawn {
    /// Its creation time on the spawn grid, which may lie before the current frame.
    pub time_created: TimeCreated,
    /// Whether it becomes a child of the emitter (local coordinates).
    pub parent_to_emitter: bool,
}

/// The creation times of a list of spawns.
pub open spec fn creation_times(s: Seq<Spawn>) -> Seq<int> {
    s.map_values(|x: Spawn| x.time_created.0 as int)
}

impl Spewer {
    /// An emitter can be scheduled only with a positive interval.
    pub open spec fn wf(&self) -> bool {
        self.interval > 0
    }

    /// The same timing and placement settings as `other`.
    pub open spec fn same_settings(&self, other: &Spewer) -> bool {
        &&& self.interval == other.interval
        &&& self.jitter == other.jitter
        &&& self.use_global_coords == other.use_global_coords
    }

    /// An emitter with the default interval, no jitter, local coordinates and
    /// an entropy-seeded generator, whose spawn clock starts at `now`.
    pub fn new(now: u64) -> (r: Spewer)
        ensures
            r.wf(),
            r.interval == DEFAULT_INTERVAL_NANOS,
            r.jitter == 0,
            r.last_spawn == now,
            !r.use_global_coords,
    {
        Spewer {
            interval: DEFAULT_INTERVAL_NANOS,
            jitter: 0,
            last_spawn: now,
            use_global_coords: false,
            rng: entropy_rng(),
        }
    }

    /// Like `new`, with a generator seeded by `seed`, so that the jitter
    /// sequence is reproducible.
    pub fn seeded(seed: u64, now: u64) -> (r: Spewer)
        ensures
            r.wf(),
            r.interval == DEFAULT_INTERVAL_NANOS,
            r.jitter == 0,
            r.last_spawn == now,
            !r.use_global_coords,
    {
        Spewer {
            interval: DEFAULT_INTERVAL_NANOS,
            jitter: 0,
            last_spawn: now,
            use_global_coords: false,
            rng: seeded_rng(seed),
        }
    }

    /// A second emitter with this one's settings and spawn clock, whose
    /// generator is a fork of this one's: both continue the same sequence.
    pub fn instance(&self) -> (r: Spewer)
        ensures
            r.same_settings(self),
            r.last_spawn == self.last_spawn,
            r.rng == self.rng,
    {
        Spewer {
            interval: self.interval,
            jitter: self.jitter,
            last_spawn: self.last_spawn,
            use_global_coords: self.use_global_coords,
            rng: fork_rng(&self.rng),
        }
    }

    /// Sets the spawn period and the jitter bound; refuses a zero interval,
    /// which would never finish catching up, and then leaves `self` as it was.
    pub fn set_timing(&mut self, interval: u64, jitter: u64) -> (r: bool)
        ensures
            r == (interval > 0),
            r ==> final(self).interval == interval && final(self).jitter == jitter,
            !r ==> final(self).interval == old(self).interval && final(self).jitter == old(self).jitter,
            final(self).last_spawn == old(self).last_spawn,
            final(self).use_global_coords == old(self).use_global_coords,
            final(self).rng == old(self).rng,
    {
        if interval == 0 {
            return false;
        }
        self.interval = interval;
        self.jitter = jitter;
        true
    }
}

/// One frame of the scheduler for one emitter at clock reading `now`.
///
/// The backlog `now - last_spawn` is worked off one step at a time while it
/// still covers a whole interval; each step also consumes a fresh random
/// delay of at most `jitter`, while `last_spawn` moves by exactly one
/// interval, so the creation times stay on the emitter's grid. Each step
/// yields one spawn stamped with the advanced `last_spawn`. Without a clock
/// reading, or with one before `last_spawn`, nothing happens.
pub fn spawn_particles(spewer: &mut Spewer, now: Option<u64>) -> (r: Vec<Spawn>)
    requires
        old(spewer).wf(),
    ensures
        final(spewer).wf(),
        final(spewer).same_settings(old(spewer)),
        final(spewer).last_spawn == old(spewer).last_spawn + r@.len() * old(spewer).interval,
        creation_times(r@) == spawn_grid(old(spewer).last_spawn as int, old(spewer).interval as int, r@.len()),
        forall|k: int| 0 <= k < r@.len() ==> (#[trigger] r@[k]).parent_to_emitter == !old(spewer).use_global_coords,
        backlog(old(spewer).last_spawn as int, now) is None ==> r@.len() == 0,
        r@.len() == 0 ==> *final(spewer) == *old(spewer),
        backlog(old(spewer).last_spawn as int, now) is Some ==> {
            let e = backlog(old(spewer).last_spawn as int, now)->0;
            let i = old(spewer).interval as int;
            let j = old(spewer).jitter as int;
            &&& exists|js: Seq<int>| js.len() == r@.len() && delays_within(js, j) && is_catch_up(e, i, js)
            &&& e / (i + j) <= r@.len() <= e / i
            &&& j == 0 ==> r@.len() == due_count(e, i)
            &&& final(spewer).last_spawn <= now->0
        },
{
    let mut out: Vec<Spawn> = Vec::new();
    let t: u64 = match now {
        Some(t) => t,
        None => return out,
    };
    if t < spewer.last_spawn {
        return out;
    }
    let ghost e: int = t - spewer.last_spawn;
    let ghost js: Seq<int> = Seq::empty();
    let interval: u64 = spewer.interval;
    let jitter: u64 = spewer.jitter;
    let parent: bool = !spewer.use_global_coords;
    let mut remaining: u64 = t - spewer.last_spawn;
    assert(backlog_after(e, interval as int, js) == e);
    while remaining >= interval
        invariant
            spewer.wf(),
            spewer.same_settings(old(spewer)),
            interval == old(spewer).interval,
            jitter == old(spewer).jitter,
            parent == !old(spewer).use_global_coords,
            t >= spewer.last_spawn,
            remaining <= t - spewer.last_spawn,
            remaining == backlog_after(e, interval as int, js),
            js.len() == out@.len(),
            delays_within(js, jitter as int),
            steps_covered(e, interval as int, js),
            out@.len() == 0 ==> *spewer == *old(spewer),
            spewer.last_spawn == old(spewer).last_spawn + out@.len() * interval,
            forall|k: int| 0 <= k < out@.len() ==> (#[trigger] out@[k]).time_created.0 == old(spewer).last_spawn + (k + 1) * interval,
            forall|k: int| 0 <= k < out@.len() ==> (#[trigger] out@[k]).parent_to_emitter == parent,
        decreases remaining,
    {
        let delay: u64 = sample_jitter(&mut spewer.rng, jitter);
        proof {
            lemma_one_more_step(e, interval as int, js, delay as int);
            js = js.push(delay as int);
        }
        remaining = consume_backlog(remaining, interval, delay);
        spewer.last_spawn = spewer.last_spawn + interval;
        out.push(Spawn { time_created: TimeCreated(spewer.last_spawn), parent_to_emitter: parent });
        proof {
            assert((out@.len() - 1) * interval + interval == out@.len() * interval) by (nonlinear_arith);
        }
    }
    proof {
        lemma_catch_up_count(e, interval as int, jitter as int, js);
        assert(creation_times(out@) =~= spawn_grid(old(spewer).last_spawn as int, interval as int, out@.len()));
    }
    out
}

} // verus!
