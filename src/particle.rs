use vstd::prelude::*;

verus! {

/// The instant, in clock nanoseconds, at which a particle was created.
#[derive(Clone, Copy, Debug, PartialEq, Eq, Structural)]
pub struct TimeCreated(pub u64);

/// How long, in nanoseconds, a particle lives after its creation.
#[derive(Clone, Copy, Debug, PartialEq, Eq, Structural)]
pub struct Lifetime(pub u64);

/// The lifetime a particle gets when none is chosen: one second.
pub const DEFAULT_LIFETIME_NANOS: u64 = 1_000_000_000;

impl Default for Lifetime {
    fn default() -> (r: Lifetime)
        ensures
            r.0 == DEFAULT_LIFETIME_NANOS,
    {
        Lifetime(DEFAULT_LIFETIME_NANOS)
    }
}

impl Lifetime {
    /// A lifetime of `nanos`; refuses zero, which leaves no time to
    /// interpolate over.
    pub fn new(nanos: u64) -> (r: Option<Lifetime>)
        ensures
            nanos == 0 ==> r is None,
            nanos > 0 ==> r == Some(Lifetime(nanos)),
    {
        if nanos == 0 { None } else { Some(Lifetime(nanos)) }
    }
}

/// Age of a particle at `now`; a clock reading before the creation counts as
/// no time at all.
pub open spec fn age(now: int, created: int) -> int {
    if now >= created { now - created } else { 0 }
}

/// A particle is due for removal once its age strictly exceeds its lifetime.
pub open spec fn expired_at(now: int, created: int, lifetime: int) -> bool {
    age(now, created) > lifetime
}

/// Time elapsed since `created`, in nanoseconds, saturating at zero.
pub fn elapsed_since(now: u64, created: TimeCreated) -> (r: u64)
    ensures
        r == age(now as int, created.0 as int),
{
    if now >= created.0 { now - created.0 } else { 0 }
}

/// Whether a particle created at `created` with `lifetime` is past its end at `now`.
pub fn is_expired(now: u64, created: TimeCreated, lifetime: Lifetime) -> (r: bool)
    ensures
        r == expired_at(now as int, created.0 as int, lifetime.0 as int),
{
    elapsed_since(now, created) > lifetime.0
}

/// The particles, given as (creation time, lifetime), that the reaper removes
/// at `now`: the positions of exactly the expired ones, each once, in
/// increasing order. Without a clock reading nothing is removed.
pub fn handle_lifetimes(now: Option<u64>, particles: &Vec<(TimeCreated, Lifetime)>) -> (r: Vec<usize>)
    ensures
        now is None ==> r@.len() == 0,
        forall|a: int, b: int| 0 <= a < b < r@.len() ==> r@[a] < r@[b],
        forall|i: int|
            0 <= i < particles@.len() ==> (r@.contains(#[verifier::truncate] (i as usize)) <==> (now is Some
                && expired_at(now->0 as int, particles@[i].0.0 as int, particles@[i].1.0 as int))),
        forall|k: int| 0 <= k < r@.len() ==> r@[k] < particles@.len(),
{
    let mut r: Vec<usize> = Vec::new();
    let t: u64 = match now {
        Some(t) => t,
        None => return r,
    };
    let mut i: usize = 0;
    while i < particles.len()
        invariant
            i <= particles@.len(),
            now == Some(t),
            forall|a: int, b: int| 0 <= a < b < r@.len() ==> r@[a] < r@[b],
            forall|k: int| 0 <= k < r@.len() ==> r@[k] < i,
            forall|j: int|
                0 <= j < i ==> (r@.contains(j as usize) <==> expired_at(
                    t as int,
                    particles@[j].0.0 as int,
                    particles@[j].1.0 as int,
                )),
        decreases particles@.len() - i,
    {
        let (created, lifetime) = particles[i];
        let ghost before = r@;
        if is_expired(t, created, lifetime) {
            r.push(i);
        }
        proof {
            assert forall|j: int| 0 <= j < i + 1 implies (r@.contains(j as usize) <==> expired_at(
                t as int,
                particles@[j].0.0 as int,
                particles@[j].1.0 as int,
            )) by {
                if j < i {
                    if r@.contains(j as usize) {
                        let k = choose|k: int| 0 <= k < r@.len() && r@[k] == j as usize;
                        assert(before[k] == j as usize);
                    }
                    if before.contains(j as usize) {
                        let k = choose|k: int| 0 <= k < before.len() && before[k] == j as usize;
                        assert(r@[k] == j as usize);
                    }
                } else {
                    if r@.contains(j as usize) {
                        let k = choose|k: int| 0 <= k < r@.len() && r@[k] == j as usize;
                        if k < before.len() {
                            assert(before[k] < i);
                        }
                    }
                    if expired_at(t as int, particles@[j].0.0 as int, particles@[j].1.0 as int) {
                        assert(r@[r@.len() - 1] == i);
                    }
                }
            }
        }
        i = i + 1;
    }
    r
}

/// A particle is still present a moment before its lifetime has passed and is
/// removable a moment after.
pub proof fn lemma_lifetime_boundary(created: u64, lifetime: u64, eps: u64)
    requires
        0 < eps <= lifetime,
    ensures
        !expired_at(created + lifetime - eps, created as int, lifetime as int),
        expired_at(created + lifetime + eps, created as int, lifetime as int),
{
}

/// Once a particle is removable it stays removable at every later clock reading.
pub proof fn lemma_expiry_is_permanent(now: int, later: int, created: int, lifetime: int)
    requires
        now <= later,
        lifetime >= 0,
        expired_at(now, created, lifetime),
    ensures
        expired_at(later, created, lifetime),
{
}

/// How many times the reaper reports one particle over frames at the clock
/// readings `nows`, when the host removes the particle after its first report;
/// `present` says whether it still exists before the first of these frames.
pub open spec fn reports(nows: Seq<int>, created: int, lifetime: int, present: bool) -> nat
    decreases nows.len(),
{
    if nows.len() == 0 {
        0
    } else if present && expired_at(nows[0], created, lifetime) {
        1 + reports(nows.drop_first(), created, lifetime, false)
    } else {
        reports(nows.drop_first(), created, lifetime, present)
    }
}

/// A removed particle is never reported again.
proof fn lemma_no_reports_once_gone(nows: Seq<int>, created: int, lifetime: int)
    ensures
        reports(nows, created, lifetime, false) == 0,
    decreases nows.len(),
{
    if nows.len() > 0 {
        lemma_no_reports_once_gone(nows.drop_first(), created, lifetime);
    }
}

/// Over any run of frames a particle is removed exactly once if some frame's
/// clock reading is past its lifetime, and never otherwise; with clock
/// readings that never go back, the frames past its lifetime are all those
/// from the first one on.
pub proof fn lemma_removed_once(nows: Seq<int>, created: int, lifetime: int)
    requires
        lifetime >= 0,
    ensures
        reports(nows, created, lifetime, true) == (if exists|i: int|
            0 <= i < nows.len() && expired_at(#[trigger] nows[i], created, lifetime) { 1nat } else { 0nat }),
        (forall|i: int, j: int| 0 <= i <= j < nows.len() ==> nows[i] <= nows[j]) ==> (forall|i: int, j: int|
            0 <= i <= j < nows.len() && expired_at(#[trigger] nows[i], created, lifetime) ==> expired_at(
                #[trigger] nows[j],
                created,
                lifetime,
            )),
    decreases nows.len(),
{
    if nows.len() > 0 {
        let rest = nows.drop_first();
        lemma_removed_once(rest, created, lifetime);
        if expired_at(nows[0], created, lifetime) {
            lemma_no_reports_once_gone(rest, created, lifetime);
        } else {
            if exists|i: int| 0 <= i < nows.len() && expired_at(#[trigger] nows[i], created, lifetime) {
                let i = choose|i: int| 0 <= i < nows.len() && expired_at(#[trigger] nows[i], created, lifetime);
                assert(rest[i - 1] == nows[i]);
            }
            if exists|i: int| 0 <= i < rest.len() && expired_at(#[trigger] rest[i], created, lifetime) {
                let i = choose|i: int| 0 <= i < rest.len() && expired_at(#[trigger] rest[i], created, lifetime);
                assert(nows[i + 1] == rest[i]);
            }
        }
    }
}

} // verus!
