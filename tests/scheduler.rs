use spew::jitter::{jitter_from_draws, sample_jitter, NANOS_PER_SEC};
use spew::schedule::consume_backlog;
use spew::particle::TimeCreated;
use spew::spewer::{spawn_particles, Spewer, DEFAULT_INTERVAL_NANOS};

const MS: u64 = 1_000_000;

fn emitter(interval: u64, jitter: u64, start: u64, seed: u64) -> Spewer {
    let mut s = Spewer::seeded(seed, start);
    assert!(s.set_timing(interval, jitter));
    s
}

#[test]
fn new_emitter_defaults() {
    let s = Spewer::new(42);
    assert_eq!(s.interval, DEFAULT_INTERVAL_NANOS);
    assert_eq!(s.jitter, 0);
    assert_eq!(s.last_spawn, 42);
    assert!(!s.use_global_coords);
}

#[test]
fn zero_interval_is_refused() {
    let mut s = Spewer::seeded(1, 0);
    assert!(!s.set_timing(0, 5));
    assert_eq!(s.interval, DEFAULT_INTERVAL_NANOS);
    assert_eq!(s.jitter, 0);
    assert!(s.set_timing(7, 5));
    assert_eq!(s.interval, 7);
    assert_eq!(s.jitter, 5);
}

#[test]
fn large_step_without_jitter_spawns_whole_intervals_on_grid() {
    let start = 5 * NANOS_PER_SEC;
    let mut s = emitter(100 * MS, 0, start, 9);
    let spawned = spawn_particles(&mut s, Some(start + 1050 * MS));
    assert_eq!(spawned.len(), 10);
    for (k, sp) in spawned.iter().enumerate() {
        assert_eq!(sp.time_created, TimeCreated(start + (k as u64 + 1) * 100 * MS));
    }
    assert_eq!(s.last_spawn, start + 1000 * MS);
}

#[test]
fn exact_multiple_spawns_at_now() {
    let mut s = emitter(10, 0, 0, 3);
    let spawned = spawn_particles(&mut s, Some(30));
    assert_eq!(spawned.len(), 3);
    assert_eq!(spawned[2].time_created, TimeCreated(30));
    assert_eq!(s.last_spawn, 30);
}

#[test]
fn less_than_an_interval_spawns_nothing() {
    let mut s = emitter(10, 0, 100, 3);
    assert!(spawn_particles(&mut s, Some(109)).is_empty());
    assert_eq!(s.last_spawn, 100);
}

#[test]
fn no_clock_reading_spawns_nothing() {
    let mut s = emitter(10, 0, 100, 3);
    assert!(spawn_particles(&mut s, None).is_empty());
    assert_eq!(s.last_spawn, 100);
}

#[test]
fn clock_before_last_spawn_spawns_nothing() {
    let mut s = emitter(10, 0, 100, 3);
    assert!(spawn_particles(&mut s, Some(50)).is_empty());
    assert_eq!(s.last_spawn, 100);
}

#[test]
fn jittered_count_stays_within_bounds() {
    let interval = 10 * MS;
    let jitter = 5 * MS;
    let total = 1000 * MS;
    for seed in 0..200u64 {
        let mut s = emitter(interval, jitter, 0, seed);
        let spawned = spawn_particles(&mut s, Some(total));
        let n = spawned.len() as u64;
        assert!(n >= total / (interval + jitter), "seed {seed}: {n}");
        assert!(n <= total / interval, "seed {seed}: {n}");
        for (k, sp) in spawned.iter().enumerate() {
            assert_eq!(sp.time_created.0, (k as u64 + 1) * interval);
        }
    }
}

#[test]
fn jitter_actually_delays_some_spawns() {
    let interval = 10 * MS;
    let total = 1000 * MS;
    let mut fewer = false;
    for seed in 0..50u64 {
        let mut s = emitter(interval, 10 * MS, 0, seed);
        if (spawn_particles(&mut s, Some(total)).len() as u64) < total / interval {
            fewer = true;
        }
    }
    assert!(fewer);
}

#[test]
fn many_small_steps_match_one_large_step() {
    let interval = 7 * MS;
    let end = 1003 * MS;
    let mut whole = emitter(interval, 0, 0, 11);
    let one: Vec<u64> = spawn_particles(&mut whole, Some(end)).iter().map(|s| s.time_created.0).collect();
    let mut split = emitter(interval, 0, 0, 11);
    let mut many: Vec<u64> = Vec::new();
    let mut t = 0u64;
    while t < end {
        t = (t + 3 * MS + 1).min(end);
        many.extend(spawn_particles(&mut split, Some(t)).iter().map(|s| s.time_created.0));
    }
    assert_eq!(one.len() as u64, end / interval);
    assert_eq!(one, many);
    assert_eq!(whole.last_spawn, split.last_spawn);
}

#[test]
fn frames_split_with_jitter_never_repeat_a_creation_time() {
    let interval = 5 * MS;
    let mut s = emitter(interval, 3 * MS, 0, 21);
    let mut times: Vec<u64> = Vec::new();
    for frame in 1..=100u64 {
        times.extend(spawn_particles(&mut s, Some(frame * 16 * MS)).iter().map(|x| x.time_created.0));
    }
    for (k, t) in times.iter().enumerate() {
        assert_eq!(*t, (k as u64 + 1) * interval);
    }
    assert!(*times.last().unwrap() <= 1600 * MS);
}

#[test]
fn local_mode_parents_every_spawn() {
    let mut s = emitter(10, 0, 0, 1);
    let spawned = spawn_particles(&mut s, Some(55));
    assert_eq!(spawned.len(), 5);
    assert!(spawned.iter().all(|x| x.parent_to_emitter));
}

#[test]
fn global_mode_parents_no_spawn() {
    let mut s = emitter(10, 0, 0, 1);
    s.use_global_coords = true;
    let spawned = spawn_particles(&mut s, Some(55));
    assert_eq!(spawned.len(), 5);
    assert!(spawned.iter().all(|x| !x.parent_to_emitter));
}

#[test]
fn instance_copies_settings_and_forks_the_sequence() {
    let mut a = emitter(10 * MS, 4 * MS, 0, 77);
    a.use_global_coords = true;
    let mut b = a.instance();
    assert_eq!(b.interval, a.interval);
    assert_eq!(b.jitter, a.jitter);
    assert_eq!(b.last_spawn, a.last_spawn);
    assert!(b.use_global_coords);
    let ra = spawn_particles(&mut a, Some(500 * MS));
    let rb = spawn_particles(&mut b, Some(500 * MS));
    assert_eq!(ra, rb);
}

#[test]
fn same_seed_gives_same_spawns() {
    let mut a = emitter(10 * MS, 9 * MS, 0, 5);
    let mut b = emitter(10 * MS, 9 * MS, 0, 5);
    assert_eq!(spawn_particles(&mut a, Some(2000 * MS)), spawn_particles(&mut b, Some(2000 * MS)));
}

#[test]
fn jitter_samples_stay_within_bound() {
    let mut s = Spewer::seeded(123, 0);
    for bound in [0u64, 1, 999, NANOS_PER_SEC - 1, NANOS_PER_SEC, 2 * NANOS_PER_SEC + 500, u64::MAX] {
        for _ in 0..100 {
            assert!(sample_jitter(&mut s.rng, bound) <= bound);
        }
    }
    assert_eq!(sample_jitter(&mut s.rng, 0), 0);
}

#[test]
fn jitter_samples_vary() {
    let mut s = Spewer::seeded(99, 0);
    let bound = 3 * NANOS_PER_SEC + 250 * MS;
    let draws: Vec<u64> = (0..50).map(|_| sample_jitter(&mut s.rng, bound)).collect();
    assert!(draws.iter().any(|d| *d != bound));
    assert!(draws.iter().any(|d| *d != draws[0]));
    assert!(draws.iter().any(|d| *d >= NANOS_PER_SEC));
}

#[test]
fn draws_combine_into_nanoseconds() {
    let bound = 2 * NANOS_PER_SEC + 400;
    assert_eq!(jitter_from_draws(bound, 2, 400), bound);
    assert_eq!(jitter_from_draws(bound, 1, 7), NANOS_PER_SEC + 7);
    assert_eq!(jitter_from_draws(bound, 0, 0), 0);
    assert_eq!(jitter_from_draws(999, 0, 999), 999);
}

#[test]
fn sampled_jitter_parts_stay_within_bound_parts() {
    let mut s = Spewer::seeded(4, 0);
    let bound = 3 * NANOS_PER_SEC + 200;
    for _ in 0..200 {
        let j = sample_jitter(&mut s.rng, bound);
        assert!(j / NANOS_PER_SEC <= 3);
        assert!(j % NANOS_PER_SEC <= 200);
    }
}

#[test]
fn backlog_step_consumes_interval_and_delay() {
    assert_eq!(consume_backlog(100, 30, 5), 65);
    assert_eq!(consume_backlog(30, 30, 0), 0);
    assert_eq!(consume_backlog(35, 30, 10), 0);
    assert_eq!(consume_backlog(u64::MAX, u64::MAX, u64::MAX), 0);
    assert_eq!(consume_backlog(u64::MAX, 1, 2), u64::MAX - 3);
}

#[test]
fn skipped_frame_leaves_generator_untouched() {
    let mut a = emitter(10 * MS, 5 * MS, 100 * MS, 8);
    let mut b = a.instance();
    assert!(spawn_particles(&mut a, None).is_empty());
    assert!(spawn_particles(&mut a, Some(50 * MS)).is_empty());
    assert_eq!(spawn_particles(&mut a, Some(900 * MS)), spawn_particles(&mut b, Some(900 * MS)));
}

#[test]
fn jittered_count_over_many_frames_stays_within_bounds() {
    let interval = 10 * MS;
    let jitter = 6 * MS;
    let end = 2000 * MS;
    for seed in 0..50u64 {
        let mut s = emitter(interval, jitter, 0, seed);
        let mut n = 0u64;
        let mut t = 0u64;
        while t < end {
            t = (t + 37 * MS).min(end);
            n += spawn_particles(&mut s, Some(t)).len() as u64;
        }
        assert!(n >= end / (interval + jitter) && n <= end / interval, "seed {seed}: {n}");
        assert_eq!(s.last_spawn, n * interval);
    }
}

#[test]
fn default_interval_is_one_sixtieth_second_as_single_precision() {
    assert_eq!(DEFAULT_INTERVAL_NANOS, 16_666_668);
    assert_eq!(Spewer::seeded(3, 0).interval, 16_666_668);
}

#[test]
fn jitterless_frames_at_any_split_match_one_frame() {
    let interval = 13;
    let end = 10_000u64;
    let mut whole = emitter(interval, 0, 7, 2);
    let one = spawn_particles(&mut whole, Some(end));
    for stride in [1u64, 5, 12, 13, 14, 97, 2500] {
        let mut split = emitter(interval, 0, 7, 2);
        let mut many = Vec::new();
        let mut t = 0u64;
        while t < end {
            t = (t + stride).min(end);
            many.extend(spawn_particles(&mut split, Some(t)));
        }
        assert_eq!(many, one, "stride {stride}");
        assert_eq!(split.last_spawn, whole.last_spawn);
    }
}

#[test]
fn failed_set_timing_keeps_generator() {
    let mut a = emitter(10 * MS, 5 * MS, 0, 31);
    let mut b = a.instance();
    assert!(!a.set_timing(0, 1));
    assert_eq!(spawn_particles(&mut a, Some(700 * MS)), spawn_particles(&mut b, Some(700 * MS)));
}
