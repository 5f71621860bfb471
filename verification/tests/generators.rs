use velvet_noise::locations::place;
use velvet_noise::{
    Choice, ChunkedOVNImpulseLocations, ConfigError, CrushedOriginalVelvetNoise,
    OVNImpulseLocations, VelvetNoise, VelvetNoiseKernel,
};

fn assert_close_enough(value: f32, expected: f32, range: f32) {
    assert!(value >= expected - range);
    assert!(value <= expected + range);
}

fn mean_of(mut c: Choice, draws: usize) -> f32 {
    let mut total: f32 = 0.;
    for _ in 0..draws {
        total += c.next().unwrap() as f32;
    }
    total / draws as f32
}

#[test]
fn window_size() {
    let vil = OVNImpulseLocations::new(441, 44100, 17).unwrap();
    assert_eq!(vil.td(), 100);
}

#[test]
fn iter_locations() {
    let density = 2000;
    let sample_rate = 96000;
    let seconds = 100;
    let until = sample_rate * seconds;

    let mut vil = OVNImpulseLocations::new(density, sample_rate, 17).unwrap();
    let num_impulses = vil.take_below(until).len();

    assert_eq!(num_impulses / seconds, density);
}

#[test]
fn iter_chunked_locations() {
    let density = 2000;
    let sample_rate = 96000;
    let seconds = 100;
    let until = sample_rate * seconds;
    let chunk_size = 960;

    let mut cvil = ChunkedOVNImpulseLocations::new(density, sample_rate, chunk_size, 23).unwrap();
    let mut num_impulses = 0;
    for _ in 0..(until / chunk_size) {
        num_impulses += cvil.next().unwrap().len();
    }

    assert_eq!(num_impulses / seconds, density);
}

#[test]
fn single_chunk() {
    let density = 2000;
    let sample_rate = 96000;

    let chunk = ChunkedOVNImpulseLocations::new(density, sample_rate, 960, 23).unwrap().next().unwrap();
    println!("{:?}", chunk);
}

#[test]
fn classic_choice_is_even() {
    let c = Choice::classic(43);
    assert_close_enough(mean_of(c, 1_000_000), 0., 0.01);
}

#[test]
fn crushed_choice_can_skew_positive() {
    let c = Choice::crushed(3, 4, 47).unwrap();
    assert_close_enough(mean_of(c, 1_000_000), 0.5, 0.01);
}

#[test]
fn crushed_choice_can_skew_negative() {
    let c = Choice::crushed(1, 4, 47).unwrap();
    assert_close_enough(mean_of(c, 1_000_000), -0.5, 0.01);
}

#[test]
fn kernel_init() {
    let mut kern =
        VelvetNoiseKernel::new(OVNImpulseLocations::new(10, 20, 17).unwrap(), Choice::classic(43));

    kern.next().unwrap();
    for _ in 0..10 {
        let (i, x) = kern.next().unwrap();
        assert!(i > 0);
        assert_ne!(x as f32, 0.);
    }
}

#[test]
fn iter_noise_samples() {
    let density = 2000;
    let sample_rate = 96000;

    let mut noise = VelvetNoise::new(density, sample_rate, 37, 41).unwrap();
    let mut samples: Vec<f32> = Vec::new();
    for _ in 0..sample_rate {
        samples.push(noise.next().unwrap() as f32);
    }

    assert_eq!(samples.iter().map(|s| *s as i32).max(), Some(1));
    assert_eq!(samples.iter().map(|s| *s as i32).min(), Some(-1));
    assert_eq!(samples.iter().map(|s| (*s).abs()).sum::<f32>(), density as f32);
}

#[test]
fn iter_crushed_noise_samples() {
    let density = 8000;
    let sample_rate = 96000;

    let mut noise = CrushedOriginalVelvetNoise::new(density, sample_rate, 3, 4, 29, 31).unwrap();
    let mut samples: Vec<f32> = Vec::new();
    for _ in 0..sample_rate {
        samples.push(noise.next().unwrap() as f32);
    }

    assert_eq!(samples.iter().cloned().fold(f32::NAN, f32::max), 1.);
    assert_eq!(samples.iter().cloned().fold(f32::NAN, f32::min), -1.);
    assert!(samples.iter().cloned().sum::<f32>() > 0.);
}

#[test]
fn zero_density_is_refused() {
    assert_eq!(OVNImpulseLocations::new(0, 44100, 17).err(), Some(ConfigError::ZeroDensity));
    assert_eq!(
        ChunkedOVNImpulseLocations::new(0, 44100, 10, 23).err(),
        Some(ConfigError::ZeroDensity)
    );
    assert_eq!(VelvetNoise::new(0, 44100, 37, 41).err(), Some(ConfigError::ZeroDensity));
}

#[test]
fn zero_sample_rate_is_refused() {
    assert_eq!(OVNImpulseLocations::new(5, 0, 17).err(), Some(ConfigError::ZeroSampleRate));
}

#[test]
fn density_above_sample_rate_is_refused() {
    assert_eq!(
        OVNImpulseLocations::new(44101, 44100, 17).err(),
        Some(ConfigError::DensityAboveSampleRate)
    );
    assert!(OVNImpulseLocations::new(44100, 44100, 17).is_ok());
}

#[test]
fn skew_must_lie_strictly_between_zero_and_one() {
    assert_eq!(Choice::crushed(0, 4, 47).err(), Some(ConfigError::SkewOutOfRange));
    assert_eq!(Choice::crushed(4, 4, 47).err(), Some(ConfigError::SkewOutOfRange));
    assert_eq!(Choice::crushed(5, 4, 47).err(), Some(ConfigError::SkewOutOfRange));
    assert_eq!(Choice::crushed(1, 0, 47).err(), Some(ConfigError::SkewOutOfRange));
    assert!(Choice::crushed(1, 2, 47).is_ok());
}

#[test]
fn crushed_noise_checks_the_grid_before_the_skew() {
    assert_eq!(
        CrushedOriginalVelvetNoise::new(0, 96000, 0, 0, 29, 31).err(),
        Some(ConfigError::ZeroDensity)
    );
    assert_eq!(
        CrushedOriginalVelvetNoise::new(8000, 96000, 4, 3, 29, 31).err(),
        Some(ConfigError::SkewOutOfRange)
    );
}

#[test]
fn period_is_the_floor_of_the_quotient() {
    assert_eq!(OVNImpulseLocations::new(7, 100, 17).unwrap().td(), 14);
    assert_eq!(OVNImpulseLocations::new(100, 100, 17).unwrap().td(), 1);
    assert_eq!(OVNImpulseLocations::new(2000, 96000, 17).unwrap().td(), 48);
}

#[test]
fn every_location_lies_in_its_own_cell() {
    let mut vil = OVNImpulseLocations::new(441, 44100, 17).unwrap();
    for m in 0..10_000usize {
        let v = vil.next().unwrap();
        assert!(m * 100 <= v);
        assert!(v < (m + 1) * 100);
    }
}

#[test]
fn locations_strictly_increase() {
    let mut vil = OVNImpulseLocations::new(3, 7, 17).unwrap();
    let mut last = vil.next().unwrap();
    for _ in 0..10_000 {
        let v = vil.next().unwrap();
        assert!(v > last);
        last = v;
    }
}

#[test]
fn a_period_of_one_yields_every_index() {
    let mut vil = OVNImpulseLocations::new(8, 8, 17).unwrap();
    for m in 0..100usize {
        assert_eq!(vil.next(), Some(m));
    }
}

#[test]
fn take_below_counts_the_cells_below_the_limit() {
    let mut vil = OVNImpulseLocations::new(10, 70, 17).unwrap();
    let got = vil.take_below(700);
    assert_eq!(got.len(), 100);
    assert!(got.iter().all(|v| *v < 700));
    let mut odd = OVNImpulseLocations::new(10, 70, 17).unwrap();
    let n = odd.take_below(703).len();
    assert!(n == 100 || n == 101);
    let mut none = OVNImpulseLocations::new(10, 70, 17).unwrap();
    assert_eq!(none.take_below(0), Vec::<usize>::new());
}

#[test]
fn take_below_resumes_after_the_location_that_stopped_it() {
    let mut vil = OVNImpulseLocations::new(1, 10, 17).unwrap();
    assert_eq!(vil.take_below(30).len(), 3);
    let v = vil.next().unwrap();
    assert!(40 <= v && v < 50);
}

#[test]
fn chunks_hold_only_their_own_window_and_lose_nothing() {
    let chunk_size = 960;
    let mut cvil = ChunkedOVNImpulseLocations::new(2000, 96000, chunk_size, 23).unwrap();
    let mut all: Vec<usize> = Vec::new();
    for w in 0..1000usize {
        let chunk = cvil.next().unwrap();
        assert_eq!(chunk.len(), 20);
        for v in chunk.iter() {
            assert!(w * chunk_size <= *v && *v < (w + 1) * chunk_size);
        }
        all.extend(chunk);
    }
    for (m, v) in all.iter().enumerate() {
        assert!(m * 48 <= *v && *v < (m + 1) * 48);
    }
}

#[test]
fn windows_shorter_than_the_period_may_be_empty() {
    let mut cvil = ChunkedOVNImpulseLocations::new(1, 100, 10, 23).unwrap();
    let mut count = 0;
    for w in 0..100usize {
        let chunk = cvil.next().unwrap();
        assert!(chunk.len() <= 1);
        for v in chunk.iter() {
            assert!(w * 10 <= *v && *v < (w + 1) * 10);
        }
        count += chunk.len();
    }
    assert_eq!(count, 10);
}

#[test]
fn windows_of_no_length_are_empty() {
    let mut cvil = ChunkedOVNImpulseLocations::new(1, 100, 0, 23).unwrap();
    for _ in 0..5 {
        assert_eq!(cvil.next(), Some(Vec::new()));
    }
}

#[test]
fn every_sign_is_one_or_minus_one() {
    let mut c = Choice::crushed(1, 3, 47).unwrap();
    for _ in 0..10_000 {
        let x = c.next().unwrap();
        assert!(x == 1 || x == -1);
    }
}

#[test]
fn sign_of_a_trial() {
    assert_eq!(velvet_noise::choice::sign_of(true), 1);
    assert_eq!(velvet_noise::choice::sign_of(false), -1);
}

#[test]
fn noise_sounds_once_in_every_cell() {
    let mut noise = VelvetNoise::new(10, 100, 37, 41).unwrap();
    for _ in 0..50 {
        let mut sounded = 0;
        for _ in 0..10 {
            let x = noise.next().unwrap();
            assert!(x == 0 || x == 1 || x == -1);
            if x != 0 {
                sounded += 1;
            }
        }
        assert_eq!(sounded, 1);
    }
}

#[test]
fn the_same_seed_gives_the_same_locations() {
    let mut a = OVNImpulseLocations::new(2000, 96000, 7).unwrap();
    let mut b = OVNImpulseLocations::new(2000, 96000, 7).unwrap();
    let mut c = OVNImpulseLocations::new(2000, 96000, 8).unwrap();
    let xs = a.take_below(96000);
    let ys = b.take_below(96000);
    let zs = c.take_below(96000);
    assert_eq!(xs.len(), 2000);
    assert_eq!(xs, ys);
    assert_ne!(xs, zs);
    assert_eq!(
        OVNImpulseLocations::new(0, 96000, 7).err(),
        Some(ConfigError::ZeroDensity)
    );
}

#[test]
fn the_same_seed_gives_the_same_signs() {
    let mut a = Choice::crushed(1, 2, 11).unwrap();
    let mut b = Choice::crushed(1, 2, 11).unwrap();
    let mut seen_plus = false;
    let mut seen_minus = false;
    for _ in 0..1000 {
        let x = a.next();
        assert_eq!(x, b.next());
        seen_plus |= x == Some(1);
        seen_minus |= x == Some(-1);
    }
    assert!(seen_plus && seen_minus);
    assert_eq!(Choice::crushed(2, 2, 11).err(), Some(ConfigError::SkewOutOfRange));
}

#[test]
fn every_configuration_error_has_its_words() {
    assert_eq!(ConfigError::ZeroDensity.message(), "density must be greater than zero");
    assert_eq!(ConfigError::ZeroSampleRate.message(), "sample rate must be greater than zero");
    assert_eq!(
        ConfigError::DensityAboveSampleRate.message(),
        "density must not exceed the sample rate"
    );
    assert_eq!(
        ConfigError::SkewOutOfRange.message(),
        "skew must lie strictly between zero and one"
    );
    assert_eq!(ConfigError::ZeroCapacity.message(), "capacity must be greater than zero");
}

#[test]
fn locations_end_where_the_next_cell_would_not_fit() {
    let mut vil = OVNImpulseLocations::new(1, usize::MAX, 17).unwrap();
    let v = vil.next();
    assert!(v.is_some());
    assert_eq!(vil.next(), None);
    assert_eq!(vil.next(), None);
    let mut whole = OVNImpulseLocations::new(1, usize::MAX / 2, 17).unwrap();
    assert!(whole.next().unwrap() < usize::MAX / 2);
    assert!(whole.next().unwrap() >= usize::MAX / 2);
    assert_eq!(whole.next(), None);
}

#[test]
fn windows_end_where_the_next_would_not_fit() {
    let mut cvil = ChunkedOVNImpulseLocations::new(1, usize::MAX, usize::MAX, 23).unwrap();
    let first = cvil.next().unwrap();
    assert_eq!(first.len(), 1);
    assert_eq!(cvil.next(), None);
}

#[test]
fn a_location_is_the_start_of_its_cell_plus_the_jitter() {
    assert_eq!(place(0, 100, 0), Some(0));
    assert_eq!(place(3, 100, 42), Some(342));
    assert_eq!(place(7, 1, 0), Some(7));
    assert_eq!(place(1, usize::MAX / 2, 5), Some(usize::MAX / 2 + 5));
    assert_eq!(place(2, usize::MAX / 2, 0), None);
    assert_eq!(place(usize::MAX, 1, 0), None);
    assert_eq!(place(usize::MAX - 1, 1, 0), Some(usize::MAX - 1));
}

#[test]
fn the_kernel_joins_each_index_with_the_next_sign() {
    let mut kern = VelvetNoiseKernel::new(
        OVNImpulseLocations::new(10, 20, 5).unwrap(),
        Choice::classic(9),
    );
    let mut locations = OVNImpulseLocations::new(10, 20, 5).unwrap();
    let mut signs = Choice::classic(9);
    for _ in 0..1000 {
        let (i, x) = kern.next().unwrap();
        assert_eq!(Some(i), locations.next());
        assert_eq!(Some(x), signs.next());
    }
}

#[test]
fn noise_takes_one_sign_for_each_impulse_and_none_between() {
    let mut noise = VelvetNoise::new(10, 100, 5, 9).unwrap();
    let mut locations = OVNImpulseLocations::new(10, 100, 5).unwrap();
    let mut signs = Choice::classic(9);
    let mut at = locations.next().unwrap();
    for n in 0..5000usize {
        let x = noise.next().unwrap();
        if n == at {
            assert_eq!(Some(x), signs.next());
            at = locations.next().unwrap();
        } else {
            assert_eq!(x, 0);
        }
    }
}
