use velvet_noise::kernel::kernel_fits;
use velvet_noise::{
    BoundaryError, Choice, ConfigError, DelayBuffer, OVNImpulseLocations, Tap, TapSet,
    VelvetNoiseKernel,
};

fn kernel(density: usize, sample_rate: usize) -> VelvetNoiseKernel {
    VelvetNoiseKernel::new(OVNImpulseLocations::new(density, sample_rate, 17).unwrap(), Choice::classic(43))
}

#[test]
fn rendered_indices_lie_in_the_range_and_increase() {
    let rendered = kernel(100, 44100).render(4411, 5672);
    assert!(!rendered.is_empty());
    let mut last: Option<usize> = None;
    for (i, x) in rendered.iter() {
        assert!(4411 <= *i && *i < 5672);
        assert!(*x == 1 || *x == -1);
        if let Some(l) = last {
            assert!(*i > l);
        }
        last = Some(*i);
    }
}

#[test]
fn rendering_keeps_one_index_of_every_cell_in_the_range() {
    let rendered = kernel(10, 100).render(20, 50);
    assert_eq!(rendered.len(), 3);
    for (k, (i, _)) in rendered.iter().enumerate() {
        assert!((k + 2) * 10 <= *i && *i < (k + 3) * 10);
    }
}

#[test]
fn rendering_an_empty_range_gives_an_empty_kernel() {
    assert_eq!(kernel(10, 100).render(30, 30), Vec::new());
    assert_eq!(kernel(10, 100).render(50, 20), Vec::new());
    assert_eq!(kernel(10, 100).render(0, 0), Vec::new());
}

#[test]
fn rendering_goes_on_where_the_last_one_stopped() {
    let mut k = kernel(10, 100);
    let first = k.render(0, 30);
    assert_eq!(first.len(), 3);
    let second = k.render(0, 100);
    assert_eq!(second.len(), 6);
    assert!(second[0].0 >= 40);
}

#[test]
fn adjoining_kernels_join_without_repeats() {
    let borders = [4411usize, 5672, 7214, 9044];
    let mut joined: Vec<(usize, i8)> = Vec::new();
    for s in 0..3 {
        joined.extend(kernel(100 - 3 * s, 44100).render(borders[s], borders[s + 1]));
    }
    for w in joined.windows(2) {
        assert!(w[0].0 < w[1].0);
    }
    assert!(kernel_fits(&joined, 9044));
    assert!(!kernel_fits(&joined, joined[joined.len() - 1].0));
}

#[test]
fn kernel_fits_a_bound_above_every_index() {
    let k = vec![(0usize, 1i8), (5, -1), (9, 1)];
    assert!(kernel_fits(&k, 10));
    assert!(!kernel_fits(&k, 9));
    assert!(kernel_fits(&Vec::new(), 0));
}

#[test]
fn delay_buffer_returns_what_was_pushed_offset_pushes_ago() {
    let mut b: DelayBuffer<f32> = DelayBuffer::new(3, 0.).unwrap();
    assert_eq!(b.capacity(), 3);
    assert_eq!(b.get(0), Ok(0.));
    assert_eq!(b.get(2), Ok(0.));
    b.push(1.);
    b.push(2.);
    assert_eq!(b.get(0), Ok(2.));
    assert_eq!(b.get(1), Ok(1.));
    assert_eq!(b.get(2), Ok(0.));
    assert_eq!(b.oldest(), 0.);
    b.push(3.);
    b.push(4.);
    assert_eq!(b.get(0), Ok(4.));
    assert_eq!(b.get(1), Ok(3.));
    assert_eq!(b.get(2), Ok(2.));
    assert_eq!(b.oldest(), 2.);
}

#[test]
fn delay_buffer_refuses_an_offset_at_its_capacity() {
    let mut b: DelayBuffer<i32> = DelayBuffer::new(4, 0).unwrap();
    b.push(7);
    assert_eq!(b.get(3), Ok(0));
    assert_eq!(b.get(4), Err(BoundaryError { index: 4, bound: 4 }));
    assert_eq!(b.get(usize::MAX), Err(BoundaryError { index: usize::MAX, bound: 4 }));
}

#[test]
fn delay_buffer_of_no_capacity_is_refused() {
    assert_eq!(DelayBuffer::<f32>::new(0, 0.).err(), Some(ConfigError::ZeroCapacity));
}

#[test]
fn delay_buffer_of_one_sample_holds_the_last_push() {
    let mut b: DelayBuffer<i32> = DelayBuffer::new(1, 0).unwrap();
    b.push(5);
    assert_eq!(b.oldest(), 5);
    b.push(6);
    assert_eq!(b.get(0), Ok(6));
}

#[test]
fn a_tap_advances_until_the_end_of_the_source() {
    let t = Tap { position: 3, gain: -1 };
    assert_eq!(t.advance(5), Some(Tap { position: 4, gain: -1 }));
    assert_eq!(Tap { position: 4, gain: -1 }.advance(5), None);
    assert_eq!(Tap { position: usize::MAX, gain: 1 }.advance(usize::MAX), None);
}

#[test]
fn seeding_refuses_an_index_outside_the_source() {
    let k = vec![(0usize, 1i8), (7, -1), (3, 1), (9, 1)];
    assert_eq!(TapSet::seed(&k, 7).err(), Some(BoundaryError { index: 7, bound: 7 }));
    assert_eq!(TapSet::seed(&k, 0).err(), Some(BoundaryError { index: 0, bound: 0 }));
    let set = TapSet::seed(&k, 10).unwrap();
    assert_eq!(set.len(), 4);
    assert_eq!(set.taps()[1], Tap { position: 7, gain: -1 });
}

#[test]
fn the_number_of_taps_never_changes() {
    let n = 1000;
    let seeded = kernel(25, 1000).render(0, n);
    assert_eq!(seeded.len(), 25);
    let mut set = TapSet::seed(&seeded, n).unwrap();
    let mut choice = Choice::classic(43);
    for _ in 0..5000 {
        set.step(&mut choice);
        assert_eq!(set.len(), 25);
        for t in set.taps().iter() {
            assert!(t.position < n);
            assert!(t.gain == 1 || t.gain == -1);
        }
    }
}

#[test]
fn a_step_moves_taps_on_and_restarts_those_that_leave() {
    let k = vec![(0usize, 1i8), (2, -1), (1, -1)];
    let mut set = TapSet::seed(&k, 3).unwrap();
    let mut choice = Choice::classic(43);
    set.step(&mut choice);
    assert_eq!(set.taps()[0], Tap { position: 1, gain: 1 });
    assert_eq!(set.taps()[1].position, 0);
    assert_eq!(set.taps()[2], Tap { position: 2, gain: -1 });
    set.step(&mut choice);
    assert_eq!(set.taps()[0], Tap { position: 2, gain: 1 });
    assert_eq!(set.taps()[1].position, 1);
    assert_eq!(set.taps()[2].position, 0);
}

#[test]
fn an_empty_tap_set_stays_empty() {
    let mut set = TapSet::seed(&Vec::new(), 0).unwrap();
    let mut choice = Choice::classic(43);
    set.step(&mut choice);
    assert_eq!(set.len(), 0);
}

#[test]
fn a_kept_pair_holds_the_sign_drawn_with_its_index() {
    let mut k = VelvetNoiseKernel::new(
        OVNImpulseLocations::new(10, 100, 5).unwrap(),
        Choice::classic(9),
    );
    let rendered = k.render(20, 50);
    let mut locations = OVNImpulseLocations::new(10, 100, 5).unwrap();
    let mut signs = Choice::classic(9);
    let mut expected: Vec<(usize, i8)> = Vec::new();
    for cell in 0..6 {
        let pair = (locations.next().unwrap(), signs.next().unwrap());
        if cell >= 2 && cell < 5 {
            expected.push(pair);
        }
    }
    assert_eq!(rendered, expected);
    assert_eq!(k.next(), Some((locations.next().unwrap(), signs.next().unwrap())));
}

#[test]
fn a_step_draws_one_sign_for_each_tap_that_leaves() {
    let k = vec![(0usize, 1i8), (2, -1), (1, -1), (2, 1)];
    let mut set = TapSet::seed(&k, 3).unwrap();
    let mut choice = Choice::classic(9);
    let mut mirror = Choice::classic(9);
    set.step(&mut choice);
    let first = mirror.next().unwrap();
    let second = mirror.next().unwrap();
    assert_eq!(set.taps()[0], Tap { position: 1, gain: 1 });
    assert_eq!(set.taps()[1], Tap { position: 0, gain: first });
    assert_eq!(set.taps()[2], Tap { position: 2, gain: -1 });
    assert_eq!(set.taps()[3], Tap { position: 0, gain: second });
    set.step(&mut choice);
    let third = mirror.next().unwrap();
    assert_eq!(set.taps()[0], Tap { position: 2, gain: 1 });
    assert_eq!(set.taps()[1], Tap { position: 1, gain: first });
    assert_eq!(set.taps()[2], Tap { position: 0, gain: third });
    assert_eq!(set.taps()[3], Tap { position: 1, gain: second });
    assert_eq!(choice.next(), mirror.next());
}

#[test]
fn a_step_that_retires_no_tap_draws_no_sign() {
    let k = vec![(0usize, 1i8)];
    let mut set = TapSet::seed(&k, 2).unwrap();
    let mut choice = Choice::classic(9);
    let mut mirror = Choice::classic(9);
    set.step(&mut choice);
    assert_eq!(set.taps()[0], Tap { position: 1, gain: 1 });
    let mut ahead = Choice::classic(9);
    let first = ahead.next().unwrap();
    set.step(&mut choice);
    assert_eq!(set.taps()[0], Tap { position: 0, gain: first });
    mirror.next();
    assert_eq!(choice.next(), mirror.next());
}
