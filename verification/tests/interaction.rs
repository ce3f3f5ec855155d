use grass::interaction::InteractionMapState;

/// Float lerp toward `b`, rounded and clamped back to a byte.
fn lerp_u8(a: u8, b: u8, t: f32) -> u8 {
    let result = a as f32 + (b as f32 - a as f32) * t;
    result.round().clamp(0.0, 255.0) as u8
}

fn decay_tables(t: f32) -> (Vec<u8>, Vec<u8>) {
    let toward_neutral = (0..=255u8).map(|v| lerp_u8(v, 128, t)).collect();
    let toward_zero = (0..=255u8).map(|v| lerp_u8(v, 0, t)).collect();
    (toward_neutral, toward_zero)
}

fn texel(state: &InteractionMapState, x: usize, y: usize) -> [u8; 4] {
    let res = state.resolution() as usize;
    let idx = (y * res + x) * 4;
    let d = state.data();
    [d[idx], d[idx + 1], d[idx + 2], d[idx + 3]]
}

#[test]
fn decay_moves_bend_toward_neutral() {
    let mut state = InteractionMapState::new(4);
    // Pixel (0,0): strong bend right (R=200, G=128), flatten 100, hide 50.
    state.stamp_bend(0, 0, 200, 128);
    state.stamp_flatten(0, 0, 100);
    state.stamp_hide(0, 0, 50);
    assert_eq!(texel(&state, 0, 0), [200, 128, 100, 50]);

    let (toward_neutral, toward_zero) = decay_tables(0.5);
    state.decay(&toward_neutral, &toward_zero);

    let data = state.data();
    assert!(
        data[0] < 200 && data[0] > 128,
        "R should decay toward 128, got {}",
        data[0]
    );
    assert_eq!(data[1], 128);
    assert!(data[2] < 100);
    assert!(data[3] < 50);
}

#[test]
fn permanent_hide_does_not_decay() {
    let mut state = InteractionMapState::new(1);
    state.stamp_hide(0, 0, 255);
    let (toward_neutral, toward_zero) = decay_tables(0.99);
    state.decay(&toward_neutral, &toward_zero);
    assert_eq!(state.data()[3], 255);
}

#[test]
fn new_map_is_at_rest() {
    let state = InteractionMapState::new(3);
    assert_eq!(state.data().len(), 3 * 3 * 4);
    for y in 0..3 {
        for x in 0..3 {
            assert_eq!(texel(&state, x, y), [128, 128, 0, 0]);
        }
    }
}

#[test]
fn decay_halves_exact_values() {
    let mut state = InteractionMapState::new(2);
    state.stamp_bend(1, 1, 200, 20);
    state.stamp_flatten(1, 1, 100);
    state.stamp_hide(1, 1, 50);
    let (toward_neutral, toward_zero) = decay_tables(0.5);
    state.decay(&toward_neutral, &toward_zero);
    assert_eq!(texel(&state, 1, 1), [164, 74, 50, 25]);
    assert_eq!(texel(&state, 0, 0), [128, 128, 0, 0]);
}

#[test]
fn shift_moves_texels_and_fills_with_rest() {
    let mut state = InteractionMapState::new(4);
    state.stamp_bend(2, 1, 250, 10);
    state.stamp_flatten(2, 1, 90);
    state.shift(1, 0);
    // New (x, y) takes old (x + 1, y).
    assert_eq!(texel(&state, 1, 1), [250, 10, 90, 0]);
    assert_eq!(texel(&state, 2, 1), [128, 128, 0, 0]);
    // The rightmost column comes in at rest.
    assert_eq!(texel(&state, 3, 1), [128, 128, 0, 0]);

    state.shift(0, -1);
    assert_eq!(texel(&state, 1, 2), [250, 10, 90, 0]);
    assert_eq!(texel(&state, 1, 1), [128, 128, 0, 0]);
}

#[test]
fn shift_by_zero_keeps_map() {
    let mut state = InteractionMapState::new(3);
    state.stamp_bend(0, 2, 1, 255);
    state.stamp_hide(2, 0, 77);
    let before = state.data().clone();
    state.shift(0, 0);
    assert_eq!(state.data(), &before);
}

#[test]
fn shift_by_full_width_resets_map() {
    let mut state = InteractionMapState::new(4);
    state.stamp_bend(0, 0, 0, 0);
    state.stamp_flatten(3, 3, 255);
    state.stamp_hide(1, 2, 255);
    state.shift(-4, 0);
    for y in 0..4 {
        for x in 0..4 {
            assert_eq!(texel(&state, x, y), [128, 128, 0, 0]);
        }
    }
}

#[test]
fn bend_stamp_keeps_the_stronger_bend() {
    let mut state = InteractionMapState::new(2);
    state.stamp_bend(0, 0, 200, 60);
    // 100 bends less than 200 on R (28 < 72), 20 bends more than 60 on G (108 > 68).
    state.stamp_bend(0, 0, 100, 20);
    assert_eq!(texel(&state, 0, 0), [200, 20, 0, 0]);
    // Stamping the same value again changes nothing.
    state.stamp_bend(0, 0, 100, 20);
    assert_eq!(texel(&state, 0, 0), [200, 20, 0, 0]);
}

#[test]
fn flatten_and_hide_stamps_keep_the_maximum() {
    let mut state = InteractionMapState::new(2);
    state.stamp_flatten(1, 0, 40);
    state.stamp_flatten(1, 0, 30);
    state.stamp_hide(1, 0, 254);
    state.stamp_hide(1, 0, 12);
    assert_eq!(texel(&state, 1, 0), [128, 128, 40, 254]);
    state.stamp_flatten(1, 0, 41);
    assert_eq!(texel(&state, 1, 0), [128, 128, 41, 254]);
}

fn distance_from_rest(v: u8, i: usize) -> i32 {
    if i % 4 < 2 {
        (v as i32 - 128).abs()
    } else {
        v as i32
    }
}

#[test]
fn decay_never_moves_a_texel_away_from_rest() {
    let mut state = InteractionMapState::new(3);
    state.stamp_bend(0, 0, 255, 0);
    state.stamp_bend(1, 2, 129, 127);
    state.stamp_flatten(2, 1, 1);
    state.stamp_hide(1, 1, 254);
    let before = state.data().clone();
    for t in [0.01f32, 0.3, 0.5, 0.99, 1.0] {
        let (toward_neutral, toward_zero) = decay_tables(t);
        for v in 0..=255u8 {
            let n = toward_neutral[v as usize];
            assert!((n as i32 - 128).abs() <= (v as i32 - 128).abs());
            assert!(toward_zero[v as usize] <= v);
        }
        let mut decayed = InteractionMapState::new(3);
        decayed.stamp_bend(0, 0, 255, 0);
        decayed.stamp_bend(1, 2, 129, 127);
        decayed.stamp_flatten(2, 1, 1);
        decayed.stamp_hide(1, 1, 254);
        decayed.decay(&toward_neutral, &toward_zero);
        for (i, (&a, &b)) in before.iter().zip(decayed.data().iter()).enumerate() {
            assert!(distance_from_rest(b, i) <= distance_from_rest(a, i));
        }
    }
}
