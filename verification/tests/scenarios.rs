use downsample::stage::downsample_all;
use downsample::stage::Downsampler;

#[test]
fn two_channels_factor_two_single_window() {
    let mut stage = Downsampler::new(2, 2);
    assert_eq!(stage.push(vec![2u16, 4u16]), None);
    let sums = stage.push(vec![6u16, 8u16]).expect("window must complete");
    assert_eq!(sums, vec![8u64, 12u64]);
    let mean0 = sums[0] as f32 / 2.0f32;
    let mean1 = sums[1] as f32 / 2.0f32;
    assert_eq!(mean0, 4.0f32);
    assert_eq!(mean1, 6.0f32);
}

#[test]
fn factor_three_emits_after_third_payload_only() {
    let mut stage = Downsampler::new(2, 3);
    assert_eq!(stage.push(vec![0u16, 0u16]), None);
    assert_eq!(stage.push(vec![3u16, 3u16]), None);
    let sums = stage.push(vec![6u16, 6u16]).expect("window must complete");
    assert_eq!(sums, vec![9u64, 9u64]);
    assert_eq!(sums[0] as f32 / 3.0f32, 3.0f32);
    assert_eq!(sums[1] as f32 / 3.0f32, 3.0f32);
    // the fourth payload begins a new window with no result yet
    assert_eq!(stage.push(vec![9u16, 9u16]), None);
}

#[test]
fn zero_payloads_emit_nothing() {
    let (windows, dumped) = downsample_all(Vec::new(), 4, 3);
    assert_eq!(windows.len(), 0);
    assert_eq!(dumped.len(), 0);
}

#[test]
fn factor_one_is_identity() {
    let mut stage = Downsampler::new(3, 1);
    for row in [[7u16, 0u16, 1u16], [0u16, 65535u16, 2u16]] {
        let sums = stage.push(row.to_vec()).expect("every payload is its own window");
        let expect: Vec<u64> = row.iter().map(|&x| x as u64).collect();
        assert_eq!(sums, expect);
        for c in 0..3 {
            assert_eq!(sums[c] as f32 / 1.0f32, row[c] as f32);
        }
    }
}

#[test]
fn window_count_is_floor_of_n_over_k() {
    let inputs: Vec<Vec<u16>> = (0..7u16).map(|i| vec![i, 10 * i]).collect();
    let (windows, dumped) = downsample_all(inputs.clone(), 2, 3);
    assert_eq!(windows.len(), 2);
    // disjoint contiguous windows in arrival order
    assert_eq!(windows[0].sums, vec![0 + 1 + 2, 0 + 10 + 20]);
    assert_eq!(windows[1].sums, vec![3 + 4 + 5, 30 + 40 + 50]);
    assert_eq!(windows[0].factor, 3);
    assert_eq!(windows[1].factor, 3);
    // the raw inputs come back unchanged, in order
    assert_eq!(dumped, inputs);
}

#[test]
fn means_match_exact_arithmetic_mean() {
    let inputs: Vec<Vec<u16>> = vec![vec![1u16], vec![2u16], vec![4u16], vec![5u16]];
    let (windows, _) = downsample_all(inputs, 1, 4);
    assert_eq!(windows.len(), 1);
    assert_eq!(windows[0].sums, vec![12u64]);
    assert_eq!(windows[0].sums[0] as f32 / windows[0].factor as f32, 3.0f32);
}

#[test]
fn largest_samples_do_not_overflow() {
    let k: u16 = 65535;
    let mut stage = Downsampler::new(1, k);
    let mut out = None;
    for _ in 0..k {
        out = stage.push(vec![65535u16]);
    }
    let sums = out.expect("window must complete at the factor-th payload");
    assert_eq!(sums, vec![65535u64 * 65535u64]);
}
