use abra::histogram::Histogram;

/// The number of samples a clip fraction removes from each tail: the fraction of
/// the histogram total, rounded.
fn clip_count(hist: &[u64; 256], clip_fraction: f32) -> u64 {
    let total: u64 = hist.iter().sum();
    (clip_fraction * (total as f32)).round() as u64
}

fn red_clip_bounds(hist: &Histogram, clip_fraction: f32) -> (u8, u8) {
    hist.red_clip_bounds_for_count(clip_count(hist.red(), clip_fraction))
}

fn red_levels_lut(hist: &Histogram, clip_fraction: f32) -> [u8; 256] {
    hist.red_levels_lut_for_count(clip_count(hist.red(), clip_fraction))
}

#[test]
fn histogram_skip_transparent_counts() {
    let rgba: Vec<u8> = vec![
        10, 20, 30, 255, //
        10, 20, 30, 0, //
        255, 0, 0, 255, //
        0, 255, 0, 255, //
        0, 0, 255, 255, //
        10, 20, 30, 255, //
    ];
    let hist = Histogram::from_rgba_skip_transparent(&rgba);
    assert_eq!(hist.total_pixels(), 5);
    assert_eq!(hist.red()[10], 2);
    assert_eq!(hist.red()[255], 1);
    assert_eq!(hist.green()[255], 1);
    assert_eq!(hist.blue()[255], 1);
    assert_eq!(hist.alpha()[0], 0);
}

#[test]
fn clip_bounds_zero_clip() {
    let mut hist = Histogram::new();
    {
        let (red, _, _) = hist.rgb_mut();
        red[10] = 2;
        red[200] = 3;
    }
    assert_eq!(red_clip_bounds(&hist, 0.0), (0u8, 255u8));
}

#[test]
fn clip_bounds_uniform_bin_returns_same_bin() {
    let mut hist = Histogram::new();
    {
        let (red, _, _) = hist.rgb_mut();
        red[50] = 42;
    }
    assert_eq!(red_clip_bounds(&hist, 0.05), (50u8, 50u8));
}

#[test]
fn clip_bounds_empty_hist_returns_identity() {
    let hist = Histogram::new();
    assert_eq!(red_clip_bounds(&hist, 0.01), (0u8, 255u8));
}

#[test]
fn clip_bounds_known_distribution() {
    let mut hist = Histogram::new();
    {
        let (red, _, _) = hist.rgb_mut();
        red[10] = 5;
        red[200] = 30;
        red[240] = 5;
    }
    assert_eq!(red_clip_bounds(&hist, 0.125), (10u8, 240u8));
}

#[test]
fn levels_lut_identity_with_zero_clip() {
    let mut hist = Histogram::new();
    {
        let (red, _, _) = hist.rgb_mut();
        red[10] = 10;
    }
    let lut = red_levels_lut(&hist, 0.0);
    assert_eq!(lut[0], 0u8);
    assert_eq!(lut[128], 128u8);
    assert_eq!(lut[255], 255u8);
}

#[test]
fn levels_lut_known_bounds() {
    let mut hist = Histogram::new();
    {
        let (red, _, _) = hist.rgb_mut();
        red[10] = 5;
        red[200] = 30;
        red[240] = 5;
    }
    let lut = red_levels_lut(&hist, 0.125);
    assert_eq!(lut[10], 0u8);
    assert_eq!(lut[240], 255u8);
    assert!((lut[125] as i32 - 128).abs() <= 1, "lut[125]={} expected ~128", lut[125]);
}

#[test]
fn from_rgba_counts_every_pixel() {
    let rgba: Vec<u8> = vec![1, 2, 3, 0, 1, 5, 6, 255];
    let hist = Histogram::from_rgba(&rgba);
    assert_eq!(hist.red()[1], 2);
    assert_eq!(hist.green()[2], 1);
    assert_eq!(hist.green()[5], 1);
    assert_eq!(hist.alpha()[0], 1);
    assert_eq!(hist.alpha()[255], 1);
    assert_eq!(hist.total_pixels(), 2);
}

#[test]
fn median_mean_and_percentile_of_bins() {
    let mut bins = [0u64; 256];
    bins[10] = 1;
    bins[20] = 1;
    bins[30] = 1;
    // first value whose cumulative count exceeds 3 / 2 = 1
    assert_eq!(Histogram::median_from_hist(&bins, 3), 20);
    // (10 + 20 + 30) / 3
    assert_eq!(Histogram::mean_from_hist(&bins, 3), 20);
    assert_eq!(Histogram::mean_from_hist(&bins, 0), 0);
    assert_eq!(Histogram::percentile_from_target(&bins, 3), 30);
    assert_eq!(Histogram::percentile_from_target(&bins, 4), 255);
    let empty = [0u64; 256];
    assert_eq!(Histogram::median_from_hist(&empty, 0), 255);
}

#[test]
fn weighted_average_only_counts_values_in_range() {
    let mut bins = [0u64; 256];
    bins[100] = 1;
    bins[110] = 3;
    bins[200] = 50;
    // values within 100 +- 10: (100 + 3 * 110) / 4 = 107
    assert_eq!(Histogram::weighted_average_in_range(&bins, 100, 10), 107);
    // nothing within 50 +- 5: the centre is kept
    assert_eq!(Histogram::weighted_average_in_range(&bins, 50, 5), 50);
}

#[test]
fn clip_bounds_are_ordered() {
    let mut hist = Histogram::new();
    {
        let (red, _, _) = hist.rgb_mut();
        red[3] = 7;
        red[90] = 1;
        red[250] = 2;
    }
    for count in 0..12u64 {
        let (lo, hi) = hist.red_clip_bounds_for_count(count);
        assert!(lo <= hi);
    }
}

#[test]
fn levels_lut_is_monotone() {
    let mut hist = Histogram::new();
    {
        let (red, _, _) = hist.rgb_mut();
        red[40] = 4;
        red[90] = 10;
        red[180] = 4;
    }
    let lut = hist.red_levels_lut_for_count(2);
    for i in 1..256 {
        assert!(lut[i - 1] <= lut[i]);
    }
}

#[test]
fn clear_empties_every_channel() {
    let rgba: Vec<u8> = vec![9, 9, 9, 9];
    let mut hist = Histogram::from_rgba(&rgba);
    hist.clear();
    assert_eq!(hist.total_pixels(), 0);
    assert_eq!(hist.alpha()[9], 0);
}
