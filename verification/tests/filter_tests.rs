use abra::box_blur::apply_box_blur;
use abra::despeckle::apply_despeckle;
use abra::histogram::Histogram;
use abra::image::Image;
use abra::median::{apply_median_naive, apply_median_sliding};
use abra::surface::apply_surface_blur_direct;
use abra::adjust::apply_invert;

fn filled(w: u32, h: u32, p: (u8, u8, u8, u8)) -> Image {
    let mut img = Image::new(w, h);
    for y in 0..h {
        for x in 0..w {
            img.set_pixel(x, y, p);
        }
    }
    img
}

#[test]
fn despeckle_removes_isolated_speck() {
    let mut img = filled(5, 5, (0u8, 0u8, 0u8, 255));
    img.set_pixel(2, 2, (255u8, 255u8, 255u8, 255));
    apply_despeckle(&mut img, 1, 13);
    let (r, g, b, _) = img.get_pixel(2, 2).unwrap();
    assert_eq!(r, 0);
    assert_eq!(g, 0);
    assert_eq!(b, 0);
}

#[test]
fn despeckle_preserves_edge() {
    let mut img = Image::new(3, 3);
    for y in 0..3u32 {
        img.set_pixel(0, y, (0u8, 0u8, 0u8, 255));
        img.set_pixel(1, y, (255u8, 255u8, 255u8, 255));
        img.set_pixel(2, y, (255u8, 255u8, 255u8, 255));
    }
    img.set_pixel(2, 1, (0u8, 0u8, 0u8, 255));
    apply_despeckle(&mut img, 1, 13);
    let (r, g, b, _) = img.get_pixel(2, 1).unwrap();
    assert_ne!(r, 0);
    assert_ne!(g, 0);
    assert_ne!(b, 0);
}

#[test]
fn median_computation_for_edge_speck() {
    let mut img = Image::new(3, 3);
    for y in 0..3u32 {
        img.set_pixel(0, y, (0u8, 0u8, 0u8, 255));
        img.set_pixel(1, y, (255u8, 255u8, 255u8, 255));
        img.set_pixel(2, y, (255u8, 255u8, 255u8, 255));
    }
    img.set_pixel(2, 1, (0u8, 0u8, 0u8, 255));

    let src = img.rgba();
    let w = 3usize;
    let y = 1usize;
    let x = 2usize;
    let mut hist = Histogram::new();
    let r = 1i32;
    let h = 3usize;
    let mut pixel_count = 0u64;
    {
        let (r_hist, g_hist, b_hist) = hist.rgb_mut();
        for dy in -r..=r {
            let ny = (y as i32 + dy).clamp(0, h as i32 - 1) as usize;
            for dx in -r..=r {
                let nx = (x as i32 + dx).clamp(0, w as i32 - 1) as usize;
                let n_idx = (ny * w + nx) * 4;
                r_hist[src[n_idx] as usize] += 1;
                g_hist[src[n_idx + 1] as usize] += 1;
                b_hist[src[n_idx + 2] as usize] += 1;
                pixel_count += 1;
            }
        }
    }

    let mr = hist.red_median(pixel_count);
    let mg = hist.green_median(pixel_count);
    let mb = hist.blue_median(pixel_count);
    assert_eq!(mr, 255);
    assert_eq!(mg, 255);
    assert_eq!(mb, 255);

    let mut neighbor_min_lum = i32::MAX;
    let mut neighbor_max_lum = i32::MIN;
    for dy in -r..=r {
        let ny = (y as i32 + dy).clamp(0, h as i32 - 1) as usize;
        for dx in -r..=r {
            let nx = (x as i32 + dx).clamp(0, w as i32 - 1) as usize;
            if nx == x && ny == y {
                continue;
            }
            let n_idx = (ny * w + nx) * 4;
            let nr = src[n_idx] as i32;
            let ng = src[n_idx + 1] as i32;
            let nb = src[n_idx + 2] as i32;
            let lum = (299 * nr + 587 * ng + 114 * nb) / 1000;
            if lum < neighbor_min_lum {
                neighbor_min_lum = lum;
            }
            if lum > neighbor_max_lum {
                neighbor_max_lum = lum;
            }
        }
    }
    assert_eq!(neighbor_min_lum, neighbor_max_lum);
}

#[test]
fn despeckle_keeps_alpha_and_empty_image() {
    let mut img = filled(4, 4, (10u8, 10u8, 10u8, 77));
    apply_despeckle(&mut img, 1, 13);
    assert_eq!(img.get_pixel(1, 1), Some((10, 10, 10, 77)));
    let mut empty = Image::new(0, 0);
    apply_despeckle(&mut empty, 2, 5);
    assert_eq!(empty.dimensions(), (0, 0));
}

#[test]
fn median_sliding_matches_naive() {
    let w = 7usize;
    let h = 5usize;
    let mut src = Vec::new();
    for i in 0..(w * h) {
        src.push(((i * 37) % 256) as u8);
        src.push(((i * 91 + 3) % 256) as u8);
        src.push(((i * 13 + 200) % 256) as u8);
        src.push(((i * 7) % 256) as u8);
    }
    for radius in 0..4u32 {
        let a = apply_median_naive(&src, w, h, radius);
        let b = apply_median_sliding(&src, w, h, radius);
        assert_eq!(a, b);
    }
}

#[test]
fn median_removes_single_outlier() {
    let img = filled(3, 3, (50u8, 60u8, 70u8, 255));
    let mut rgba = img.to_rgba_vec();
    let c = (1 * 3 + 1) * 4;
    rgba[c] = 250;
    rgba[c + 1] = 0;
    rgba[c + 2] = 250;
    let out = apply_median_naive(&rgba, 3, 3, 1);
    assert_eq!(&out[c..c + 4], &[50, 60, 70, 255]);
}

#[test]
fn box_blur_averages_window() {
    // a single bright pixel in a 3x1 row, radius 1: each output is the mean of its
    // (clamped) window of three
    let mut img = Image::new_from_rgba(3, 1, vec![0, 0, 0, 255, 90, 30, 3, 255, 0, 0, 0, 255]);
    apply_box_blur(&mut img, 1);
    assert_eq!(img.get_pixel(0, 0), Some((30, 10, 1, 255)));
    assert_eq!(img.get_pixel(1, 0), Some((30, 10, 1, 255)));
    assert_eq!(img.get_pixel(2, 0), Some((30, 10, 1, 255)));
}

#[test]
fn box_blur_radius_zero_keeps_image() {
    let mut img = Image::new_from_rgba(2, 1, vec![1, 2, 3, 4, 5, 6, 7, 8]);
    apply_box_blur(&mut img, 0);
    assert_eq!(img.to_rgba_vec(), vec![1, 2, 3, 4, 5, 6, 7, 8]);
}

#[test]
fn surface_blur_respects_threshold() {
    // left pixel 0, right pixel 200: far apart, so neither is averaged with the other
    let mut img = Image::new_from_rgba(2, 1, vec![0, 0, 0, 255, 200, 200, 200, 255]);
    apply_surface_blur_direct(&mut img, 1, 10);
    assert_eq!(img.to_rgba_vec(), vec![0, 0, 0, 255, 200, 200, 200, 255]);
    // close values are averaged
    let mut img2 = Image::new_from_rgba(2, 1, vec![100, 100, 100, 255, 104, 104, 104, 255]);
    apply_surface_blur_direct(&mut img2, 1, 10);
    let (r0, _, _, _) = img2.get_pixel(0, 0).unwrap();
    assert!(r0 > 100 && r0 < 104);
}

#[test]
fn invert_twice_restores_image() {
    let start = vec![0, 10, 200, 33, 255, 128, 1, 0];
    let mut img = Image::new_from_rgba(2, 1, start.clone());
    apply_invert(&mut img);
    assert_eq!(img.to_rgba_vec(), vec![255, 245, 55, 33, 0, 127, 254, 0]);
    apply_invert(&mut img);
    assert_eq!(img.to_rgba_vec(), start);
}
