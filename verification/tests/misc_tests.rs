use abra::apply_area::{prepare_area_pixels, AreaPixels};
use abra::errors::{AiError, PluginError};
use abra::image::Image;
use abra::noise::hash3;
use abra::plugin::{Plugin, PluginResult, TiltShift};
use abra::sampling::SampleGrid;
use abra::settings::Settings;
use abra::canvas::Canvas;

#[test]
fn plugin_error_constructors() {
    assert!(matches!(PluginError::execution_failed("boom"), PluginError::ExecutionFailed(m) if m == "boom"));
    assert!(matches!(PluginError::invalid_parameters("bad"), PluginError::InvalidParameters(m) if m == "bad"));
    assert!(matches!(PluginError::file_not_found("x.json"), PluginError::FileNotFound(m) if m == "x.json"));
}

#[test]
fn ai_error_constructors_and_messages() {
    assert_eq!(AiError::model_load_failed("a").message(), "Model load failed: a");
    assert_eq!(AiError::inference_failed("b").message(), "Inference failed: b");
    assert_eq!(AiError::invalid_input("c").message(), "Invalid input: c");
    assert_eq!(AiError::model_not_found("d").message(), "Model not found: d");
    assert_eq!(AiError::config_error("e").message(), "Configuration error: e");
    assert_eq!(AiError::other("f").message(), "Error: f");
    assert!(matches!(AiError::other("f"), AiError::Other(m) if m == "f"));
}

#[test]
fn sample_grid_clamps_level() {
    assert_eq!(SampleGrid::from_aa_level(0).side_samples, 1);
    assert_eq!(SampleGrid::from_aa_level(4).side_samples, 4);
    assert_eq!(SampleGrid::from_aa_level(40).side_samples, 16);
    assert_eq!(SampleGrid::from_aa_level(4).total_samples(), 16);
    assert_eq!(SampleGrid::from_aa_level(99).total_samples(), 256);
}

#[test]
fn hash3_known_values() {
    assert_eq!(hash3(0, 0, 0), 0);
    assert_eq!(hash3(1, 2, 3), 1708019331);
    assert_eq!(hash3(7, 11, 0), 3693029019);
    assert_eq!(hash3(0x9E3779B9 ^ 5, 0x85EBCA6B ^ 6, 0xC2B2AE35), 397728121);
}

#[test]
fn plugin_result_collects_outputs() {
    let mut r = PluginResult::new();
    assert!(r.is_empty());
    r.add_image(Image::new(2, 2));
    r.add_canvas(Canvas::new("C"));
    assert!(!r.is_empty());
    assert_eq!(r.image_at(0).unwrap().dimensions(), (2, 2));
    assert!(r.image_at(1).is_none());
    assert_eq!(r.canvas_at(0).unwrap().name(), "C");
    assert!(r.layer_at(0).is_none());
}

#[test]
fn tilt_shift_plugin() {
    let mut p = TiltShift;
    assert_eq!(p.name(), "Tilt Shift");
    assert!(p.description().starts_with("Applies a tilt-shift effect"));
    let out = p.apply();
    assert!(matches!(out, Ok(ref res) if res.is_empty()));
}

#[test]
fn settings_defaults_and_document() {
    let d = Settings::default();
    assert!(d.gpu_enabled());
    assert!(d.api_model_paths().is_empty());
    let s = Settings::from_document(None, None);
    assert!(s.gpu_enabled());
    assert_eq!(s.api_model_paths(), vec![String::from("packages/ai/models")]);
    let mut t = Settings::from_document(Some(false), Some(vec![String::from("a"), String::from("b")]));
    assert!(!t.gpu_enabled());
    assert_eq!(t.api_model_paths(), vec![String::from("a"), String::from("b")]);
    t.set_gpu_enabled(true);
    t.set_api_model_paths(vec![]);
    assert!(t.gpu_enabled());
    assert!(t.api_model_paths().is_empty());
}

fn numbered(w: u32, h: u32) -> Image {
    let mut v = Vec::new();
    for i in 0..(w * h * 4) {
        v.push((i % 251) as u8);
    }
    Image::new_from_rgba(w, h, v)
}

#[test]
fn prepare_area_pixels_full_image_borrowed() {
    let mut bytes = Vec::new();
    for _ in 0..64 {
        bytes.extend_from_slice(&[0u8, 0, 0, 255]);
    }
    let img = Image::new_from_rgba(8, 8, bytes);
    let prepared = prepare_area_pixels(&img, None, 2);
    match prepared.pixels {
        AreaPixels::Borrowed(_) => (),
        AreaPixels::Owned(_) => panic!("Expected borrowed pixels for full image"),
    }
    assert_eq!(prepared.rect_w as usize, 8);
    assert_eq!(prepared.rect_h as usize, 8);
}

#[test]
fn prepare_area_pixels_cuts_padded_rect() {
    let img = numbered(8, 8);
    let prepared = prepare_area_pixels(&img, Some((2, 3, 5, 6)), 1);
    let m = prepared.meta();
    assert_eq!((m.area_min_x, m.area_min_y, m.area_w, m.area_h), (2, 3, 3, 3));
    assert_eq!((m.rect_min_x, m.rect_min_y, m.rect_w, m.rect_h), (1, 2, 5, 5));
    let px = prepared.pixels.as_slice();
    assert_eq!(px.len(), 5 * 5 * 4);
    let src = img.rgba();
    for y in 0..5usize {
        for x in 0..5usize {
            for c in 0..4usize {
                assert_eq!(px[(y * 5 + x) * 4 + c], src[((2 + y) * 8 + 1 + x) * 4 + c]);
            }
        }
    }
}

#[test]
fn prepare_area_pixels_clips_to_image() {
    let img = numbered(8, 8);
    let prepared = prepare_area_pixels(&img, Some((-4, 6, 3, 20)), 3);
    let m = prepared.meta();
    assert_eq!((m.area_min_x, m.area_min_y, m.area_w, m.area_h), (0, 6, 3, 2));
    assert_eq!((m.rect_min_x, m.rect_min_y, m.rect_w, m.rect_h), (0, 3, 6, 5));
    let empty = prepare_area_pixels(&img, Some((5, 5, 5, 9)), 2);
    assert_eq!((empty.area_w, empty.rect_w, empty.rect_h), (0, 0, 0));
    assert!(empty.pixels.as_slice().is_empty());
}

#[test]
fn read_after_write_on_pixels() {
    let mut img = numbered(4, 3);
    let before = img.get_pixel(1, 1);
    img.set_pixel(2, 1, (1, 2, 3, 4));
    assert_eq!(img.get_pixel(2, 1), Some((1, 2, 3, 4)));
    assert_eq!(img.get_pixel(1, 1), before);
    // writes outside the image change nothing
    let copy = img.to_rgba_vec();
    img.set_pixel(4, 0, (9, 9, 9, 9));
    assert_eq!(img.to_rgba_vec(), copy);
    assert_eq!(img.get_pixel(4, 0), None);
}

#[test]
fn crop_image_copies_sub_rectangle() {
    let img = numbered(5, 4);
    let c = abra::apply_area::crop_image(&img, 1, 2, 3, 2);
    assert_eq!(c.dimensions(), (3, 2));
    for y in 0..2u32 {
        for x in 0..3u32 {
            assert_eq!(c.get_pixel(x, y), img.get_pixel(x + 1, y + 2));
        }
    }
}

#[test]
fn histogram_from_image_counts_pixels() {
    let img = Image::new_from_rgba(2, 1, vec![5, 6, 7, 0, 5, 8, 9, 255]);
    let h = abra::histogram::Histogram::from_image(&img);
    assert_eq!(h.red()[5], 2);
    assert_eq!(h.total_pixels(), 2);
    let o = abra::histogram::Histogram::from_image_skip_transparent(&img);
    assert_eq!(o.red()[5], 1);
    assert_eq!(o.green()[8], 1);
    assert_eq!(o.total_pixels(), 1);
}
