use abra::apply_area::{area_route, AreaRoute};
use abra::ai::ModelManifest;
use abra::errors::AiError;
use abra::encode::{compression_for_quality, encode_image_png, encode_png, PngCompression};
use abra::image::{decode_webp, image_from_decoded, image_from_webp_bytes, Image};
use abra::settings::Settings;
use abra::yaml::{lookup, parse_yaml, strings_in, YamlNode};

fn paths(s: &Settings) -> Vec<String> {
    s.api_model_paths()
}

#[test]
fn settings_from_yaml_reads_both_entries() {
    let s = Settings::from_yaml("gpu:\n  enabled: false\napi:\n  model_paths: [a, 3, b]\n").unwrap();
    assert!(!s.gpu_enabled());
    assert_eq!(paths(&s), vec![String::from("a"), String::from("b")]);
}

#[test]
fn settings_from_yaml_defaults_when_entries_missing() {
    let s = Settings::from_yaml("other: 1\n").unwrap();
    assert!(s.gpu_enabled());
    assert_eq!(paths(&s), vec![String::from("packages/ai/models")]);
}

#[test]
fn settings_from_yaml_ignores_non_boolean_gpu_and_non_sequence_paths() {
    let s = Settings::from_yaml("gpu:\n  enabled: maybe\napi:\n  model_paths: single\n").unwrap();
    assert!(s.gpu_enabled());
    assert_eq!(paths(&s), vec![String::from("packages/ai/models")]);
}

#[test]
fn settings_from_yaml_uses_first_document() {
    let s = Settings::from_yaml("gpu:\n  enabled: false\n---\ngpu:\n  enabled: true\n").unwrap();
    assert!(!s.gpu_enabled());
}

#[test]
fn settings_from_yaml_empty_path_list() {
    let s = Settings::from_yaml("api:\n  model_paths: []\n").unwrap();
    assert!(paths(&s).is_empty());
}

#[test]
fn settings_from_yaml_rejects_invalid_text() {
    assert!(Settings::from_yaml("gpu: [\n").is_none());
    assert!(Settings::from_yaml("a: 1\na: 2\n").is_none());
    assert!(Settings::from_yaml("").is_none());
}

#[test]
fn settings_from_documents_on_built_nodes() {
    let doc = YamlNode::Mapping(vec![(
        YamlNode::Str(String::from("gpu")),
        YamlNode::Mapping(vec![(YamlNode::Str(String::from("enabled")), YamlNode::Bool(false))]),
    )]);
    let s = Settings::from_documents(&vec![doc]).unwrap();
    assert!(!s.gpu_enabled());
    assert_eq!(paths(&s), vec![String::from("packages/ai/models")]);
    assert!(Settings::from_documents(&vec![]).is_none());
}

#[test]
fn parse_yaml_converts_nodes() {
    let docs = parse_yaml("k: [x, 7, true, ~, 1.5]\n").unwrap();
    assert_eq!(docs.len(), 1);
    match lookup(&docs[0], "k") {
        Some(YamlNode::Sequence(v)) => {
            assert_eq!(v.len(), 5);
            assert!(matches!(&v[0], YamlNode::Str(s) if s == "x"));
            assert!(matches!(&v[1], YamlNode::Integer(7)));
            assert!(matches!(&v[2], YamlNode::Bool(true)));
            assert!(matches!(&v[3], YamlNode::Null));
            assert!(matches!(&v[4], YamlNode::Real(t) if t == "1.5"));
            assert_eq!(strings_in(v), vec![String::from("x")]);
        }
        _ => panic!("expected a sequence"),
    }
    assert!(lookup(&docs[0], "missing").is_none());
    assert!(parse_yaml("[").is_err());
}

#[test]
fn lookup_takes_first_matching_string_key() {
    let m = YamlNode::Mapping(vec![
        (YamlNode::Integer(1), YamlNode::Integer(10)),
        (YamlNode::Str(String::from("a")), YamlNode::Integer(20)),
    ]);
    assert!(matches!(lookup(&m, "a"), Some(YamlNode::Integer(20))));
    assert!(lookup(&YamlNode::Null, "a").is_none());
}

#[test]
fn image_from_decoded_spreads_rgb() {
    let img = image_from_decoded(2, 1, false, vec![1, 2, 3, 4, 5, 6]).unwrap();
    assert_eq!(img.dimensions(), (2, 1));
    assert_eq!(img.rgba(), &[1, 2, 3, 255, 4, 5, 6, 255]);
}

#[test]
fn image_from_decoded_keeps_rgba() {
    let img = image_from_decoded(1, 2, true, vec![1, 2, 3, 4, 5, 6, 7, 8]).unwrap();
    assert_eq!(img.rgba(), &[1, 2, 3, 4, 5, 6, 7, 8]);
}

#[test]
fn image_from_decoded_rejects_wrong_length() {
    let e = image_from_decoded(2, 2, false, vec![0; 11]).err().unwrap();
    assert_eq!(e, "Pixel buffer does not match the image size");
    assert!(image_from_decoded(1, 1, true, vec![0; 3]).is_err());
    assert!(image_from_decoded(0, 0, false, vec![]).is_ok());
}

#[test]
fn decode_webp_reports_bad_header() {
    let e = decode_webp(&[1, 2, 3, 4], 1 << 30).err().unwrap();
    assert!(e.starts_with("Failed to create WebP decoder"), "{}", e);
    assert!(image_from_webp_bytes(b"not a webp file").is_err());
}

fn webp_of(data: &[u8], w: u32, h: u32, color: image_webp::ColorType) -> Vec<u8> {
    let mut out = Vec::new();
    image_webp::WebPEncoder::new(&mut out).encode(data, w, h, color).unwrap();
    out
}

#[test]
fn webp_round_trip_rgba() {
    let data = [10u8, 20, 30, 40, 50, 60, 70, 80, 90, 100, 110, 120, 130, 140, 150, 160];
    let bytes = webp_of(&data, 2, 2, image_webp::ColorType::Rgba8);
    let img = image_from_webp_bytes(&bytes).unwrap();
    assert_eq!(img.dimensions(), (2, 2));
    assert_eq!(img.rgba(), &data[..]);
}

#[test]
fn webp_round_trip_rgb_is_opaque() {
    let data = [1u8, 2, 3, 4, 5, 6];
    let bytes = webp_of(&data, 2, 1, image_webp::ColorType::Rgb8);
    let img = image_from_webp_bytes(&bytes).unwrap();
    assert_eq!(img.rgba(), &[1, 2, 3, 255, 4, 5, 6, 255]);
}

#[test]
fn compression_follows_quality() {
    assert_eq!(compression_for_quality(Some(100)), PngCompression::Fastest);
    assert_eq!(compression_for_quality(Some(76)), PngCompression::Fastest);
    assert_eq!(compression_for_quality(Some(75)), PngCompression::Balanced);
    assert_eq!(compression_for_quality(Some(26)), PngCompression::Balanced);
    assert_eq!(compression_for_quality(Some(25)), PngCompression::High);
    assert_eq!(compression_for_quality(Some(0)), PngCompression::High);
    assert_eq!(compression_for_quality(None), PngCompression::Balanced);
}

#[test]
fn png_round_trip() {
    let data = vec![1u8, 2, 3, 4, 5, 6, 7, 8];
    let img = Image::new_from_rgba(2, 1, data.clone());
    let bytes = encode_image_png(&img, Some(50)).unwrap();
    assert_eq!(&bytes[..8], &[137, 80, 78, 71, 13, 10, 26, 10]);
    let mut reader = png::Decoder::new(std::io::Cursor::new(bytes)).read_info().unwrap();
    let mut buf = vec![0u8; reader.output_buffer_size().unwrap()];
    let info = reader.next_frame(&mut buf).unwrap();
    assert_eq!((info.width, info.height), (2, 1));
    assert_eq!(&buf[..info.buffer_size()], &data[..]);
}

#[test]
fn encode_png_rejects_short_data() {
    assert!(encode_png(2, 2, &[0u8; 4], PngCompression::High).is_err());
}

#[test]
fn manifest_reads_all_entries() {
    let text = "name: Upscaler\ndescription: Doubles the size\nparams:\n  scale_factor: 2.0\n  tile_size: 128\n  tile_overlap: 16\ncontrol:\n  size: 2\n  defaults: [0.25, 0.75]\n  parameters:\n    - name: strength\n      description: How strong\n      index: 0\n    - name: detail\n      index: 1\n    - description: no name\n      index: 2\n";
    let m = ModelManifest::from_yaml(text).ok().unwrap();
    assert_eq!(m.name, "Upscaler");
    assert_eq!(m.description, "Doubles the size");
    assert_eq!(m.scale_factor_text, Some(String::from("2")));
    assert_eq!((m.tile_size, m.tile_overlap), (128, 16));
    let c = m.control.unwrap();
    assert_eq!(c.size, 2);
    assert_eq!(c.default_texts, Some(vec![String::from("0.25"), String::from("0.75")]));
    assert_eq!(c.parameters.len(), 2);
    assert_eq!((c.parameters[0].name.as_str(), c.parameters[0].description.as_str(), c.parameters[0].index), ("strength", "How strong", 0));
    assert_eq!((c.parameters[1].name.as_str(), c.parameters[1].description.as_str(), c.parameters[1].index), ("detail", "", 1));
}

#[test]
fn manifest_defaults() {
    let m = ModelManifest::from_yaml("tile_size: 64\ncontrol:\n  size: 0\n").ok().unwrap();
    assert_eq!(m.name, "Unknown Model");
    assert_eq!(m.description, "No description");
    assert_eq!(m.scale_factor_text, None);
    assert_eq!((m.tile_size, m.tile_overlap), (64, 32));
    assert!(m.control.is_none());
    let n = ModelManifest::from_yaml("params: ~\ncontrol: ~\n").ok().unwrap();
    assert_eq!((n.tile_size, n.tile_overlap), (256, 32));
    assert!(n.control.is_none());
}

#[test]
fn manifest_errors() {
    match ModelManifest::from_yaml("name: [") {
        Err(AiError::ModelLoadFailed(m)) => assert!(m.starts_with("Invalid YAML: "), "{}", m),
        _ => panic!("expected a load failure"),
    }
    match ModelManifest::from_yaml("") {
        Err(AiError::ModelLoadFailed(m)) => assert_eq!(m, "Empty YAML document"),
        _ => panic!("expected a load failure"),
    }
}

#[test]
fn area_route_choices() {
    assert_eq!(area_route(0, 5, true), AreaRoute::Skip);
    assert_eq!(area_route(5, 0, false), AreaRoute::Skip);
    assert_eq!(area_route(3, 4, true), AreaRoute::Gpu);
    assert_eq!(area_route(3, 4, false), AreaRoute::Cpu);
}
