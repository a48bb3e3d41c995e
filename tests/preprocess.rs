use wpdm::cache::{cache_name_from_digest, get_cache_name, plan_cache_files};
use wpdm::preprocess::{build_bgra_buffer, get_crop_params, rgba_to_bgra, PreprocessError, WpLoader};
use wpdm::protocol::WpdmMonitor;

#[test]
fn square_image_on_wide_output_is_cut_vertically() {
    assert_eq!(get_crop_params(1920, 1080, 1000, 1000), (0, 219, 1000, 562));
}

#[test]
fn very_wide_image_is_cut_horizontally() {
    assert_eq!(get_crop_params(1920, 1080, 4000, 1000), (1112, 0, 1777, 1000));
}

#[test]
fn same_ratio_is_not_cut() {
    assert_eq!(get_crop_params(1920, 1080, 3840, 2160), (0, 0, 3840, 2160));
}

#[test]
fn image_is_cropped_before_resizing() {
    // A 4 by 1 image shown on a 1 by 1 output keeps the box (2, 0, 1, 1):
    // the third pixel alone, copied as it is.
    assert_eq!(get_crop_params(1, 1, 4, 1), (2, 0, 1, 1));
    let rgba = vec![200, 0, 0, 255, 200, 0, 0, 255, 0, 0, 200, 255, 0, 90, 0, 255];
    assert_eq!(build_bgra_buffer(&rgba, 4, 1, 1, 1), Ok(vec![200, 0, 0, 255]));
}

#[test]
fn channels_swap_to_bgra() {
    let mut buf = vec![1, 2, 3, 4, 5, 6, 7, 8, 9];
    rgba_to_bgra(&mut buf);
    assert_eq!(buf, vec![3, 2, 1, 4, 7, 6, 5, 8, 9]);
}

#[test]
fn uniform_image_becomes_uniform_bgra_buffer() {
    let rgba: Vec<u8> = [10u8, 20, 30, 255].repeat(8);
    let out = build_bgra_buffer(&rgba, 4, 2, 2, 1).unwrap();
    assert_eq!(out, [30u8, 20, 10, 255].repeat(2));
}

#[test]
fn preprocessing_errors() {
    let rgba = vec![0u8; 16];
    assert_eq!(build_bgra_buffer(&rgba, 0, 2, 2, 1), Err(PreprocessError::EmptySize));
    assert_eq!(build_bgra_buffer(&rgba, 2, 2, 0, 1), Err(PreprocessError::EmptySize));
    assert_eq!(build_bgra_buffer(&rgba, 4, 2, 2, 1), Err(PreprocessError::BadLength));
    let rgba = vec![0u8; 32];
    assert_eq!(build_bgra_buffer(&rgba, 4, 2, u32::MAX, u32::MAX), Err(PreprocessError::TooLarge));
}

#[test]
fn loader_prepares_a_buffer_of_the_output_size() {
    let rgba: Vec<u8> = [1u8, 2, 3, 255].repeat(16);
    let buf = WpLoader::config("/imgs/a.png".to_string(), 2, 2).load(&rgba, 4, 4).unwrap();
    assert_eq!((buf.width, buf.height), (2, 2));
    assert!(buf.monitors.is_empty());
    assert_eq!(buf.buffer.len(), 16);
    for px in buf.buffer.chunks(4) {
        assert!(px[0].abs_diff(3) <= 1 && px[1].abs_diff(2) <= 1 && px[2].abs_diff(1) <= 1, "{:?}", px);
        assert!(px[3] >= 254);
    }
}

#[test]
fn loader_keeps_an_image_of_the_output_size() {
    let rgba = vec![1, 2, 3, 4, 5, 6, 7, 8];
    let buf = WpLoader::config("/imgs/a.png".to_string(), 2, 1).load(&rgba, 2, 1).unwrap();
    assert_eq!(buf.buffer, vec![3, 2, 1, 4, 7, 6, 5, 8]);
    let short = WpLoader::config("/imgs/a.png".to_string(), 2, 1).load(&vec![0u8; 3], 2, 1);
    assert!(matches!(short, Err(PreprocessError::BadLength)));
}

#[test]
fn cache_name_from_sha256() {
    // SHA-256("abc") starts with ba7816bf8f01cfea4141.
    assert_eq!(get_cache_name("abc", 1920, 1080), "1920x1080_ba7816bf8f01cfea4141.bgra");
}

#[test]
fn cache_name_is_deterministic() {
    assert_eq!(get_cache_name("/imgs/a.png", 2560, 1440), get_cache_name("/imgs/a.png", 2560, 1440));
    assert_ne!(get_cache_name("/imgs/a.png", 2560, 1440), get_cache_name("/imgs/a.png", 1920, 1080));
}

#[test]
fn cache_name_keeps_twenty_hex_digits() {
    let digest = [0xabu8; 32];
    assert_eq!(cache_name_from_digest(&digest, -5, 7), "-5x7_abababababababababab.bgra");
    assert_eq!(cache_name_from_digest(&[1, 2], 1, 2), "1x2_0102.bgra");
    assert_eq!(cache_name_from_digest(&[], 1, 2), "1x2_.bgra");
}

#[test]
fn one_plan_per_output_size() {
    let monitors = vec![
        WpdmMonitor { name: "HDMI-A-1".to_string(), height: 1080, width: 1920 },
        WpdmMonitor { name: "eDP-1".to_string(), height: 1440, width: 2560 },
        WpdmMonitor { name: "DP-1".to_string(), height: 1080, width: 1920 },
    ];
    let plans = plan_cache_files("abc", &monitors);
    assert_eq!(plans.len(), 2);
    assert_eq!(plans[0].monitors, vec!["HDMI-A-1".to_string(), "DP-1".to_string()]);
    assert_eq!(plans[0].cache_name, "1920x1080_ba7816bf8f01cfea4141.bgra");
    assert_eq!(plans[1].monitors, vec!["eDP-1".to_string()]);
    assert_eq!(plans[1].cache_name, get_cache_name("abc", 2560, 1440));
}
