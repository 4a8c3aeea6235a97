use bar_data::cli::{parse_knobs, sanitize_filename, KnobError};
use bar_data::resolution::{fmt_tex_res, resolution_badge_label, ResolutionStatus};

fn status(
    current: Option<(u32, u32)>,
    low: Option<(u32, u32)>,
    high: Option<(u32, u32)>,
    low_pending: bool,
    high_pending: bool,
) -> ResolutionStatus {
    ResolutionStatus { current_tex_dims: current, low_tex_dims: low, high_tex_dims: high, low_pending, high_pending }
}

#[test]
fn tex_res_formats() {
    assert_eq!(fmt_tex_res(512, 512), "512px");
    assert_eq!(fmt_tex_res(1024, 512), "1024x512px");
    assert_eq!(fmt_tex_res(0, 0), "0px");
}

#[test]
fn badge_labels() {
    let low = Some((256, 256));
    let high = Some((2048, 1024));
    assert_eq!(resolution_badge_label(&status(None, low, high, false, false)), None);
    assert_eq!(resolution_badge_label(&status(None, low, high, true, true)).as_deref(), Some("-> 256px"));
    assert_eq!(
        resolution_badge_label(&status(Some((256, 256)), low, high, false, true)).as_deref(),
        Some("256px -> 2048x1024px")
    );
    assert_eq!(resolution_badge_label(&status(Some((256, 256)), low, high, true, false)).as_deref(), Some("256px"));
    assert_eq!(resolution_badge_label(&status(Some((64, 32)), low, high, false, false)).as_deref(), Some("64x32px"));
    assert_eq!(status(None, low, high, false, true).target_dims(), high);
}

#[test]
fn filenames_are_sanitized() {
    assert_eq!(sanitize_filename("My Map v1.0"), "my_map_v1_0");
    assert_eq!(sanitize_filename("rock-01_B"), "rock-01_b");
    assert_eq!(sanitize_filename("Größe/Ä"), "größe_ä");
    assert_eq!(sanitize_filename(""), "");
}

#[test]
fn knobs_parse_with_last_value_winning() {
    let args: Vec<String> = vec!["seed=4".into(), "scale=a=b".into(), "seed=7".into(), "empty=".into()];
    let map = parse_knobs(&args).unwrap();
    assert_eq!(
        map,
        vec![
            ("seed".to_string(), "7".to_string()),
            ("scale".to_string(), "a=b".to_string()),
            ("empty".to_string(), String::new()),
        ]
    );
}

#[test]
fn knob_without_equals_is_rejected() {
    let args: Vec<String> = vec!["ok=1".into(), "broken".into(), "also".into()];
    match parse_knobs(&args) {
        Err(KnobError::MissingEquals(k)) => assert_eq!(k, "broken"),
        Ok(_) => panic!("expected an error"),
    }
}
