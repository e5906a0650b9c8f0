use zaoai_types::audio::{init_soloud, preview_step, PreviewStep, S_IS_DEBUG};
use zaoai_types::text::{option_debug_text, pad_right, text_eq};

#[test]
fn engine_setup_follows_debug_level() {
    assert_eq!(init_soloud().enable_visualization, S_IS_DEBUG > 0);
    assert!(init_soloud().enable_visualization);
}

#[test]
fn preview_steps() {
    assert!(matches!(preview_step(0), PreviewStep::Finished));
    assert!(matches!(preview_step(3), PreviewStep::ShowSpectrum));
}

#[test]
fn padding() {
    assert_eq!(pad_right("abc", 6), "abc   ");
    assert_eq!(pad_right("abcdef", 3), "abcdef");
    assert_eq!(pad_right("", 2), "  ");
    assert_eq!(pad_right("ß", 3), format!("{:<3}", "ß"));
}

#[test]
fn equality_and_debug() {
    assert!(text_eq("mkv", "mkv"));
    assert!(!text_eq("mkv", "mk"));
    assert!(!text_eq("mkv", "MKV"));
    assert_eq!(option_debug_text(&None), "None");
    assert_eq!(option_debug_text(&Some("a\nb".to_string())), format!("{:?}", Some("a\nb")));
}
