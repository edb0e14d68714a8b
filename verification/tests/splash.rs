use co_scientist::tui::splash::{
    brand_line, centre, is_tiny, model_line, prompt_line, rule_line, tiny_line, version_corner,
};
use co_scientist::tui::theme::{accent, Span};

fn text(line: &[Span]) -> String {
    line.iter().map(|s| s.text.as_str()).collect()
}

#[test]
fn content_is_centred_by_its_bytes() {
    assert_eq!(centre(80, 12), 34);
    assert_eq!(centre(81, 12), 34);
    assert_eq!(centre(10, 12), 0);
    assert_eq!(centre(12, 12), 0);
}

#[test]
fn a_tiny_screen_shows_the_prompt_alone() {
    assert!(is_tiny(39, 40));
    assert!(is_tiny(80, 9));
    assert!(!is_tiny(40, 10));
    assert_eq!(text(&tiny_line()), "│ > press any key to start");
}

#[test]
fn the_brand_has_an_accented_underscore() {
    let line = brand_line(80);
    assert_eq!(text(&line), format!("{}co_scientist", " ".repeat(34)));
    assert_eq!(line[2].text, "_");
    assert_eq!(line[2].style, accent());
    assert_eq!(brand_line(12).len(), 3);
}

#[test]
fn the_model_has_a_line_once_it_is_known() {
    assert!(model_line(80, "").is_none());
    let line = model_line(80, "sonnet").unwrap();
    // "model · sonnet" takes 15 bytes.
    assert_eq!(text(&line), format!("{}model · sonnet", " ".repeat(32)));
}

#[test]
fn rule_and_prompt_stand_in_the_middle() {
    assert_eq!(
        text(&rule_line(80)),
        format!("{}{}", " ".repeat(24), "─".repeat(32))
    );
    assert_eq!(
        text(&prompt_line(80)),
        format!("{}│ > press any key to start", " ".repeat(26))
    );
}

#[test]
fn the_version_needs_room() {
    assert_eq!(version_corner("0.1.0", 40).unwrap(), "~ 0.1.0");
    assert_eq!(version_corner("0.1.0", 7).unwrap(), "~ 0.1.0");
    assert!(version_corner("0.1.0", 6).is_none());
}
