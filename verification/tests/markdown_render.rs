use co_scientist::tui::markdown::render;
use co_scientist::tui::theme::Span;

fn flatten(lines: &[Vec<Span>]) -> Vec<String> {
    lines
        .iter()
        .map(|spans| spans.iter().map(|s| s.text.as_str()).collect())
        .collect()
}

#[test]
fn markdown_plain_text_renders_one_line() {
    let out = render("hello world");
    let flat = flatten(&out);
    assert_eq!(flat, vec!["hello world".to_string()]);
}

#[test]
fn markdown_heading_has_accent_bar_and_following_blank() {
    let out = render("# Title\n\nbody\n");
    let flat = flatten(&out);
    assert!(
        flat[0].contains("▌"),
        "expected ▌ accent bar on heading line: {:?}",
        flat
    );
    assert!(
        flat[0].contains("Title"),
        "heading text missing: {:?}",
        flat
    );
    assert!(
        !flat[0].contains("TITLE"),
        "heading should not be uppercased: {:?}",
        flat
    );
    assert!(
        flat[1].is_empty(),
        "expected blank line after heading: {:?}",
        flat
    );
    assert!(flat[2].contains("body"), "body missing: {:?}", flat);
}

#[test]
fn markdown_unordered_list_each_item_is_its_own_line() {
    let out = render("- alpha\n- beta\n- gamma\n");
    let flat = flatten(&out);
    assert!(
        flat.iter().any(|l| l.contains("alpha")),
        "alpha missing: {:?}",
        flat
    );
    assert!(
        flat.iter().any(|l| l.contains("beta")),
        "beta missing: {:?}",
        flat
    );
    assert!(
        flat.iter().any(|l| l.contains("gamma")),
        "gamma missing: {:?}",
        flat
    );
    let mut seen = 0;
    for line in &flat {
        if line.contains("alpha") || line.contains("beta") || line.contains("gamma") {
            seen += 1;
        }
    }
    assert!(seen >= 3, "items collapsed to fewer lines: {:?}", flat);
}

#[test]
fn markdown_unordered_list_markers_rotate() {
    let out = render("- a\n- b\n- c\n- d\n");
    let flat = flatten(&out);
    let a_line = flat.iter().find(|l| l.contains("a")).unwrap();
    let b_line = flat.iter().find(|l| l.contains("b")).unwrap();
    let c_line = flat.iter().find(|l| l.contains("c")).unwrap();
    assert!(a_line.contains("›"), "first marker should be ›: {:?}", a_line);
    assert!(b_line.contains("·"), "second marker should be ·: {:?}", b_line);
    assert!(c_line.contains("∘"), "third marker should be ∘: {:?}", c_line);
}

#[test]
fn markdown_ordered_list_numbers_increment() {
    let out = render("1. first\n2. second\n3. third\n");
    let flat = flatten(&out);
    assert!(flat.iter().any(|l| l.contains("1") && l.contains("first")));
    assert!(flat.iter().any(|l| l.contains("2") && l.contains("second")));
    assert!(flat.iter().any(|l| l.contains("3") && l.contains("third")));
}

#[test]
fn markdown_fenced_code_block_internal_newlines_become_lines() {
    let out = render("```rust\nfn main() {\n    println!(\"hi\");\n}\n```\n");
    let flat = flatten(&out);
    assert!(flat.iter().any(|l| l.contains("fn main()")));
    assert!(flat.iter().any(|l| l.contains("println!")));
    assert!(flat.iter().any(|l| l.contains('}')));
}

#[test]
fn markdown_fenced_code_block_uses_thick_rule_header() {
    let out = render("```rust\nx\n```\n");
    let flat = flatten(&out);
    assert!(
        flat.iter().any(|l| l.contains("━━ rust")),
        "thick code-fence rule missing: {:?}",
        flat
    );
}

#[test]
fn markdown_blockquote_uses_broken_bar_gutter() {
    let out = render("> quoted line\n");
    let flat = flatten(&out);
    assert!(
        flat.iter().any(|l| l.contains("╎")),
        "blockquote gutter missing: {:?}",
        flat
    );
}

#[test]
fn markdown_bold_inline_gets_emphasis_style() {
    let out = render("hello **world** end");
    let bold_span = out
        .iter()
        .flat_map(|line| line.iter())
        .find(|s| s.text.contains("world"))
        .expect("world span missing");
    assert!(
        bold_span.style.bold,
        "expected bold on 'world' span: {:?}",
        bold_span.style
    );
}

#[test]
fn markdown_horizontal_rule_renders_dashes() {
    let out = render("above\n\n---\n\nbelow\n");
    let flat = flatten(&out);
    assert!(
        flat.iter().any(|l| l.contains("───")),
        "hr marker missing: {:?}",
        flat
    );
}

#[test]
fn markdown_trailing_blank_lines_are_trimmed() {
    let out = render("done.\n\n\n");
    let flat = flatten(&out);
    assert_eq!(flat.last().map(|s| s.as_str()), Some("done."));
}

#[test]
fn markdown_consecutive_paragraphs_have_no_blank_between_them() {
    let out = render("first.\n\nsecond.\n\nthird.\n");
    let flat = flatten(&out);
    let first_idx = flat.iter().position(|l| l.contains("first")).unwrap();
    let second_idx = flat.iter().position(|l| l.contains("second")).unwrap();
    let third_idx = flat.iter().position(|l| l.contains("third")).unwrap();
    assert_eq!(
        second_idx - first_idx,
        1,
        "expected no blank between consecutive paragraphs: {:?}",
        flat
    );
    assert_eq!(
        third_idx - second_idx,
        1,
        "expected no blank between consecutive paragraphs: {:?}",
        flat
    );
}

#[test]
fn markdown_heading_reserves_air_but_paragraph_does_not() {
    let out = render("# H\n\np1\n\np2\n");
    let flat = flatten(&out);
    let h_idx = flat.iter().position(|l| l.contains("H")).unwrap();
    let p1_idx = flat.iter().position(|l| l.contains("p1")).unwrap();
    let p2_idx = flat.iter().position(|l| l.contains("p2")).unwrap();
    assert_eq!(p1_idx - h_idx, 2, "heading should be followed by a blank then the paragraph: {:?}", flat);
    assert_eq!(p2_idx - p1_idx, 1, "paragraphs should be adjacent: {:?}", flat);
}
