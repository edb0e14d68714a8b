use co_scientist::marker::skill::{
    find_malformed_prefixes, find_next_marker, parse_markers, warn_about_malformed_prefixes,
    MalformedKind, Marker, MarkerOp,
};
use serde_json::Value;

fn value(m: &Marker) -> Value {
    serde_json::from_str(&m.payload).expect("a payload is JSON")
}

#[test]
fn parses_cleanly_emitted_marker() {
    let r = parse_markers(
        r#"I'll save that.

[[MEMORY_OP:save_semantic:{"scope":"experiment","summary":"x > y","details":{"k":1}}]]

Done."#,
    );
    assert_eq!(r.markers.len(), 1);
    assert_eq!(r.markers[0].op, "save_semantic");
    assert_eq!(value(&r.markers[0])["scope"], "experiment");
    assert_eq!(value(&r.markers[0])["details"]["k"], 1);
    assert!(r.cleaned_text.contains("I'll save that"));
    assert!(r.cleaned_text.contains("Done."));
    assert!(!r.cleaned_text.contains("MEMORY_OP"));
}

#[test]
fn skips_invalid_json() {
    let r = parse_markers("text [[MEMORY_OP:save_semantic:{not json}]] more");
    assert!(r.markers.is_empty());
    assert!(r.cleaned_text.contains("text"));
    assert!(r.cleaned_text.contains("more"));
}

#[test]
fn handles_multiple_markers() {
    let r = parse_markers(
        r#"a [[MEMORY_OP:save_semantic:{"scope":"x","summary":"y"}]] b [[MEMORY_OP:save_behavior:{"pattern":"p","notes":"n"}]] c"#,
    );
    assert_eq!(r.markers.len(), 2);
    assert_eq!(r.markers[0].op, "save_semantic");
    assert_eq!(r.markers[1].op, "save_behavior");
    assert!(r.cleaned_text.starts_with("a"));
    assert!(r.cleaned_text.ends_with("c"));
}

#[test]
fn skill_handles_nested_braces_in_json() {
    let r = parse_markers(
        r#"x [[MEMORY_OP:save_semantic:{"a":{"b":{"c":1}},"summary":"deep"}]] y"#,
    );
    assert_eq!(r.markers.len(), 1);
    assert_eq!(value(&r.markers[0])["a"]["b"]["c"], 1);
    assert_eq!(value(&r.markers[0])["summary"], "deep");
}

#[test]
fn parses_realistic_record_hypothesis_marker() {
    let marker = r#"[[MEMORY_OP:record_hypothesis:{"summary":"H0 persistence predicts robustness","details":"{\"statement\":\"x\",\"mechanism\":[\"a\",\"b\"],\"entities\":{\"k\":\"v\"}}"}]]"#;
    let r = parse_markers(marker);
    assert_eq!(
        r.markers.len(),
        1,
        "expected 1 marker, got {}; cleaned={:?}",
        r.markers.len(),
        r.cleaned_text
    );
    assert_eq!(r.markers[0].op, "record_hypothesis");
    assert_eq!(value(&r.markers[0])["summary"], "H0 persistence predicts robustness");
    let parsed = value(&r.markers[0]);
    let details_str = parsed["details"].as_str().unwrap();
    assert!(details_str.contains("\"statement\":\"x\""));
    assert!(details_str.contains("\"entities\":{\"k\":\"v\"}"));
}

#[test]
fn accepts_single_close_bracket_terminator() {
    let truncated = r#"[[MEMORY_OP:save_semantic:{"scope":"experiment","summary":"x"}]"#;
    let r = parse_markers(truncated);
    assert_eq!(r.markers.len(), 1, "single ] should terminate");
    assert_eq!(r.markers[0].op, "save_semantic");
}

#[test]
fn accepts_single_close_bracket_followed_by_newline() {
    let truncated = "[[MEMORY_OP:save_semantic:{\"scope\":\"experiment\",\"summary\":\"x\"}]\n";
    let r = parse_markers(truncated);
    assert_eq!(r.markers.len(), 1, "single ] + newline should terminate");
    assert_eq!(r.markers[0].op, "save_semantic");
}

#[test]
fn consumes_extra_trailing_brackets() {
    let text = "[[MEMORY_OP:save_semantic:{\"scope\":\"x\",\"summary\":\"y\"}]]]] trailing";
    let r = parse_markers(text);
    assert_eq!(r.markers.len(), 1, "marker parsed despite extra ]]");
    assert_eq!(r.markers[0].op, "save_semantic");
    assert!(
        !r.cleaned_text.contains(']'),
        "all trailing ] consumed; cleaned={:?}",
        r.cleaned_text
    );
    assert!(r.cleaned_text.contains("trailing"));
}

#[test]
fn consumes_many_extra_trailing_brackets() {
    let text = "[[MEMORY_OP:save_semantic:{\"scope\":\"x\",\"summary\":\"y\"}]]]]]]";
    let r = parse_markers(text);
    assert_eq!(r.markers.len(), 1);
    assert!(!r.cleaned_text.contains(']'));
}

#[test]
fn accepts_lowercase_prefix() {
    let text = "[[memory_op:save_semantic:{\"scope\":\"x\",\"summary\":\"y\"}]]";
    let r = parse_markers(text);
    assert_eq!(r.markers.len(), 1, "lowercase prefix accepted");
    assert_eq!(r.markers[0].op, "save_semantic");
}

#[test]
fn accepts_whitespace_after_colon() {
    let text = "[[MEMORY_OP:save_semantic: {\"scope\":\"x\",\"summary\":\"y\"}]]";
    let r = parse_markers(text);
    assert_eq!(r.markers.len(), 1, "space after colon accepted");
    assert_eq!(value(&r.markers[0])["scope"], "x");
}

#[test]
fn empty_payload_marks_no_marker_extracted() {
    let text = "before [[MEMORY_OP:save_semantic:]] after";
    let r = parse_markers(text);
    assert!(r.markers.is_empty(), "empty payload = no marker");
    assert!(r.cleaned_text.contains("before"));
    assert!(r.cleaned_text.contains("after"));
}

#[test]
fn unclosed_marker_does_not_crash() {
    let text = "preamble [[MEMORY_OP:save_semantic:{\"scope\":\"x\"";
    let r = parse_markers(text);
    assert!(r.markers.is_empty());
    assert!(r.cleaned_text.contains("preamble"));
}

#[test]
fn accepts_marker_without_trailing_brackets() {
    let text = r#"preamble [[MEMORY_OP:record_hypothesis:{"summary":"x","details":{"k":1}}"#;
    let r = parse_markers(text);
    assert_eq!(r.markers.len(), 1, "marker must be extracted despite missing ]]");
    assert_eq!(r.markers[0].op, "record_hypothesis");
    assert_eq!(value(&r.markers[0])["summary"], "x");
    assert!(r.cleaned_text.contains("preamble"));
}

#[test]
fn accepts_marker_at_eof_without_trailing_brackets() {
    let text = r#"[[MEMORY_OP:save_semantic:{"scope":"x","summary":"y"}"#;
    let r = parse_markers(text);
    assert_eq!(r.markers.len(), 1);
    assert_eq!(r.markers[0].op, "save_semantic");
    assert_eq!(value(&r.markers[0])["summary"], "y");
}

#[test]
fn incomplete_json_still_rejected() {
    let text = "[[MEMORY_OP:save_semantic:{\"scope\":\"x\"";
    let r = parse_markers(text);
    assert!(r.markers.is_empty(), "incomplete JSON must still fail");
}

#[test]
fn mixed_valid_and_malformed_markers() {
    let text = r#"
        [[MEMORY_OP:save_semantic:{"scope":"x","summary":"first"}]]
        oops this one is broken [[MEMORY_OP:save_behavior:]]
        and another good one [[MEMORY_OP:save_semantic:{"scope":"y","summary":"second"}]]
        done.
    "#;
    let r = parse_markers(text);
    assert_eq!(r.markers.len(), 2, "valid markers extracted");
    assert_eq!(r.markers[0].op, "save_semantic");
    assert_eq!(value(&r.markers[0])["summary"], "first");
    assert_eq!(r.markers[1].op, "save_semantic");
    assert_eq!(value(&r.markers[1])["summary"], "second");
    assert!(r.cleaned_text.contains("save_behavior"));
}

#[test]
fn uppercase_prefix_still_works() {
    let text = "[[MEMORY_OP:save_semantic:{\"scope\":\"x\",\"summary\":\"y\"}]]";
    let r = parse_markers(text);
    assert_eq!(r.markers.len(), 1);
}

#[test]
fn stray_open_bracket_is_ignored() {
    let text = "Here is [a bracket] and [[a double bracket] but no marker.";
    let r = parse_markers(text);
    assert!(r.markers.is_empty());
    assert!(r.cleaned_text.contains("[a bracket]"));
}

#[test]
fn pathological_many_brackets_does_not_hang() {
    let text = "[[MEMORY_OP:save_semantic:{\"scope\":\"x\",\"summary\":\"y\"}]" .to_string() + &"]".repeat(20);
    let r = parse_markers(&text);
    assert_eq!(r.markers.len(), 1);
}

#[test]
fn find_malformed_accepts_valid_marker_with_nontrivial_op_name() {
    let text = r#"...reasoning.

[[MEMORY_OP:memory_op:{"match_id":"H2_vs_H8","winner":"H2"}]]"#;
    let malformed = find_malformed_prefixes(text);
    assert!(
        malformed.is_empty(),
        "valid marker with op_name=memory_op must NOT be flagged; got {:?}",
        malformed,
    );
}

#[test]
fn find_malformed_accepts_canonical_save_semantic() {
    let text = r#"[[MEMORY_OP:save_semantic:{"scope":"x","summary":"y"}]]"#;
    assert!(find_malformed_prefixes(text).is_empty());
}

#[test]
fn find_malformed_flags_empty_payload() {
    let text = "before [[MEMORY_OP:save_semantic:]] after";
    let malformed = find_malformed_prefixes(text);
    assert_eq!(malformed.len(), 1);
    assert_eq!(malformed[0].kind, MalformedKind::EmptyOrNonObjectPayload);
}

#[test]
fn find_malformed_flags_unclosed_prefix() {
    let text = "tail [[MEMORY_OP:save_semantic:";
    let malformed = find_malformed_prefixes(text);
    assert_eq!(malformed.len(), 1);
    assert_eq!(malformed[0].kind, MalformedKind::Unclosed);
}

#[test]
fn find_malformed_accepts_whitespace_before_json() {
    let text = r#"[[MEMORY_OP:save_semantic: {"scope":"x"}]]"#;
    assert!(find_malformed_prefixes(text).is_empty());
}

#[test]
fn find_malformed_accepts_lowercase_prefix() {
    let text = r#"[[memory_op:save_semantic:{"k":"v"}]]"#;
    assert!(find_malformed_prefixes(text).is_empty());
}

#[test]
fn find_malformed_flags_non_object_payload() {
    let text = r#"[[MEMORY_OP:noop:[1,2,3]]]"#;
    let malformed = find_malformed_prefixes(text);
    assert_eq!(malformed.len(), 1);
    assert_eq!(malformed[0].kind, MalformedKind::EmptyOrNonObjectPayload);
}

#[test]
fn written_markers_are_read_back() {
    let text = "a [[MEMORY_OP:op_1:{\"k\":[1,\"]] } {\"]}]] b";
    let r = parse_markers(text);
    assert_eq!(r.markers.len(), 1);
    assert_eq!(r.markers[0].op, "op_1");
    assert_eq!(r.markers[0].payload, "{\"k\":[1,\"]] } {\"]}");
    assert_eq!(r.cleaned_text, "a  b");
}

#[test]
fn text_without_markers_is_only_trimmed() {
    let r = parse_markers("  no markers [here] ☃  ");
    assert!(r.markers.is_empty());
    assert_eq!(r.cleaned_text, "no markers [here] ☃");
}

#[test]
fn faults_are_told_by_their_byte() {
    let text = "ä [[MEMORY_OP:x:]] and [[memory_op:";
    let faults = find_malformed_prefixes(text);
    assert_eq!(faults.len(), 2);
    assert_eq!(faults[0].position, 3);
    assert_eq!(faults[1].position, text.find("[[memory_op:").unwrap());
    assert_eq!(
        warn_about_malformed_prefixes(text),
        vec![
            (3, "skill marker has empty or non-object payload; skipping"),
            (
                faults[1].position,
                "skill marker is unclosed (no payload or terminator); skipping"
            ),
        ]
    );
}

#[test]
fn operations_are_known_by_name() {
    for name in ["save_semantic", "save_behavior", "get_context"] {
        assert_eq!(MarkerOp::parse(name).unwrap().as_str(), name);
    }
    assert!(MarkerOp::parse("Save_semantic").is_none());
}

#[test]
fn markers_are_taken_in_order_whatever_their_case() {
    let r = parse_markers("[[memory_op:a:{}]] [[MEMORY_OP:b:{}]]");
    let ops: Vec<&str> = r.markers.iter().map(|m| m.op.as_str()).collect();
    assert_eq!(ops, vec!["a", "b"]);
    assert_eq!(r.cleaned_text, "");
    let r = parse_markers("x [[Memory_Op:bad]] y [[memory_op:c:{\"k\":1}]] z");
    let ops: Vec<&str> = r.markers.iter().map(|m| m.op.as_str()).collect();
    assert_eq!(ops, vec!["c"]);
    assert_eq!(r.cleaned_text, "x bad]] y  z");
    let r = parse_markers("x [[memory_op:bad:1]] y [[MEMORY_OP:c:{\"k\":1}]] z");
    assert_eq!(r.markers.len(), 1);
    assert_eq!(r.markers[0].op, "c");
    assert_eq!(r.cleaned_text, "x bad:1]] y  z");
}

#[test]
fn the_next_marker_is_found_with_its_parts() {
    let text: Vec<char> = "ab [[Memory_op: save : {\"k\":{}}]] c".chars().collect();
    let s = find_next_marker(&text, 0).unwrap();
    assert_eq!((s.start, s.json_start, s.json_end, s.end), (3, 23, 31, 33));
    assert_eq!(s.op, "save");
    assert!(find_next_marker(&text, 4).is_none());
    assert!(find_next_marker(&text, 100).is_none());
}
