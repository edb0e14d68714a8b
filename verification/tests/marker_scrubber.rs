use co_scientist::tui::marker_scrubber::scrub;

#[test]
fn whole_marker_stripped_in_single_delta() {
    let mut carry = String::new();
    let out = scrub(&mut carry, "hi [[MEMORY_OP:noop:{}]] bye");
    assert_eq!(out, "hi  bye");
    assert!(carry.is_empty(), "carry should be empty: {:?}", carry);
}

#[test]
fn prefix_only_no_false_positive() {
    let mut carry = String::new();
    let out = scrub(&mut carry, "text [[ not a marker ]] more");
    assert_eq!(out, "text [[ not a marker ]] more");
    assert!(carry.is_empty());
}

#[test]
fn bare_open_bracket_no_false_positive() {
    let mut carry = String::new();
    let out = scrub(&mut carry, "price [$10] off");
    assert_eq!(out, "price [$10] off");
    assert!(carry.is_empty());
}

#[test]
fn marker_split_across_two_deltas() {
    let mut carry = String::new();
    let out1 = scrub(&mut carry, "hello [[MEMORY_OP:save_semantic:{\"scope\":\"x\"");
    assert_eq!(out1, "hello ");
    assert!(!carry.is_empty(), "carry should hold half-marker");
    assert!(carry.contains("MEMORY_OP"), "carry retained marker prefix");
    let out2 = scrub(&mut carry, ",\"summary\":\"y\"}]] world");
    assert_eq!(out2, " world");
    assert!(carry.is_empty(), "carry cleared after marker closes");
    assert!(!out1.contains("MEMORY_OP"));
    assert!(!out2.contains("MEMORY_OP"));
}

#[test]
fn nested_json_brace_not_confused() {
    let mut carry = String::new();
    let out = scrub(&mut carry, "before [[MEMORY_OP:t:{\"k\":{\"v\":1}}]] after");
    assert_eq!(out, "before  after");
    assert!(carry.is_empty());
}

#[test]
fn multiple_markers_in_one_delta() {
    let mut carry = String::new();
    let out = scrub(
        &mut carry,
        "[[MEMORY_OP:a:{}]] middle [[MEMORY_OP:b:{\"x\":1}]] end",
    );
    assert_eq!(out, " middle  end");
    assert!(carry.is_empty());
}

#[test]
fn unterminated_marker_carries_forward() {
    let mut carry = String::new();
    let out = scrub(&mut carry, "before [[MEMORY_OP:save:{\"scope\":");
    assert_eq!(out, "before ");
    assert!(!carry.is_empty());
    assert!(carry.contains("MEMORY_OP"));
}

#[test]
fn markdown_text_with_brackets_passes_through() {
    let mut carry = String::new();
    let out = scrub(&mut carry, "see [docs](https://example.com) and `[]`");
    assert_eq!(out, "see [docs](https://example.com) and `[]`");
    assert!(carry.is_empty());
}

#[test]
fn braces_are_counted_before_a_marker_closes() {
    let mut carry = String::new();
    let out = scrub(&mut carry, "a [[MEMORY_OP:t:{\"k\":[[{\"v\":1}]]}]] b");
    assert_eq!(out, "a  b");
    assert!(carry.is_empty());
    assert_eq!(scrub(&mut carry, "[[MEMORY_OP:t:}{}]]x"), "x");
    assert!(carry.is_empty());
}

#[test]
fn the_beginning_of_an_opening_is_carried() {
    let mut carry = String::new();
    assert_eq!(scrub(&mut carry, "hi [[MEM"), "hi ");
    assert_eq!(carry, "[[MEM");
    assert_eq!(scrub(&mut carry, "ORY_OP:noop:{}]] bye"), " bye");
    assert!(carry.is_empty());
    assert_eq!(scrub(&mut carry, "x ["), "x ");
    assert_eq!(carry, "[");
    assert_eq!(scrub(&mut carry, "[y"), "[[y");
    assert!(carry.is_empty());
}

#[test]
fn a_text_may_be_cut_anywhere() {
    let text = "ä [[[MEMORY_OP:a:{\"k\":[[{}]]}]] [[x]] [[MEMORY_OP:b:{}]]. [[MEMORY_OP:c:{";
    let mut whole_carry = String::new();
    let whole = scrub(&mut whole_carry, text);
    assert_eq!(whole, "ä [ [[x]] . ");
    assert_eq!(whole_carry, "[[MEMORY_OP:c:{");
    for (at, _) in text.char_indices() {
        let mut carry = String::new();
        let mut out = scrub(&mut carry, &text[..at]);
        out.push_str(&scrub(&mut carry, &text[at..]));
        assert_eq!(out, whole, "cut at {at}");
        assert_eq!(carry, whole_carry, "cut at {at}");
    }
}

#[test]
fn braces_inside_strings_do_not_count() {
    let mut carry = String::new();
    assert_eq!(scrub(&mut carry, "[[MEMORY_OP:a:{\"x\":\"{\"}]] tail"), " tail");
    assert!(carry.is_empty());
    assert_eq!(scrub(&mut carry, "[[MEMORY_OP:a:{\"x\":\"}]]\"}]] tail"), " tail");
    assert!(carry.is_empty());
    assert_eq!(scrub(&mut carry, "[[MEMORY_OP:a:{\"x\":\"\\\"{\\\\\"}]] tail"), " tail");
    assert!(carry.is_empty());
    assert_eq!(scrub(&mut carry, "[[MEMORY_OP:it's 3\" wide]] tail"), " tail");
    assert!(carry.is_empty());
}
