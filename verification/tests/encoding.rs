use std::borrow::Cow;

use htmlescape2::{
    encode, encode_attribute, encode_attribute_to, encode_minimal, encode_minimal_to, encode_to,
};

#[test]
fn minimal_named_entities() {
    assert_eq!(encode_minimal("<"), "&lt;");
    assert_eq!(encode_minimal("&"), "&amp;");
    assert_eq!(encode_minimal("\""), "&quot;");
    assert_eq!(encode_minimal(">"), "&gt;");
    assert_eq!(encode_minimal("'"), "&#x27;");
}

#[test]
fn attribute_example_sentence() {
    assert_eq!(
        encode_attribute("\"No\", he said."),
        "&quot;No&quot;&#x2C;&#x20;he&#x20;said&#x2E;"
    );
}

#[test]
fn minimal_pass_through_is_borrowed() {
    let input = "plain text, nothing reserved.";
    let out = encode_minimal(input);
    assert!(matches!(out, Cow::Borrowed(_)));
    assert_eq!(out, input);
}

#[test]
fn attribute_pass_through_is_borrowed() {
    let input = "abc123";
    let out = encode_attribute(input);
    assert!(matches!(out, Cow::Borrowed(_)));
    assert_eq!(out, "abc123");
}

#[test]
fn escaping_yields_owned_buffer() {
    assert!(matches!(encode_minimal("<"), Cow::Owned(_)));
    assert!(matches!(encode_attribute("a b"), Cow::Owned(_)));
}

#[test]
fn empty_input_passes_through() {
    let out = encode_minimal("");
    assert!(matches!(out, Cow::Borrowed(_)));
    assert_eq!(out, "");
    let out = encode_attribute("");
    assert!(matches!(out, Cow::Borrowed(_)));
    assert_eq!(out, "");
}

#[test]
fn attribute_hex_boundary_at_256() {
    // U+00FF is the last single-byte code point: hex-escaped.
    assert_eq!(encode_attribute("\u{FF}"), "&#xFF;");
    // U+0100 is the first two-byte code point: passed through.
    let out = encode_attribute("\u{100}");
    assert!(matches!(out, Cow::Borrowed(_)));
    assert_eq!(out, "\u{100}");
}

#[test]
fn attribute_latin1_hex_escapes() {
    assert_eq!(encode_attribute("\u{E9}"), "&#xE9;");
    assert_eq!(encode_attribute(" "), "&#x20;");
    assert_eq!(encode_attribute("\n"), "&#x0A;");
    assert_eq!(encode_attribute("\u{7F}"), "&#x7F;");
    assert_eq!(encode_attribute("\u{80}"), "&#x80;");
}

#[test]
fn minimal_leaves_non_reserved_latin1_alone() {
    let input = "caf\u{E9} au lait \u{FF}";
    let out = encode_minimal(input);
    assert!(matches!(out, Cow::Borrowed(_)));
    assert_eq!(out, input);
}

#[test]
fn high_codepoints_pass_through_both_modes() {
    let input = "\u{65E5}\u{672C}\u{1F600}";
    assert_eq!(encode_minimal(input), input);
    assert_eq!(encode_attribute(input), input);
}

#[test]
fn characters_after_first_escape_are_kept_in_order() {
    assert_eq!(encode_minimal("a<b>c"), "a&lt;b&gt;c");
    assert_eq!(encode_minimal("\u{65E5}<\u{672C}"), "\u{65E5}&lt;\u{672C}");
    assert_eq!(encode_attribute("!ab9"), "&#x21;ab9");
}

#[test]
fn prefix_before_first_escape_is_flushed_verbatim() {
    assert_eq!(encode_minimal("hello & goodbye"), "hello &amp; goodbye");
    assert_eq!(encode_attribute("abc<"), "abc&lt;");
}

#[test]
fn encode_is_the_attribute_encoding() {
    assert_eq!(encode(","), "&#x2C;");
    assert_eq!(encode("\"No\", he said."), encode_attribute("\"No\", he said."));
}

#[test]
fn writer_variants_append_to_buffer() {
    let mut out = String::from("seen:");
    encode_minimal_to(&mut out, "a<b");
    assert_eq!(out, "seen:a&lt;b");

    let mut out = String::new();
    encode_attribute_to(&mut out, "\"No\"");
    assert_eq!(out, "&quot;No&quot;");

    let mut out = String::from("x=");
    encode_to(&mut out, "1 2");
    assert_eq!(out, "x=1&#x20;2");
}

#[test]
fn writer_variants_write_pass_through_input_once() {
    let mut out = String::from("x:");
    encode_minimal_to(&mut out, "plain");
    assert_eq!(out, "x:plain");

    let mut out = String::new();
    encode_attribute_to(&mut out, "abc123");
    assert_eq!(out, "abc123");
}

#[test]
fn both_hex_digits_always_emitted() {
    // High nibble zero still prints two digits, uppercase, lowercase x.
    assert_eq!(encode_attribute("\u{1}"), "&#x01;");
    assert_eq!(encode_attribute("\u{AB}"), "&#xAB;");
}
