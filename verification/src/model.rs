//! Mathematical model of the two encodings: the per-character classifier,
//! the encoding of a whole character sequence, and the lemmas relating them.

use vstd::prelude::*;

verus! {

/// The two encoding modes: `Minimal` escapes only the reserved characters
/// with a named entity; `Attribute` additionally hex-escapes every
/// single-byte character that is not an ASCII letter or digit.
#[derive(Clone, Copy, Debug)]
pub enum Mode {
    Minimal,
    Attribute,
}

/// The static named-entity table: the five reserved characters and their
/// canonical references. Every other character has no named entity here.
pub open spec fn named_entity(c: char) -> Option<Seq<char>> {
    if c == '"' {
        Some(seq!['&', 'q', 'u', 'o', 't', ';'])
    } else if c == '&' {
        Some(seq!['&', 'a', 'm', 'p', ';'])
    } else if c == '\'' {
        Some(seq!['&', '#', 'x', '2', '7', ';'])
    } else if c == '<' {
        Some(seq!['&', 'l', 't', ';'])
    } else if c == '>' {
        Some(seq!['&', 'g', 't', ';'])
    } else {
        None
    }
}

/// Whether `c` is an ASCII letter or digit, the set that attribute mode
/// never hex-escapes.
pub open spec fn is_ascii_alnum_spec(c: char) -> bool {
    ('a' <= c && c <= 'z') || ('A' <= c && c <= 'Z') || ('0' <= c && c <= '9')
}

/// Whether attribute mode hex-escapes `c` (when no named entity applies):
/// only single-byte code points, and among the ASCII ones only those that
/// are not alphanumeric. Code points at or above 256 always pass through.
pub open spec fn needs_hex_spec(c: char) -> bool {
    let b = c as u32;
    b < 256 && (b > 127 || !is_ascii_alnum_spec(c))
}

/// The uppercase hexadecimal digit for a nibble, from `0123456789ABCDEF`.
pub open spec fn hex_digit(n: u32) -> char
    recommends
        n < 16,
{
    if n < 10 {
        ((0x30 + n) as char)
    } else {
        ((0x37 + n) as char)
    }
}

/// The numeric character reference `&#xHH;` for a single-byte code point,
/// high nibble first.
pub open spec fn hex_ref(c: char) -> Seq<char>
    recommends
        (c as u32) < 256,
{
    seq!['&', '#', 'x', hex_digit((c as u32) / 16), hex_digit((c as u32) % 16), ';']
}

/// The classifier: the substitution required for `c` in mode `m`, or `None`
/// when `c` passes through unescaped. The named-entity table is consulted
/// first in both modes; attribute mode then applies the hex rule.
pub open spec fn escape_of(c: char, m: Mode) -> Option<Seq<char>> {
    match named_entity(c) {
        Some(e) => Some(e),
        None => match m {
            Mode::Minimal => None,
            Mode::Attribute => if needs_hex_spec(c) {
                Some(hex_ref(c))
            } else {
                None
            },
        },
    }
}

/// What the encoder emits for one character: its substitution, or the
/// character itself.
pub open spec fn encoded_char(c: char, m: Mode) -> Seq<char> {
    match escape_of(c, m) {
        Some(e) => e,
        None => seq![c],
    }
}

/// The encoding of a whole sequence: each character's emission, in order.
pub open spec fn encoded(s: Seq<char>, m: Mode) -> Seq<char>
    decreases s.len(),
{
    if s.len() == 0 {
        Seq::<char>::empty()
    } else {
        encoded_char(s[0], m) + encoded(s.drop_first(), m)
    }
}

/// Whether no character of `s` requires escaping in mode `m` (the
/// zero-allocation fast path applies exactly to such inputs).
pub open spec fn pass_through(s: Seq<char>, m: Mode) -> bool {
    forall|i: int| 0 <= i < s.len() ==> escape_of(#[trigger] s[i], m) is None
}

/// High code points always pass through: a character at or above code
/// point 256 is never escaped, in either mode. The named entities all
/// stand for single-byte characters, and the hex scheme deliberately
/// covers single-byte code points only.
pub proof fn lemma_high_codepoint_pass_through(c: char, m: Mode)
    requires
        c as u32 >= 256,
    ensures
        escape_of(c, m) is None,
        encoded_char(c, m) == seq![c],
{
}

/// ASCII letters and digits are exempt from attribute-mode hex escaping:
/// they always pass through unescaped.
pub proof fn lemma_alnum_pass_through(c: char)
    requires
        is_ascii_alnum_spec(c),
    ensures
        escape_of(c, Mode::Attribute) is None,
        encoded_char(c, Mode::Attribute) == seq![c],
{
}

/// Encoding distributes over concatenation: the output for `a + b` is the
/// output for `a` followed by the output for `b`.
pub proof fn lemma_encoded_append(a: Seq<char>, b: Seq<char>, m: Mode)
    ensures
        encoded(a + b, m) == encoded(a, m) + encoded(b, m),
    decreases a.len(),
{
    if a.len() == 0 {
        assert(a + b =~= b);
        assert(encoded(a, m) + encoded(b, m) =~= encoded(b, m));
    } else {
        assert((a + b).drop_first() =~= a.drop_first() + b);
        assert((a + b)[0] == a[0]);
        lemma_encoded_append(a.drop_first(), b, m);
        assert(encoded(a + b, m) =~= encoded(a, m) + encoded(b, m));
    }
}

/// A one-character sequence encodes to exactly that character's emission.
pub proof fn lemma_encoded_singleton(c: char, m: Mode)
    ensures
        encoded(seq![c], m) == encoded_char(c, m),
{
    let u = seq![c];
    assert(u.len() == 1);
    assert(u[0] == c);
    assert(u.drop_first() =~= Seq::<char>::empty());
    assert(encoded(u.drop_first(), m) == Seq::<char>::empty());
    assert(encoded(u, m) =~= encoded_char(c, m));
}

/// One encoding step: extending the prefix by one character appends that
/// character's emission.
pub proof fn lemma_encoded_take_step(s: Seq<char>, m: Mode, i: int)
    requires
        0 <= i < s.len(),
    ensures
        encoded(s.take(i + 1), m) == encoded(s.take(i), m) + encoded_char(s[i], m),
{
    assert(s.take(i + 1) =~= s.take(i) + seq![s[i]]);
    lemma_encoded_append(s.take(i), seq![s[i]], m);
    lemma_encoded_singleton(s[i], m);
}

/// Text that needs no escaping encodes to itself, byte for byte: the
/// encoders may hand the input back unchanged on such text.
pub proof fn lemma_pass_through_identity(s: Seq<char>, m: Mode)
    requires
        pass_through(s, m),
    ensures
        encoded(s, m) == s,
    decreases s.len(),
{
    if s.len() == 0 {
        assert(encoded(s, m) =~= s);
    } else {
        assert(escape_of(s[0], m) is None);
        assert forall|i: int| 0 <= i < s.drop_first().len() implies escape_of(
            #[trigger] s.drop_first()[i],
            m,
        ) is None by {
            assert(s.drop_first()[i] == s[i + 1]);
        }
        lemma_pass_through_identity(s.drop_first(), m);
        assert(encoded(s, m) =~= s);
    }
}

/// Once escaping has begun, later characters are never dropped: a character
/// that needs no escape still appears itself in the output, in order,
/// between the encodings of what surrounds it.
pub proof fn lemma_unescaped_char_kept(s: Seq<char>, m: Mode, i: int)
    requires
        0 <= i < s.len(),
        escape_of(s[i], m) is None,
    ensures
        encoded(s, m) == encoded(s.take(i), m) + seq![s[i]] + encoded(s.skip(i + 1), m),
{
    assert(s =~= (s.take(i) + seq![s[i]]) + s.skip(i + 1));
    lemma_encoded_append(s.take(i) + seq![s[i]], s.skip(i + 1), m);
    lemma_encoded_append(s.take(i), seq![s[i]], m);
    lemma_encoded_singleton(s[i], m);
}

} // verus!
