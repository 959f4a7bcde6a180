//! A model of the reference decoder, and the round-trip law.
//!
//! Decoding itself is outside this library; what matters here is that a
//! decoder which understands named entities and `&#xHH;` numeric references
//! inverts both encoders on every input. [`decoded`] models such a decoder
//! over the reference forms the encoders emit, and [`lemma_round_trip`]
//! proves the inversion.

use vstd::prelude::*;
use vstd::utf8::char_u32_cast;

use crate::model::{encoded, encoded_char, escape_of, hex_digit, hex_ref, named_entity, Mode};

verus! {

/// Whether `c` is a digit of the uppercase hex alphabet `0123456789ABCDEF`.
pub open spec fn is_upper_hex_digit(c: char) -> bool {
    ('0' <= c && c <= '9') || ('A' <= c && c <= 'F')
}

/// The numeric value of an uppercase hex digit.
pub open spec fn hex_val(c: char) -> int
    recommends
        is_upper_hex_digit(c),
{
    if c <= '9' {
        c as int - 0x30
    } else {
        c as int - 0x37
    }
}

/// Whether `p` is a prefix of `s`.
pub open spec fn starts_with(s: Seq<char>, p: Seq<char>) -> bool {
    p.len() <= s.len() && s.take(p.len() as int) == p
}

/// Whether `s` opens with a two-digit numeric character reference
/// `&#xHH;`, the exact form attribute mode emits.
pub open spec fn is_hex_ref_start(s: Seq<char>) -> bool {
    s.len() >= 6 && s[0] == '&' && s[1] == '#' && s[2] == 'x' && is_upper_hex_digit(s[3])
        && is_upper_hex_digit(s[4]) && s[5] == ';'
}

/// The code point denoted by the numeric reference opening `s`, high
/// nibble first.
pub open spec fn hex_ref_value(s: Seq<char>) -> int
    recommends
        is_hex_ref_start(s),
{
    16 * hex_val(s[3]) + hex_val(s[4])
}

/// The decoder model: a single pass that replaces each character
/// reference at the head — numeric `&#xHH;` or one of the named entities —
/// by the character it denotes, and passes everything else through.
pub open spec fn decoded(s: Seq<char>) -> Seq<char>
    decreases s.len(),
{
    if s.len() == 0 {
        Seq::<char>::empty()
    } else if is_hex_ref_start(s) {
        seq![((hex_ref_value(s) as u32) as char)] + decoded(s.skip(6))
    } else if starts_with(s, seq!['&', 'q', 'u', 'o', 't', ';']) {
        seq!['"'] + decoded(s.skip(6))
    } else if starts_with(s, seq!['&', 'a', 'm', 'p', ';']) {
        seq!['&'] + decoded(s.skip(5))
    } else if starts_with(s, seq!['&', 'l', 't', ';']) {
        seq!['<'] + decoded(s.skip(4))
    } else if starts_with(s, seq!['&', 'g', 't', ';']) {
        seq!['>'] + decoded(s.skip(4))
    } else {
        seq![s[0]] + decoded(s.skip(1))
    }
}

/// The hex digits the encoder emits are uppercase hex digits, and reading
/// one back gives the nibble it was made from.
proof fn lemma_hex_digit_val(n: u32)
    requires
        n < 16,
    ensures
        is_upper_hex_digit(hex_digit(n)),
        hex_val(hex_digit(n)) == n,
{
}

/// A sequence that does not open with `&` opens with no reference at all.
proof fn lemma_no_ref_start(u: Seq<char>)
    requires
        u.len() > 0,
        u[0] != '&',
    ensures
        !is_hex_ref_start(u),
        !starts_with(u, seq!['&', 'q', 'u', 'o', 't', ';']),
        !starts_with(u, seq!['&', 'a', 'm', 'p', ';']),
        !starts_with(u, seq!['&', 'l', 't', ';']),
        !starts_with(u, seq!['&', 'g', 't', ';']),
{
    if starts_with(u, seq!['&', 'q', 'u', 'o', 't', ';']) {
        assert(u.take(6)[0] == u[0]);
    }
    if starts_with(u, seq!['&', 'a', 'm', 'p', ';']) {
        assert(u.take(5)[0] == u[0]);
    }
    if starts_with(u, seq!['&', 'l', 't', ';']) {
        assert(u.take(4)[0] == u[0]);
    }
    if starts_with(u, seq!['&', 'g', 't', ';']) {
        assert(u.take(4)[0] == u[0]);
    }
}

/// One decoding step inverts one encoding step: whatever one character was
/// encoded to, followed by any tail, decodes to that character followed by
/// the decoded tail.
pub proof fn lemma_decoded_unit(c: char, t: Seq<char>, m: Mode)
    ensures
        decoded(encoded_char(c, m) + t) == seq![c] + decoded(t),
{
    let u = encoded_char(c, m) + t;
    if escape_of(c, m) is Some {
        if c == '"' {
            assert(!is_hex_ref_start(u));
            assert(u.take(6) =~= seq!['&', 'q', 'u', 'o', 't', ';']);
            assert(u.skip(6) =~= t);
            assert(decoded(u) == seq!['"'] + decoded(t));
        } else if c == '&' {
            assert(!is_hex_ref_start(u));
            if starts_with(u, seq!['&', 'q', 'u', 'o', 't', ';']) {
                assert(u.take(6)[1] == u[1]);
            }
            assert(u.take(5) =~= seq!['&', 'a', 'm', 'p', ';']);
            assert(u.skip(5) =~= t);
            assert(decoded(u) == seq!['&'] + decoded(t));
        } else if c == '\'' {
            assert(is_hex_ref_start(u));
            assert(hex_ref_value(u) == 0x27);
            char_u32_cast(c, 0x27);
            assert(u.skip(6) =~= t);
            assert(decoded(u) == seq!['\''] + decoded(t));
        } else if c == '<' {
            assert(!is_hex_ref_start(u));
            if starts_with(u, seq!['&', 'q', 'u', 'o', 't', ';']) {
                assert(u.take(6)[1] == u[1]);
            }
            if starts_with(u, seq!['&', 'a', 'm', 'p', ';']) {
                assert(u.take(5)[1] == u[1]);
            }
            assert(u.take(4) =~= seq!['&', 'l', 't', ';']);
            assert(u.skip(4) =~= t);
            assert(decoded(u) == seq!['<'] + decoded(t));
        } else if c == '>' {
            assert(!is_hex_ref_start(u));
            if starts_with(u, seq!['&', 'q', 'u', 'o', 't', ';']) {
                assert(u.take(6)[1] == u[1]);
            }
            if starts_with(u, seq!['&', 'a', 'm', 'p', ';']) {
                assert(u.take(5)[1] == u[1]);
            }
            if starts_with(u, seq!['&', 'l', 't', ';']) {
                assert(u.take(4)[2] == u[2]);
            }
            assert(u.take(4) =~= seq!['&', 'g', 't', ';']);
            assert(u.skip(4) =~= t);
            assert(decoded(u) == seq!['>'] + decoded(t));
        } else {
            // The computed hex escape: only attribute mode reaches it.
            let b = c as u32;
            assert(encoded_char(c, m) == hex_ref(c));
            lemma_hex_digit_val(b / 16);
            lemma_hex_digit_val(b % 16);
            assert(is_hex_ref_start(u));
            assert(hex_ref_value(u) == 16 * ((b / 16) as int) + ((b % 16) as int));
            assert(16 * ((b / 16) as int) + ((b % 16) as int) == b as int);
            char_u32_cast(c, b);
            assert((hex_ref_value(u) as u32) as char == c);
            assert(u.skip(6) =~= t);
            assert(decoded(u) == seq![c] + decoded(t));
        }
    } else {
        // Pass-through: `&` always escapes, so `u` opens with no reference.
        assert(u[0] == c);
        assert(named_entity(c) is None);
        assert(c != '&');
        lemma_no_ref_start(u);
        assert(u.skip(1) =~= t);
        assert(decoded(u) == seq![c] + decoded(t));
    }
}

/// The round-trip law: a decoder that understands named entities and
/// `&#xHH;` numeric references recovers the original text from the output
/// of either encoding mode, for every input.
pub proof fn lemma_round_trip(s: Seq<char>, m: Mode)
    ensures
        decoded(encoded(s, m)) == s,
    decreases s.len(),
{
    if s.len() == 0 {
        assert(decoded(encoded(s, m)) =~= s);
    } else {
        lemma_round_trip(s.drop_first(), m);
        lemma_decoded_unit(s[0], encoded(s.drop_first(), m), m);
        assert(seq![s[0]] + s.drop_first() =~= s);
    }
}

} // verus!
