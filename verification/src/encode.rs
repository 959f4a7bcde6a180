//! The escape classifier and the streaming encoder.
//!
//! The encoder makes a single forward pass and stays "pristine" (writes
//! nothing) until the first character that needs escaping; at that point it
//! flushes the unescaped prefix verbatim and escapes from there on. Inputs
//! that never trigger an escape are handed back borrowed, with no
//! allocation.

use std::borrow::Cow;
use vstd::prelude::*;
use vstd::string::StrSliceExecFns;
use vstd::string::StringExecFns;

use crate::model::{
    encoded, encoded_char, escape_of, hex_digit, hex_ref, is_ascii_alnum_spec,
    lemma_encoded_take_step, lemma_pass_through_identity, named_entity, needs_hex_spec,
    pass_through, Mode,
};

verus! {

/// One escape decision: a borrowed named-entity reference, or the two
/// uppercase hex digits of a computed `&#xHH;` reference.
pub enum EscapeAction {
    Named(&'static str),
    Hex(char, char),
}

impl EscapeAction {
    /// The characters this action writes to the output.
    pub open spec fn chars(self) -> Seq<char> {
        match self {
            EscapeAction::Named(e) => e@,
            EscapeAction::Hex(hi, lo) => seq!['&', '#', 'x', hi, lo, ';'],
        }
    }
}

/// The named-entity lookup: the canonical reference for the five reserved
/// characters, `None` for every other character.
pub fn lookup_minimal(c: char) -> (r: Option<&'static str>)
    ensures
        match r {
            Some(e) => named_entity(c) == Some(e@),
            None => named_entity(c) is None,
        },
{
    if c == '"' {
        proof {
            reveal_strlit("&quot;");
            assert("&quot;"@ =~= seq!['&', 'q', 'u', 'o', 't', ';']);
        }
        Some("&quot;")
    } else if c == '&' {
        proof {
            reveal_strlit("&amp;");
            assert("&amp;"@ =~= seq!['&', 'a', 'm', 'p', ';']);
        }
        Some("&amp;")
    } else if c == '\'' {
        proof {
            reveal_strlit("&#x27;");
            assert("&#x27;"@ =~= seq!['&', '#', 'x', '2', '7', ';']);
        }
        Some("&#x27;")
    } else if c == '<' {
        proof {
            reveal_strlit("&lt;");
            assert("&lt;"@ =~= seq!['&', 'l', 't', ';']);
        }
        Some("&lt;")
    } else if c == '>' {
        proof {
            reveal_strlit("&gt;");
            assert("&gt;"@ =~= seq!['&', 'g', 't', ';']);
        }
        Some("&gt;")
    } else {
        None
    }
}

/// Executable ASCII-alphanumeric test.
fn is_ascii_alnum(c: char) -> (r: bool)
    ensures
        r == is_ascii_alnum_spec(c),
{
    (c >= 'a' && c <= 'z') || (c >= 'A' && c <= 'Z') || (c >= '0' && c <= '9')
}

/// The uppercase hexadecimal digit character for a nibble.
fn hex_digit_char(n: u32) -> (r: char)
    requires
        n < 16,
    ensures
        r == hex_digit(n),
{
    if n < 10 {
        (0x30u8 + (n as u8)) as char
    } else {
        (0x37u8 + (n as u8)) as char
    }
}

/// Builds the `&#xHH;` escape for a single-byte code point, high nibble
/// first. Must never be called for code points at or above 256: the hex
/// form holds exactly two digits.
fn html_hex_encode(c: char) -> (r: EscapeAction)
    requires
        (c as u32) < 256,
    ensures
        r.chars() == hex_ref(c),
{
    let n = c as u32;
    let hi = hex_digit_char(n / 16);
    let lo = hex_digit_char(n % 16);
    let r = EscapeAction::Hex(hi, lo);
    proof {
        assert(r.chars() =~= hex_ref(c));
    }
    r
}

/// The attribute-mode hex rule: single-byte characters outside
/// `[a-zA-Z0-9]` get the computed escape, everything else passes. The
/// `< 256` guard keeps [`html_hex_encode`] within its domain.
fn should_hex_encode(c: char) -> (r: Option<EscapeAction>)
    ensures
        needs_hex_spec(c) ==> (r matches Some(a) && a.chars() == hex_ref(c)),
        !needs_hex_spec(c) ==> r is None,
{
    let b = c as u32;
    if b < 256 && (b > 127 || !is_ascii_alnum(c)) {
        Some(html_hex_encode(c))
    } else {
        None
    }
}

/// The classifier: the named-entity table is consulted first in both
/// modes; attribute mode then applies the hex rule.
fn should_encode(c: char, m: Mode) -> (r: Option<EscapeAction>)
    ensures
        match r {
            Some(a) => escape_of(c, m) == Some(a.chars()),
            None => escape_of(c, m) is None,
        },
{
    match lookup_minimal(c) {
        Some(e) => Some(EscapeAction::Named(e)),
        None => match m {
            Mode::Minimal => None,
            Mode::Attribute => should_hex_encode(c),
        },
    }
}

/// Relies on `String::push`: appends exactly the one character `c`.
#[verifier::external_body]
fn push_char(out: &mut String, c: char)
    ensures
        final(out)@ == old(out)@ + seq![c],
{
    out.push(c);
}

/// Appends one escape action's characters to the output buffer.
fn write_action(out: &mut String, a: &EscapeAction)
    ensures
        final(out)@ == old(out)@ + a.chars(),
{
    match a {
        EscapeAction::Named(e) => {
            out.append(*e);
        },
        EscapeAction::Hex(hi, lo) => {
            push_char(out, '&');
            push_char(out, '#');
            push_char(out, 'x');
            push_char(out, *hi);
            push_char(out, *lo);
            push_char(out, ';');
            proof {
                assert(out@ =~= old(out)@ + a.chars());
            }
        },
    }
}

/// The streaming pass. Encodes `s` opportunistically: nothing is written
/// while every character so far passes through; at the first escapable
/// character the whole unescaped prefix is flushed verbatim and encoding
/// continues explicitly. Returns whether the buffer was used: on `false`
/// the buffer is untouched and the caller substitutes the input itself.
fn encode_internal(out: &mut String, s: &str, m: Mode) -> (used: bool)
    ensures
        used == !pass_through(s@, m),
        used ==> final(out)@ == old(out)@ + encoded(s@, m),
        !used ==> final(out)@ == old(out)@,
{
    let ghost s0 = old(out)@;
    let n = s.unicode_len();
    // Have we written anything yet?
    let mut pristine = true;
    let mut i: usize = 0;
    while i < n
        invariant
            n == s@.len(),
            i <= n,
            pristine ==> out@ == s0 && pass_through(s@.take(i as int), m),
            !pristine ==> out@ == s0 + encoded(s@.take(i as int), m),
            !pristine ==> !pass_through(s@, m),
        decreases n - i,
    {
        let c = s.get_char(i);
        match should_encode(c, m) {
            None => {
                if pristine {
                    // Defer: output so far is implicitly the input prefix.
                    proof {
                        assert forall|j: int| 0 <= j < i + 1 implies escape_of(
                            #[trigger] s@.take(i as int + 1)[j],
                            m,
                        ) is None by {
                            if j < i {
                                assert(s@.take(i as int + 1)[j] == s@.take(i as int)[j]);
                            } else {
                                assert(s@.take(i as int + 1)[j] == s@[i as int]);
                            }
                        }
                    }
                } else {
                    push_char(out, c);
                    proof {
                        lemma_encoded_take_step(s@, m, i as int);
                        assert(out@ =~= s0 + encoded(s@.take(i as int + 1), m));
                    }
                }
            },
            Some(act) => {
                if pristine {
                    // First escape of the pass: flush the deferred prefix.
                    pristine = false;
                    let prefix = s.substring_char(0, i);
                    out.append(prefix);
                    proof {
                        assert(prefix@ =~= s@.take(i as int));
                        lemma_pass_through_identity(s@.take(i as int), m);
                    }
                }
                write_action(out, &act);
                proof {
                    lemma_encoded_take_step(s@, m, i as int);
                    assert(out@ =~= s0 + encoded(s@.take(i as int + 1), m));
                    assert(!pass_through(s@, m)) by {
                        assert(escape_of(s@[i as int], m) is Some);
                    }
                }
            },
        }
        i = i + 1;
    }
    proof {
        assert(s@.take(n as int) =~= s@);
    }
    !pristine
}

/// Encodes `s` in mode `m`, reusing the input unchanged (borrowed, no
/// allocation) exactly when nothing in it needs escaping.
fn encode_with<'a>(s: &'a str, m: Mode) -> (r: Cow<'a, str>)
    ensures
        r@ == encoded(s@, m),
        (r matches Cow::Borrowed(_)) <==> pass_through(s@, m),
        r matches Cow::Borrowed(b) ==> b@ == s@,
{
    let mut owned = String::new();
    if encode_internal(&mut owned, s, m) {
        proof {
            assert(owned@ =~= encoded(s@, m));
        }
        Cow::Owned(owned)
    } else {
        proof {
            lemma_pass_through_identity(s@, m);
        }
        Cow::Borrowed(s)
    }
}

/// HTML entity-encodes text with the minimal entity set: only the five
/// reserved characters are replaced, by their named entities; everything
/// else, all of Unicode included, passes through unescaped. Returns the
/// input borrowed, unchanged, when no substitution was needed.
pub fn encode_minimal<'a>(s: &'a str) -> (r: Cow<'a, str>)
    ensures
        r@ == encoded(s@, Mode::Minimal),
        (r matches Cow::Borrowed(_)) <==> pass_through(s@, Mode::Minimal),
        r matches Cow::Borrowed(b) ==> b@ == s@,
{
    encode_with(s, Mode::Minimal)
}

/// HTML entity-encodes text for use inside quoted attribute values: the
/// named entities of [`encode_minimal`], and further every single-byte
/// character outside `[a-zA-Z0-9]` as a two-digit hex reference `&#xHH;`.
/// Returns the input borrowed, unchanged, when no substitution was needed.
pub fn encode_attribute<'a>(s: &'a str) -> (r: Cow<'a, str>)
    ensures
        r@ == encoded(s@, Mode::Attribute),
        (r matches Cow::Borrowed(_)) <==> pass_through(s@, Mode::Attribute),
        r matches Cow::Borrowed(b) ==> b@ == s@,
{
    encode_with(s, Mode::Attribute)
}

/// HTML entity-encodes text for use in attribute values; a short synonym
/// for [`encode_attribute`].
pub fn encode<'a>(s: &'a str) -> (r: Cow<'a, str>)
    ensures
        r@ == encoded(s@, Mode::Attribute),
        (r matches Cow::Borrowed(_)) <==> pass_through(s@, Mode::Attribute),
        r matches Cow::Borrowed(b) ==> b@ == s@,
{
    encode_attribute(s)
}

/// The sink-writing pass shared by the `_to` entry points: appends the
/// full encoding of `s` to `out`; when nothing needed escaping the raw
/// input is written through at the end, once.
fn encode_with_to(out: &mut String, s: &str, m: Mode)
    ensures
        final(out)@ == old(out)@ + encoded(s@, m),
{
    if !encode_internal(out, s, m) {
        proof {
            lemma_pass_through_identity(s@, m);
        }
        out.append(s);
    }
}

/// Sink-writing counterpart of [`encode_minimal`]: appends the encoded
/// text to a caller-supplied buffer instead of returning it.
pub fn encode_minimal_to(out: &mut String, s: &str)
    ensures
        final(out)@ == old(out)@ + encoded(s@, Mode::Minimal),
{
    encode_with_to(out, s, Mode::Minimal);
}

/// Sink-writing counterpart of [`encode_attribute`]: appends the encoded
/// text to a caller-supplied buffer instead of returning it.
pub fn encode_attribute_to(out: &mut String, s: &str)
    ensures
        final(out)@ == old(out)@ + encoded(s@, Mode::Attribute),
{
    encode_with_to(out, s, Mode::Attribute);
}

/// Attribute-mode encoding to a caller-supplied buffer; a short synonym
/// for [`encode_attribute_to`].
pub fn encode_to(out: &mut String, s: &str)
    ensures
        final(out)@ == old(out)@ + encoded(s@, Mode::Attribute),
{
    encode_attribute_to(out, s);
}

} // verus!
