//! The metadata document parser.
//!
//! A metadata document is a small XML document:
//!
//! ```text
//! document := bom? misc declaration? misc root misc EOF
//! misc := (ws | comment)*
//! declaration := "<?" (any bytes) "?>"
//! comment := "<!--" (any bytes) "-->"
//! root := "<" name attrs (">" content close | "/>")
//! content := (text-byte | entity | comment | known-child | other-child)*
//! known-child := "<" known-name attrs (">" text close | "/>")
//! close := "</" name ws* ">"   -- the name must equal the opening name
//! text := (text-byte | entity)*
//! ```
//!
//! Text bytes are tab, line feed, carriage return, and everything from
//! space upward — non-ASCII included — except `<` and `&`; `&` introduces
//! one of the five standard entities (`&lt;` `&gt;` `&amp;` `&apos;`
//! `&quot;`) or a numeric character reference (`&#233;`, `&#xE9;`)
//! denoting a Unicode scalar, which stands for that scalar's UTF-8
//! bytes. Attributes are tolerated and ignored: after a tag's name,
//! everything up to the closing `>` is skipped, `/>` closing the tag
//! empty. The root element's name is not inspected. The children named
//! `name`, `author`, `description` and `link` fill the metadata fields
//! (each at most once; their decoded text must be valid UTF-8 and must
//! hold no child elements); every other child is ignored whole, nested
//! elements and all — inside ignored children only tag balance is
//! checked, not name correspondence. Any other shape is malformed.

use vstd::prelude::*;

use crate::metadata::{ParseError, RespackInfo, RespackInfoView, default_info_view};
use vstd::utf8::{decode_utf8, encode_scalar, is_scalar, valid_utf8};

verus! {

/// XML whitespace: space, horizontal tab, line feed, carriage return.
pub open spec fn is_ws(b: u8) -> bool {
    b == 0x20 || b == 0x09 || b == 0x0a || b == 0x0d
}

/// A byte that may start a tag name: an ASCII letter or `_`.
pub open spec fn is_name_start(b: u8) -> bool {
    0x41 <= b <= 0x5a || 0x61 <= b <= 0x7a || b == 0x5f
}

/// A byte that may continue a tag name: a name-start byte, a digit, `-`
/// or `.`.
pub open spec fn is_name_byte(b: u8) -> bool {
    is_name_start(b) || 0x30 <= b <= 0x39 || b == 0x2d || b == 0x2e
}

/// A byte that may stand in text as itself: tab, line feed, carriage
/// return, or anything from space upward other than `<` and `&`.
pub open spec fn is_text_byte(b: u8) -> bool {
    b == 0x09 || b == 0x0a || b == 0x0d || (0x20 <= b && b != 0x3c && b != 0x26)
}

/// The position after the run of whitespace that starts at `i`.
pub open spec fn skip_ws_spec(s: Seq<u8>, i: int) -> int
    decreases s.len() - i,
{
    if 0 <= i < s.len() && is_ws(s[i]) {
        skip_ws_spec(s, i + 1)
    } else {
        i
    }
}

pub proof fn lemma_skip_ws_bounds(s: Seq<u8>, i: int)
    requires
        0 <= i <= s.len(),
    ensures
        i <= skip_ws_spec(s, i) <= s.len(),
    decreases s.len() - i,
{
    if i < s.len() && is_ws(s[i]) {
        lemma_skip_ws_bounds(s, i + 1);
    }
}

/// The position after the run of name bytes that starts at `i`.
pub open spec fn name_end_spec(s: Seq<u8>, i: int) -> int
    decreases s.len() - i,
{
    if 0 <= i < s.len() && is_name_byte(s[i]) {
        name_end_spec(s, i + 1)
    } else {
        i
    }
}

pub proof fn lemma_name_end_bounds(s: Seq<u8>, i: int)
    requires
        0 <= i <= s.len(),
    ensures
        i <= name_end_spec(s, i) <= s.len(),
    decreases s.len() - i,
{
    if i < s.len() && is_name_byte(s[i]) {
        lemma_name_end_bounds(s, i + 1);
    }
}

/// The entity reference starting at `i`, if any: the byte it stands for
/// and the position after it. The five standard entities are recognised.
pub open spec fn entity_spec(s: Seq<u8>, i: int) -> Option<(u8, int)> {
    if i + 4 <= s.len() && 0 <= i && s[i] == 0x26 && s[i + 1] == 0x6c && s[i + 2] == 0x74 && s[i
        + 3] == 0x3b {
        // &lt;
        Some((0x3c, i + 4))
    } else if i + 4 <= s.len() && 0 <= i && s[i] == 0x26 && s[i + 1] == 0x67 && s[i + 2] == 0x74
        && s[i + 3] == 0x3b {
        // &gt;
        Some((0x3e, i + 4))
    } else if i + 5 <= s.len() && 0 <= i && s[i] == 0x26 && s[i + 1] == 0x61 && s[i + 2] == 0x6d
        && s[i + 3] == 0x70 && s[i + 4] == 0x3b {
        // &amp;
        Some((0x26, i + 5))
    } else if i + 6 <= s.len() && 0 <= i && s[i] == 0x26 && s[i + 1] == 0x61 && s[i + 2] == 0x70
        && s[i + 3] == 0x6f && s[i + 4] == 0x73 && s[i + 5] == 0x3b {
        // &apos;
        Some((0x27, i + 6))
    } else if i + 6 <= s.len() && 0 <= i && s[i] == 0x26 && s[i + 1] == 0x71 && s[i + 2] == 0x75
        && s[i + 3] == 0x6f && s[i + 4] == 0x74 && s[i + 5] == 0x3b {
        // &quot;
        Some((0x22, i + 6))
    } else {
        None
    }
}

/// A decimal digit byte.
pub open spec fn dec_digit(b: u8) -> bool {
    0x30 <= b <= 0x39
}

/// A hexadecimal digit byte.
pub open spec fn hex_digit(b: u8) -> bool {
    dec_digit(b) || 0x41 <= b <= 0x46 || 0x61 <= b <= 0x66
}

/// The value of a hexadecimal digit byte.
pub open spec fn hex_value(b: u8) -> int {
    if dec_digit(b) {
        b - 0x30
    } else if 0x41 <= b <= 0x46 {
        b - 0x41 + 10
    } else {
        b - 0x61 + 10
    }
}

/// The digits of a decimal character reference from `i` to its `;`: the
/// accumulated value and the position after. A value past the largest
/// Unicode scalar fails at once.
pub open spec fn dec_ref_spec(s: Seq<u8>, i: int, acc: int) -> Option<(int, int)>
    decreases s.len() - i,
{
    if i < 0 || i >= s.len() {
        None
    } else if s[i] == 0x3b {
        Some((acc, i + 1))
    } else if dec_digit(s[i]) && acc * 10 + (s[i] - 0x30) <= 0x10ffff {
        dec_ref_spec(s, i + 1, acc * 10 + (s[i] - 0x30))
    } else {
        None
    }
}

proof fn lemma_dec_ref_bounds(s: Seq<u8>, i: int, acc: int)
    requires
        dec_ref_spec(s, i, acc) is Some,
    ensures
        i < dec_ref_spec(s, i, acc)->Some_0.1 <= s.len(),
    decreases s.len() - i,
{
    if s[i] != 0x3b {
        lemma_dec_ref_bounds(s, i + 1, acc * 10 + (s[i] - 0x30));
    }
}

/// The digits of a hexadecimal character reference from `i` to its `;`.
pub open spec fn hex_ref_spec(s: Seq<u8>, i: int, acc: int) -> Option<(int, int)>
    decreases s.len() - i,
{
    if i < 0 || i >= s.len() {
        None
    } else if s[i] == 0x3b {
        Some((acc, i + 1))
    } else if hex_digit(s[i]) && acc * 16 + hex_value(s[i]) <= 0x10ffff {
        hex_ref_spec(s, i + 1, acc * 16 + hex_value(s[i]))
    } else {
        None
    }
}

proof fn lemma_hex_ref_bounds(s: Seq<u8>, i: int, acc: int)
    requires
        hex_ref_spec(s, i, acc) is Some,
    ensures
        i < hex_ref_spec(s, i, acc)->Some_0.1 <= s.len(),
    decreases s.len() - i,
{
    if s[i] != 0x3b {
        lemma_hex_ref_bounds(s, i + 1, acc * 16 + hex_value(s[i]));
    }
}

/// A Unicode scalar value: one `char` can carry.
pub open spec fn scalar_value(v: int) -> bool {
    0 <= v <= 0x10ffff && !(0xd800 <= v <= 0xdfff)
}

/// The numeric character reference at `i` — `&#233;` or `&#xE9;`, with at
/// least one digit: the UTF-8 bytes of its scalar and the position after.
pub open spec fn char_ref_spec(s: Seq<u8>, i: int) -> Option<(Seq<u8>, int)> {
    if 0 <= i && i + 2 < s.len() && s[i] == 0x26 && s[i + 1] == 0x23 {
        if s[i + 2] == 0x78 && i + 3 < s.len() && hex_digit(s[i + 3]) {
            match hex_ref_spec(s, i + 3, 0) {
                Some((v, j)) => if scalar_value(v) {
                    Some((encode_scalar(v as u32), j))
                } else {
                    None
                },
                None => None,
            }
        } else if dec_digit(s[i + 2]) {
            match dec_ref_spec(s, i + 2, 0) {
                Some((v, j)) => if scalar_value(v) {
                    Some((encode_scalar(v as u32), j))
                } else {
                    None
                },
                None => None,
            }
        } else {
            None
        }
    } else {
        None
    }
}

/// The reference at `i`, a named entity or a numeric character reference:
/// the bytes it stands for and the position after it.
pub open spec fn ref_spec(s: Seq<u8>, i: int) -> Option<(Seq<u8>, int)> {
    match entity_spec(s, i) {
        Some((b, j)) => Some((seq![b], j)),
        None => char_ref_spec(s, i),
    }
}

pub proof fn lemma_ref_bounds(s: Seq<u8>, i: int)
    requires
        ref_spec(s, i) is Some,
    ensures
        i < ref_spec(s, i)->Some_0.1 <= s.len(),
{
    if entity_spec(s, i) is None {
        if i + 2 < s.len() && s[i + 2] == 0x78 && i + 3 < s.len() && hex_digit(s[i + 3]) {
            lemma_hex_ref_bounds(s, i + 3, 0);
        } else {
            lemma_dec_ref_bounds(s, i + 2, 0);
        }
    }
}

/// The text run starting at `i`: its decoded bytes and the position of the
/// `<` that ends it. Unterminated or illegal text is `None`.
pub open spec fn text_spec(s: Seq<u8>, i: int) -> Option<(Seq<u8>, int)>
    decreases s.len() - i,
        via text_spec_decreases
{
    if i < 0 || i >= s.len() {
        None
    } else if s[i] == 0x3c {
        Some((Seq::empty(), i))
    } else if s[i] == 0x26 {
        match ref_spec(s, i) {
            Some((bs, j)) => match text_spec(s, j) {
                Some((t, k)) => Some((bs + t, k)),
                None => None,
            },
            None => None,
        }
    } else if is_text_byte(s[i]) {
        match text_spec(s, i + 1) {
            Some((t, k)) => Some((seq![s[i]] + t, k)),
            None => None,
        }
    } else {
        None
    }
}

#[via_fn]
proof fn text_spec_decreases(s: Seq<u8>, i: int) {
    if 0 <= i < s.len() && s[i] == 0x26 && ref_spec(s, i) is Some {
        lemma_ref_bounds(s, i);
    }
}

/// Decoded text ends within the input.
pub proof fn lemma_text_bounds(s: Seq<u8>, i: int)
    requires
        text_spec(s, i) is Some,
    ensures
        i <= text_spec(s, i)->Some_0.1 <= s.len(),
    decreases s.len() - i,
{
    if s[i] == 0x3c {
    } else if s[i] == 0x26 {
        lemma_ref_bounds(s, i);
        let (bs, j) = ref_spec(s, i)->Some_0;
        lemma_text_bounds(s, j);
    } else {
        lemma_text_bounds(s, i + 1);
    }
}

/// The end of the attribute region that starts at `i` (just after a tag's
/// name): the position after the tag's `>`, and whether the tag closed
/// itself with `/>`. Everything up to there except `<` and `>` is
/// tolerated and ignored.
pub open spec fn tag_end_spec(s: Seq<u8>, i: int) -> Option<(int, bool)>
    decreases s.len() - i,
{
    if i < 0 || i >= s.len() {
        None
    } else if s[i] == 0x3e {
        Some((i + 1, false))
    } else if s[i] == 0x2f && i + 1 < s.len() && s[i + 1] == 0x3e {
        Some((i + 2, true))
    } else if s[i] != 0x3c {
        tag_end_spec(s, i + 1)
    } else {
        None
    }
}

pub proof fn lemma_tag_end_bounds(s: Seq<u8>, i: int)
    requires
        tag_end_spec(s, i) is Some,
    ensures
        i < tag_end_spec(s, i)->Some_0.0 <= s.len(),
    decreases s.len() - i,
{
    if s[i] == 0x3e {
    } else if s[i] == 0x2f && i + 1 < s.len() && s[i + 1] == 0x3e {
    } else {
        lemma_tag_end_bounds(s, i + 1);
    }
}

/// The position after the `-->` that ends a comment, scanning from `i`.
pub open spec fn comment_end_spec(s: Seq<u8>, i: int) -> Option<int>
    decreases s.len() - i,
{
    if i < 0 || i + 2 >= s.len() {
        None
    } else if s[i] == 0x2d && s[i + 1] == 0x2d && s[i + 2] == 0x3e {
        Some(i + 3)
    } else {
        comment_end_spec(s, i + 1)
    }
}

pub proof fn lemma_comment_end_bounds(s: Seq<u8>, i: int)
    requires
        comment_end_spec(s, i) is Some,
        0 <= i,
    ensures
        i < comment_end_spec(s, i)->Some_0 <= s.len(),
    decreases s.len() - i,
{
    if !(i + 2 >= s.len()) && !(s[i] == 0x2d && s[i + 1] == 0x2d && s[i + 2] == 0x3e) {
        lemma_comment_end_bounds(s, i + 1);
    }
}

/// A comment opener `<!--` stands at `i`.
pub open spec fn is_comment_start(s: Seq<u8>, i: int) -> bool {
    0 <= i && i + 3 < s.len() && s[i] == 0x3c && s[i + 1] == 0x21 && s[i + 2] == 0x2d && s[i + 3]
        == 0x2d
}

/// The position after the whitespace and comments that start at `i`;
/// `None` on an unterminated comment.
pub open spec fn misc_spec(s: Seq<u8>, i: int) -> Option<int>
    decreases s.len() - i,
        via misc_spec_decreases
{
    if i < 0 || i > s.len() {
        None
    } else {
        let w = skip_ws_spec(s, i);
        if is_comment_start(s, w) {
            match comment_end_spec(s, w + 4) {
                Some(j) => misc_spec(s, j),
                None => None,
            }
        } else {
            Some(w)
        }
    }
}

#[via_fn]
proof fn misc_spec_decreases(s: Seq<u8>, i: int) {
    if 0 <= i <= s.len() {
        lemma_skip_ws_bounds(s, i);
        let w = skip_ws_spec(s, i);
        if is_comment_start(s, w) && comment_end_spec(s, w + 4) is Some {
            lemma_comment_end_bounds(s, w + 4);
        }
    }
}


/// The closing tag at `i` whose name must equal `s[a..b]`: the position
/// after its `>`, if it is well-formed.
pub open spec fn close_spec(s: Seq<u8>, i: int, a: int, b: int) -> Option<int> {
    if 0 <= i && i + 2 < s.len() && s[i] == 0x3c && s[i + 1] == 0x2f && is_name_start(s[i + 2]) {
        let ne = name_end_spec(s, i + 2);
        if s.subrange(i + 2, ne) == s.subrange(a, b) {
            let w = skip_ws_spec(s, ne);
            if w < s.len() && s[w] == 0x3e {
                Some(w + 1)
            } else {
                None
            }
        } else {
            None
        }
    } else {
        None
    }
}

pub proof fn lemma_close_bounds(s: Seq<u8>, i: int, a: int, b: int)
    requires
        close_spec(s, i, a, b) is Some,
    ensures
        i < close_spec(s, i, a, b)->Some_0 <= s.len(),
{
    lemma_name_end_bounds(s, i + 2);
    let ne = name_end_spec(s, i + 2);
    lemma_skip_ws_bounds(s, ne);
}

/// Scans past the content of an ignored element, from `i` at nesting
/// `depth` inside it, to just after the close tag that ends it. Nested
/// tags must balance (close names are not matched against open names
/// here), comments and entities are allowed, anything else is `None`.
pub open spec fn skip_to_close_spec(s: Seq<u8>, i: int, depth: nat) -> Option<int>
    decreases s.len() - i,
        via skip_to_close_spec_decreases
{
    if i < 0 || i >= s.len() || depth == 0 {
        None
    } else if s[i] == 0x3c {
        if i + 1 < s.len() && s[i + 1] == 0x2f {
            if i + 2 < s.len() && is_name_start(s[i + 2]) {
                let ne = name_end_spec(s, i + 2);
                let w = skip_ws_spec(s, ne);
                if w < s.len() && s[w] == 0x3e {
                    if depth == 1 {
                        Some(w + 1)
                    } else {
                        skip_to_close_spec(s, w + 1, (depth - 1) as nat)
                    }
                } else {
                    None
                }
            } else {
                None
            }
        } else if is_comment_start(s, i) {
            match comment_end_spec(s, i + 4) {
                Some(j) => skip_to_close_spec(s, j, depth),
                None => None,
            }
        } else if i + 1 < s.len() && is_name_start(s[i + 1]) {
            let ne = name_end_spec(s, i + 1);
            match tag_end_spec(s, ne) {
                Some((j, self_closing)) => skip_to_close_spec(
                    s,
                    j,
                    if self_closing {
                        depth
                    } else {
                        depth + 1
                    },
                ),
                None => None,
            }
        } else {
            None
        }
    } else if s[i] == 0x26 {
        match ref_spec(s, i) {
            Some((bs, j)) => skip_to_close_spec(s, j, depth),
            None => None,
        }
    } else if is_text_byte(s[i]) {
        skip_to_close_spec(s, i + 1, depth)
    } else {
        None
    }
}

#[via_fn]
proof fn skip_to_close_spec_decreases(s: Seq<u8>, i: int, depth: nat) {
    if 0 <= i < s.len() && s[i] == 0x26 && ref_spec(s, i) is Some {
        lemma_ref_bounds(s, i);
    }
    if 0 <= i < s.len() && s[i] == 0x3c {
        if i + 1 < s.len() && s[i + 1] == 0x2f {
            if i + 2 < s.len() && is_name_start(s[i + 2]) {
                lemma_name_end_bounds(s, i + 2);
                lemma_skip_ws_bounds(s, name_end_spec(s, i + 2));
            }
        } else if is_comment_start(s, i) {
            if comment_end_spec(s, i + 4) is Some {
                lemma_comment_end_bounds(s, i + 4);
            }
        } else if i + 1 < s.len() && is_name_start(s[i + 1]) {
            lemma_name_end_bounds(s, i + 1);
            if tag_end_spec(s, name_end_spec(s, i + 1)) is Some {
                lemma_tag_end_bounds(s, name_end_spec(s, i + 1));
            }
        }
    }
}

pub proof fn lemma_skip_to_close_bounds(s: Seq<u8>, i: int, depth: nat)
    requires
        skip_to_close_spec(s, i, depth) is Some,
    ensures
        i < skip_to_close_spec(s, i, depth)->Some_0 <= s.len(),
    decreases s.len() - i,
{
    if s[i] == 0x3c {
        if i + 1 < s.len() && s[i + 1] == 0x2f {
            lemma_name_end_bounds(s, i + 2);
            let ne = name_end_spec(s, i + 2);
            lemma_skip_ws_bounds(s, ne);
            let w = skip_ws_spec(s, ne);
            if depth != 1 {
                lemma_skip_to_close_bounds(s, w + 1, (depth - 1) as nat);
            }
        } else if is_comment_start(s, i) {
            lemma_comment_end_bounds(s, i + 4);
            let j = comment_end_spec(s, i + 4)->Some_0;
            lemma_skip_to_close_bounds(s, j, depth);
        } else {
            lemma_name_end_bounds(s, i + 1);
            let ne = name_end_spec(s, i + 1);
            lemma_tag_end_bounds(s, ne);
            let (j, self_closing) = tag_end_spec(s, ne)->Some_0;
            if self_closing {
                lemma_skip_to_close_bounds(s, j, depth);
            } else {
                lemma_skip_to_close_bounds(s, j, depth + 1);
            }
        }
    } else if s[i] == 0x26 {
        lemma_ref_bounds(s, i);
        let (bs, j) = ref_spec(s, i)->Some_0;
        lemma_skip_to_close_bounds(s, j, depth);
    } else {
        lemma_skip_to_close_bounds(s, i + 1, depth);
    }
}

/// The bytes of the field name `name`.
pub open spec fn name_tag() -> Seq<u8> {
    seq![0x6eu8, 0x61, 0x6d, 0x65]
}

/// The bytes of the field name `author`.
pub open spec fn author_tag() -> Seq<u8> {
    seq![0x61u8, 0x75, 0x74, 0x68, 0x6f, 0x72]
}

/// The bytes of the field name `description`.
pub open spec fn description_tag() -> Seq<u8> {
    seq![0x64u8, 0x65, 0x73, 0x63, 0x72, 0x69, 0x70, 0x74, 0x69, 0x6f, 0x6e]
}

/// The bytes of the field name `link`.
pub open spec fn link_tag() -> Seq<u8> {
    seq![0x6cu8, 0x69, 0x6e, 0x6b]
}

/// A tag name that fills a metadata field.
pub open spec fn is_known_tag(nm: Seq<u8>) -> bool {
    nm == name_tag() || nm == author_tag() || nm == description_tag() || nm == link_tag()
}

/// One known child folded into the record: the field is filled with the
/// decoded characters of its text (at most once, and the text must be
/// valid UTF-8); a duplicate field or undecodable text is `None`; an
/// unknown name leaves the record as it is.
pub open spec fn update_fields(acc: RespackInfoView, nm: Seq<u8>, v: Seq<u8>) -> Option<
    RespackInfoView,
> {
    if nm == name_tag() {
        if acc.name is Some || !valid_utf8(v) {
            None
        } else {
            Some(RespackInfoView { name: Some(decode_utf8(v)), ..acc })
        }
    } else if nm == author_tag() {
        if acc.author is Some || !valid_utf8(v) {
            None
        } else {
            Some(RespackInfoView { author: Some(decode_utf8(v)), ..acc })
        }
    } else if nm == description_tag() {
        if acc.description is Some || !valid_utf8(v) {
            None
        } else {
            Some(RespackInfoView { description: Some(decode_utf8(v)), ..acc })
        }
    } else if nm == link_tag() {
        if acc.link is Some || !valid_utf8(v) {
            None
        } else {
            Some(RespackInfoView { link: Some(decode_utf8(v)), ..acc })
        }
    } else {
        Some(acc)
    }
}

/// The known child element starting at `i`: its name, its decoded text
/// value, and the position after it. A self-closing child has the empty
/// value.
pub open spec fn child_spec(s: Seq<u8>, i: int) -> Option<(Seq<u8>, Seq<u8>, int)> {
    if 0 <= i && i + 1 < s.len() && s[i] == 0x3c && is_name_start(s[i + 1]) {
        let ne = name_end_spec(s, i + 1);
        let nm = s.subrange(i + 1, ne);
        match tag_end_spec(s, ne) {
            Some((j, true)) => Some((nm, Seq::empty(), j)),
            Some((j, false)) => match text_spec(s, j) {
                Some((t, k)) => match close_spec(s, k, i + 1, ne) {
                    Some(jj) => Some((nm, t, jj)),
                    None => None,
                },
                None => None,
            },
            None => None,
        }
    } else {
        None
    }
}

pub proof fn lemma_child_bounds(s: Seq<u8>, i: int)
    requires
        child_spec(s, i) is Some,
    ensures
        i < child_spec(s, i)->Some_0.2 <= s.len(),
{
    lemma_name_end_bounds(s, i + 1);
    let ne = name_end_spec(s, i + 1);
    lemma_tag_end_bounds(s, ne);
    let (j, self_closing) = tag_end_spec(s, ne)->Some_0;
    if !self_closing {
        lemma_text_bounds(s, j);
        let k = text_spec(s, j)->Some_0.1;
        lemma_close_bounds(s, k, i + 1, ne);
    }
}

/// The root element's content from `i` on, folded into `acc`: the record
/// and the position of the `</` that ends the content.
pub open spec fn children_spec(s: Seq<u8>, i: int, acc: RespackInfoView) -> Option<
    (RespackInfoView, int),
>
    decreases s.len() - i,
        via children_spec_decreases
{
    if i < 0 || i >= s.len() {
        None
    } else if s[i] == 0x3c {
        if i + 1 < s.len() && s[i + 1] == 0x2f {
            Some((acc, i))
        } else if is_comment_start(s, i) {
            match comment_end_spec(s, i + 4) {
                Some(j) => children_spec(s, j, acc),
                None => None,
            }
        } else if i + 1 < s.len() && is_name_start(s[i + 1]) {
            let ne = name_end_spec(s, i + 1);
            let nm = s.subrange(i + 1, ne);
            if is_known_tag(nm) {
                match child_spec(s, i) {
                    Some((nm2, v, j)) => match update_fields(acc, nm2, v) {
                        Some(acc2) => children_spec(s, j, acc2),
                        None => None,
                    },
                    None => None,
                }
            } else {
                match tag_end_spec(s, ne) {
                    Some((j, true)) => children_spec(s, j, acc),
                    Some((j, false)) => match skip_to_close_spec(s, j, 1) {
                        Some(k) => children_spec(s, k, acc),
                        None => None,
                    },
                    None => None,
                }
            }
        } else {
            None
        }
    } else if s[i] == 0x26 {
        match ref_spec(s, i) {
            Some((bs, j)) => children_spec(s, j, acc),
            None => None,
        }
    } else if is_text_byte(s[i]) {
        children_spec(s, i + 1, acc)
    } else {
        None
    }
}

#[via_fn]
proof fn children_spec_decreases(s: Seq<u8>, i: int, acc: RespackInfoView) {
    if 0 <= i < s.len() && s[i] == 0x26 && ref_spec(s, i) is Some {
        lemma_ref_bounds(s, i);
    }
    if 0 <= i < s.len() && s[i] == 0x3c && !(i + 1 < s.len() && s[i + 1] == 0x2f) {
        if is_comment_start(s, i) {
            if comment_end_spec(s, i + 4) is Some {
                lemma_comment_end_bounds(s, i + 4);
            }
        } else if i + 1 < s.len() && is_name_start(s[i + 1]) {
            lemma_name_end_bounds(s, i + 1);
            let ne = name_end_spec(s, i + 1);
            if child_spec(s, i) is Some {
                lemma_child_bounds(s, i);
            }
            if tag_end_spec(s, ne) is Some {
                lemma_tag_end_bounds(s, ne);
                let (j, self_closing) = tag_end_spec(s, ne)->Some_0;
                if !self_closing && skip_to_close_spec(s, j, 1) is Some {
                    lemma_skip_to_close_bounds(s, j, 1);
                }
            }
        }
    }
}

pub proof fn lemma_children_bounds(s: Seq<u8>, i: int, acc: RespackInfoView)
    requires
        children_spec(s, i, acc) is Some,
    ensures
        i <= children_spec(s, i, acc)->Some_0.1 <= s.len(),
    decreases s.len() - i,
{
    if s[i] == 0x3c {
        if i + 1 < s.len() && s[i + 1] == 0x2f {
        } else if is_comment_start(s, i) {
            lemma_comment_end_bounds(s, i + 4);
            lemma_children_bounds(s, comment_end_spec(s, i + 4)->Some_0, acc);
        } else {
            let ne = name_end_spec(s, i + 1);
            let nm = s.subrange(i + 1, ne);
            if is_known_tag(nm) {
                let (nm2, v, j) = child_spec(s, i)->Some_0;
                lemma_child_bounds(s, i);
                let acc2 = update_fields(acc, nm2, v)->Some_0;
                lemma_children_bounds(s, j, acc2);
            } else {
                lemma_tag_end_bounds(s, ne);
                lemma_name_end_bounds(s, i + 1);
                let (j, self_closing) = tag_end_spec(s, ne)->Some_0;
                if self_closing {
                    lemma_children_bounds(s, j, acc);
                } else {
                    lemma_skip_to_close_bounds(s, j, 1);
                    let k = skip_to_close_spec(s, j, 1)->Some_0;
                    lemma_children_bounds(s, k, acc);
                }
            }
        }
    } else if s[i] == 0x26 {
        lemma_ref_bounds(s, i);
        let (bs, j) = ref_spec(s, i)->Some_0;
        lemma_children_bounds(s, j, acc);
    } else {
        lemma_children_bounds(s, i + 1, acc);
    }
}

/// The root element starting at `i`: the finished record and the position
/// after the root's closing tag.
pub open spec fn root_spec(s: Seq<u8>, i: int) -> Option<(RespackInfoView, int)> {
    if 0 <= i && i + 1 < s.len() && s[i] == 0x3c && is_name_start(s[i + 1]) {
        let ne = name_end_spec(s, i + 1);
        match tag_end_spec(s, ne) {
            Some((j, true)) => Some((default_info_view(), j)),
            Some((j, false)) => match children_spec(s, j, default_info_view()) {
                Some((acc, k)) => match close_spec(s, k, i + 1, ne) {
                    Some(jj) => Some((acc, jj)),
                    None => None,
                },
                None => None,
            },
            None => None,
        }
    } else {
        None
    }
}


/// The position after the end marker `?>` of a declaration, scanning
/// from `i`.
pub open spec fn pi_end_spec(s: Seq<u8>, i: int) -> Option<int>
    decreases s.len() - i,
{
    if i < 0 || i + 1 >= s.len() {
        None
    } else if s[i] == 0x3f && s[i + 1] == 0x3e {
        Some(i + 2)
    } else {
        pi_end_spec(s, i + 1)
    }
}


/// The position after the declaration at `i`, if one stands there;
/// otherwise `i` itself. An unterminated declaration is `None`.
pub open spec fn after_decl_spec(s: Seq<u8>, i: int) -> Option<int> {
    if 0 <= i && i + 1 < s.len() && s[i] == 0x3c && s[i + 1] == 0x3f {
        pi_end_spec(s, i + 2)
    } else {
        Some(i)
    }
}

/// The position after the byte-order mark, if the document starts with one.
pub open spec fn bom_end_spec(s: Seq<u8>) -> int {
    if s.len() >= 3 && s[0] == 0xef && s[1] == 0xbb && s[2] == 0xbf {
        3
    } else {
        0
    }
}

/// The whole document: the metadata record it denotes, or `None` when it
/// is malformed.
pub open spec fn document_spec(s: Seq<u8>) -> Option<RespackInfoView> {
    match misc_spec(s, bom_end_spec(s)) {
        None => None,
        Some(i1) => match after_decl_spec(s, i1) {
            None => None,
            Some(i2) => match misc_spec(s, i2) {
                None => None,
                Some(i3) => match root_spec(s, i3) {
                    None => None,
                    Some((v, j)) => match misc_spec(s, j) {
                        Some(k) => if k == s.len() {
                            Some(v)
                        } else {
                            None
                        },
                        None => None,
                    },
                },
            },
        },
    }
}

/// A byte that may start a tag name.
fn name_start_byte(b: u8) -> (r: bool)
    ensures
        r == is_name_start(b),
{
    (0x41 <= b && b <= 0x5a) || (0x61 <= b && b <= 0x7a) || b == 0x5f
}

/// A byte that may continue a tag name.
fn name_byte(b: u8) -> (r: bool)
    ensures
        r == is_name_byte(b),
{
    name_start_byte(b) || (0x30 <= b && b <= 0x39) || b == 0x2d || b == 0x2e
}

/// Skips the run of whitespace that starts at `i`.
fn skip_ws(s: &Vec<u8>, i: usize) -> (r: usize)
    requires
        i <= s@.len(),
    ensures
        r as int == skip_ws_spec(s@, i as int),
        i <= r <= s@.len(),
{
    let mut j = i;
    while j < s.len() && (s[j] == 0x20 || s[j] == 0x09 || s[j] == 0x0a || s[j] == 0x0d)
        invariant
            i <= j <= s@.len(),
            skip_ws_spec(s@, i as int) == skip_ws_spec(s@, j as int),
        decreases s@.len() - j,
    {
        j = j + 1;
    }
    j
}

/// Skips the run of name bytes that starts at `i`.
fn name_end(s: &Vec<u8>, i: usize) -> (r: usize)
    requires
        i <= s@.len(),
    ensures
        r as int == name_end_spec(s@, i as int),
        i <= r <= s@.len(),
{
    let mut j = i;
    while j < s.len() && name_byte(s[j])
        invariant
            i <= j <= s@.len(),
            name_end_spec(s@, i as int) == name_end_spec(s@, j as int),
        decreases s@.len() - j,
    {
        j = j + 1;
    }
    j
}

/// Decodes the entity reference starting at `i`, if any.
fn parse_entity(s: &Vec<u8>, i: usize) -> (r: Option<(u8, usize)>)
    requires
        i <= s@.len(),
    ensures
        (match entity_spec(s@, i as int) {
            Some(p) => r matches Some(q) && q.0 == p.0 && q.1 as int == p.1 && q.1 <= s@.len(),
            None => r is None,
        }),
{
    let n = s.len();
    if n - i >= 4 && s[i] == 0x26 && s[i + 1] == 0x6c && s[i + 2] == 0x74 && s[i + 3] == 0x3b {
        Some((0x3c, i + 4))
    } else if n - i >= 4 && s[i] == 0x26 && s[i + 1] == 0x67 && s[i + 2] == 0x74 && s[i + 3]
        == 0x3b {
        Some((0x3e, i + 4))
    } else if n - i >= 5 && s[i] == 0x26 && s[i + 1] == 0x61 && s[i + 2] == 0x6d && s[i + 3]
        == 0x70 && s[i + 4] == 0x3b {
        Some((0x26, i + 5))
    } else if n - i >= 6 && s[i] == 0x26 && s[i + 1] == 0x61 && s[i + 2] == 0x70 && s[i + 3]
        == 0x6f && s[i + 4] == 0x73 && s[i + 5] == 0x3b {
        Some((0x27, i + 6))
    } else if n - i >= 6 && s[i] == 0x26 && s[i + 1] == 0x71 && s[i + 2] == 0x75 && s[i + 3]
        == 0x6f && s[i + 4] == 0x74 && s[i + 5] == 0x3b {
        Some((0x22, i + 6))
    } else {
        None
    }
}

/// Relies on `char::from_u32` and `char::encode_utf8`: the UTF-8 bytes of
/// a Unicode scalar value, which exist for every scalar.
#[verifier::external_body]
fn scalar_bytes(v: u32) -> (r: Vec<u8>)
    requires
        is_scalar(v),
    ensures
        r@ == encode_scalar(v),
{
    let mut buf = [0u8; 4];
    char::from_u32(v).unwrap().encode_utf8(&mut buf).as_bytes().to_vec()
}

/// Reads the digits of a decimal character reference up to its `;`.
fn parse_dec_ref(s: &Vec<u8>, i: usize) -> (r: Option<(u32, usize)>)
    requires
        i <= s@.len(),
    ensures
        (match dec_ref_spec(s@, i as int, 0) {
            Some(p) => r matches Some(q) && q.0 as int == p.0 && q.1 as int == p.1 && q.1
                <= s@.len() && q.0 <= 0x10ffff,
            None => r is None,
        }),
{
    let n = s.len();
    let mut j = i;
    let mut acc: u32 = 0;
    loop
        invariant
            i <= j <= n,
            n == s@.len(),
            acc <= 0x10ffff,
            dec_ref_spec(s@, i as int, 0) == dec_ref_spec(s@, j as int, acc as int),
        decreases n - j,
    {
        if j >= n {
            return None;
        }
        let b = s[j];
        if b == 0x3b {
            return Some((acc, j + 1));
        }
        if 0x30 <= b && b <= 0x39 {
            let t: u32 = acc * 10 + (b - 0x30) as u32;
            if t > 0x10ffff {
                return None;
            }
            acc = t;
            j = j + 1;
        } else {
            return None;
        }
    }
}

/// Reads the digits of a hexadecimal character reference up to its `;`.
fn parse_hex_ref(s: &Vec<u8>, i: usize) -> (r: Option<(u32, usize)>)
    requires
        i <= s@.len(),
    ensures
        (match hex_ref_spec(s@, i as int, 0) {
            Some(p) => r matches Some(q) && q.0 as int == p.0 && q.1 as int == p.1 && q.1
                <= s@.len() && q.0 <= 0x10ffff,
            None => r is None,
        }),
{
    let n = s.len();
    let mut j = i;
    let mut acc: u32 = 0;
    loop
        invariant
            i <= j <= n,
            n == s@.len(),
            acc <= 0x10ffff,
            hex_ref_spec(s@, i as int, 0) == hex_ref_spec(s@, j as int, acc as int),
        decreases n - j,
    {
        if j >= n {
            return None;
        }
        let b = s[j];
        if b == 0x3b {
            return Some((acc, j + 1));
        }
        let d: u32 = if 0x30 <= b && b <= 0x39 {
            (b - 0x30) as u32
        } else if 0x41 <= b && b <= 0x46 {
            (b - 0x41) as u32 + 10
        } else if 0x61 <= b && b <= 0x66 {
            (b - 0x61) as u32 + 10
        } else {
            return None;
        };
        let t: u32 = acc * 16 + d;
        if t > 0x10ffff {
            return None;
        }
        acc = t;
        j = j + 1;
    }
}

/// Decodes the reference at `i`, named or numeric: the bytes it stands for
/// and the position after it.
fn parse_ref(s: &Vec<u8>, i: usize) -> (r: Option<(Vec<u8>, usize)>)
    requires
        i <= s@.len(),
    ensures
        (match ref_spec(s@, i as int) {
            Some(p) => r matches Some(q) && q.0@ == p.0 && q.1 as int == p.1 && q.1 <= s@.len(),
            None => r is None,
        }),
{
    match parse_entity(s, i) {
        Some((d, j)) => {
            let mut v: Vec<u8> = Vec::new();
            v.push(d);
            proof {
                assert(v@ =~= seq![d]);
            }
            return Some((v, j));
        },
        None => {},
    }
    let n = s.len();
    if !(n - i > 2 && s[i] == 0x26 && s[i + 1] == 0x23) {
        return None;
    }
    if s[i + 2] == 0x78 && n - i > 3 && ((0x30 <= s[i + 3] && s[i + 3] <= 0x39) || (0x41 <= s[i
        + 3] && s[i + 3] <= 0x46) || (0x61 <= s[i + 3] && s[i + 3] <= 0x66)) {
        match parse_hex_ref(s, i + 3) {
            Some((v, j)) => {
                if !(0xd800 <= v && v <= 0xdfff) {
                    proof {
                        assert(scalar_value(v as int));
                        assert(is_scalar(v));
                    }
                    Some((scalar_bytes(v), j))
                } else {
                    None
                }
            },
            None => None,
        }
    } else if 0x30 <= s[i + 2] && s[i + 2] <= 0x39 {
        match parse_dec_ref(s, i + 2) {
            Some((v, j)) => {
                if !(0xd800 <= v && v <= 0xdfff) {
                    proof {
                        assert(scalar_value(v as int));
                        assert(is_scalar(v));
                    }
                    Some((scalar_bytes(v), j))
                } else {
                    None
                }
            },
            None => None,
        }
    } else {
        None
    }
}

/// Decodes the text run starting at `i`, appending its bytes to `out` and
/// returning the position of the `<` that ends it.
fn parse_text(s: &Vec<u8>, i: usize, out: &mut Vec<u8>) -> (r: Option<usize>)
    requires
        i <= s@.len(),
    ensures
        (match text_spec(s@, i as int) {
            Some(p) => r matches Some(j) && j as int == p.1 && final(out)@ == old(out)@ + p.0,
            None => r is None,
        }),
{
    let ghost base = old(out)@;
    let n = s.len();
    let mut j = i;
    loop
        invariant
            i <= j <= n,
            n == s@.len(),
            base == old(out)@,
            base.len() <= out@.len(),
            out@.subrange(0, base.len() as int) == base,
            (match text_spec(s@, j as int) {
                Some(p) => text_spec(s@, i as int) matches Some(q) && q.1 == p.1 && q.0
                    == out@.subrange(base.len() as int, out@.len() as int) + p.0,
                None => text_spec(s@, i as int) is None,
            }),
        decreases n - j,
    {
        if j >= n {
            return None;
        }
        let b = s[j];
        if b == 0x3c {
            proof {
                let acc = out@.subrange(base.len() as int, out@.len() as int);
                assert(text_spec(s@, j as int) == Some((Seq::<u8>::empty(), j as int)));
                assert(acc + Seq::<u8>::empty() =~= acc);
                assert(out@ =~= base + acc);
            }
            return Some(j);
        }
        if b == 0x26 {
            match parse_ref(s, j) {
                Some((bs, jj)) => {
                    let ghost pre = out@;
                    let ghost gbs = bs@;
                    let mut tail = bs;
                    out.append(&mut tail);
                    proof {
                        let acc = pre.subrange(base.len() as int, pre.len() as int);
                        let acc2 = out@.subrange(base.len() as int, out@.len() as int);
                        assert(out@ == pre + gbs);
                        assert(acc2 =~= acc + gbs);
                        assert(out@.subrange(0, base.len() as int) =~= base);
                        if text_spec(s@, jj as int) is Some {
                            let p2 = text_spec(s@, jj as int)->Some_0;
                            assert(text_spec(s@, j as int) == Some((gbs + p2.0, p2.1)));
                            assert(acc + (gbs + p2.0) =~= acc2 + p2.0);
                        }
                    }
                    proof {
                        lemma_ref_bounds(s@, j as int);
                    }
                    j = jj;
                },
                None => {
                    return None;
                },
            }
        } else if b == 0x09 || b == 0x0a || b == 0x0d || 0x20 <= b {
            let ghost pre = out@;
            out.push(b);
            proof {
                let acc = pre.subrange(base.len() as int, pre.len() as int);
                let acc2 = out@.subrange(base.len() as int, out@.len() as int);
                assert(out@ == pre.push(b));
                assert(acc2 =~= acc.push(b));
                assert(out@.subrange(0, base.len() as int) =~= base);
                if text_spec(s@, j as int + 1) is Some {
                    let p2 = text_spec(s@, j as int + 1)->Some_0;
                    assert(text_spec(s@, j as int) == Some((seq![s@[j as int]] + p2.0, p2.1)));
                    assert(acc + (seq![s@[j as int]] + p2.0) =~= acc2 + p2.0);
                }
            }
            j = j + 1;
        } else {
            return None;
        }
    }
}

/// Finds the end of the attribute region that starts at `i`.
fn tag_end(s: &Vec<u8>, i: usize) -> (r: Option<(usize, bool)>)
    requires
        i <= s@.len(),
    ensures
        (match tag_end_spec(s@, i as int) {
            Some(p) => r matches Some(q) && q.0 as int == p.0 && q.1 == p.1 && q.0 <= s@.len(),
            None => r is None,
        }),
{
    let n = s.len();
    let mut j = i;
    while j < n && s[j] != 0x3e && s[j] != 0x3c && !(s[j] == 0x2f && j + 1 < n && s[j + 1] == 0x3e)
        invariant
            i <= j <= n,
            n == s@.len(),
            tag_end_spec(s@, i as int) == tag_end_spec(s@, j as int),
        decreases n - j,
    {
        j = j + 1;
    }
    if j < n {
        if s[j] == 0x3e {
            Some((j + 1, false))
        } else if s[j] == 0x2f {
            Some((j + 2, true))
        } else {
            None
        }
    } else {
        None
    }
}

/// Finds the end of the comment whose body starts at `i`.
fn comment_end(s: &Vec<u8>, i: usize) -> (r: Option<usize>)
    requires
        i <= s@.len(),
    ensures
        (match comment_end_spec(s@, i as int) {
            Some(j) => r matches Some(q) && q as int == j && q <= s@.len(),
            None => r is None,
        }),
{
    let n = s.len();
    let mut j = i;
    while n - j > 2 && !(s[j] == 0x2d && s[j + 1] == 0x2d && s[j + 2] == 0x3e)
        invariant
            i <= j <= n,
            n == s@.len(),
            comment_end_spec(s@, i as int) == comment_end_spec(s@, j as int),
        decreases n - j,
    {
        j = j + 1;
    }
    if n - j > 2 {
        Some(j + 3)
    } else {
        None
    }
}

/// Skips the whitespace and comments that start at `i`.
fn skip_misc(s: &Vec<u8>, i: usize) -> (r: Option<usize>)
    requires
        i <= s@.len(),
    ensures
        (match misc_spec(s@, i as int) {
            Some(j) => r matches Some(q) && q as int == j && q <= s@.len(),
            None => r is None,
        }),
{
    let n = s.len();
    let mut j = i;
    loop
        invariant
            i <= j <= n,
            n == s@.len(),
            misc_spec(s@, i as int) == misc_spec(s@, j as int),
        decreases n - j,
    {
        let w = skip_ws(s, j);
        if n - w > 3 && s[w] == 0x3c && s[w + 1] == 0x21 && s[w + 2] == 0x2d && s[w + 3] == 0x2d {
            match comment_end(s, w + 4) {
                Some(k) => {
                    proof {
                        lemma_comment_end_bounds(s@, w as int + 4);
                    }
                    j = k;
                },
                None => {
                    return None;
                },
            }
        } else {
            return Some(w);
        }
    }
}

/// Compares two ranges of `s` for byte equality.
fn range_eq(s: &Vec<u8>, x1: usize, y1: usize, x2: usize, y2: usize) -> (r: bool)
    requires
        x1 <= y1 <= s@.len(),
        x2 <= y2 <= s@.len(),
    ensures
        r == (s@.subrange(x1 as int, y1 as int) == s@.subrange(x2 as int, y2 as int)),
{
    if y1 - x1 != y2 - x2 {
        assert(s@.subrange(x1 as int, y1 as int).len() != s@.subrange(x2 as int, y2 as int).len());
        return false;
    }
    let len = y1 - x1;
    let mut k: usize = 0;
    while k < len
        invariant
            0 <= k <= len,
            x1 + len <= s@.len(),
            x2 + len <= s@.len(),
            len == y1 - x1 == y2 - x2,
            forall|m: int| 0 <= m < k ==> #[trigger] s@[x1 + m] == s@[x2 + m],
        decreases len - k,
    {
        if s[x1 + k] != s[x2 + k] {
            assert(s@.subrange(x1 as int, y1 as int)[k as int] != s@.subrange(
                x2 as int,
                y2 as int,
            )[k as int]);
            return false;
        }
        k = k + 1;
    }
    assert forall|m: int| 0 <= m < len implies s@.subrange(x1 as int, y1 as int)[m] == s@.subrange(
        x2 as int,
        y2 as int,
    )[m] by {
        assert(s@[x1 + m] == s@[x2 + m]);
    }
    assert(s@.subrange(x1 as int, y1 as int) =~= s@.subrange(x2 as int, y2 as int));
    true
}

/// Compares a range of `s` against a pattern.
fn range_eq_pat(s: &Vec<u8>, x: usize, y: usize, pat: &Vec<u8>) -> (r: bool)
    requires
        x <= y <= s@.len(),
    ensures
        r == (s@.subrange(x as int, y as int) == pat@),
{
    if y - x != pat.len() {
        assert(s@.subrange(x as int, y as int).len() != pat@.len());
        return false;
    }
    let len = pat.len();
    let mut k: usize = 0;
    while k < len
        invariant
            0 <= k <= len,
            x + len <= s@.len(),
            len == y - x == pat@.len(),
            forall|m: int| 0 <= m < k ==> s@[x + m] == pat@[m],
        decreases len - k,
    {
        if s[x + k] != pat[k] {
            assert(s@.subrange(x as int, y as int)[k as int] != pat@[k as int]);
            return false;
        }
        k = k + 1;
    }
    assert(s@.subrange(x as int, y as int) =~= pat@);
    true
}

/// Parses the closing tag at `i` whose name must equal `s[a..b]`.
fn parse_close(s: &Vec<u8>, i: usize, a: usize, b: usize) -> (r: Option<usize>)
    requires
        i <= s@.len(),
        a <= b <= s@.len(),
    ensures
        (match close_spec(s@, i as int, a as int, b as int) {
            Some(j) => r matches Some(q) && q as int == j,
            None => r is None,
        }),
{
    let n = s.len();
    if !(n - i > 2 && s[i] == 0x3c && s[i + 1] == 0x2f && name_start_byte(s[i + 2])) {
        return None;
    }
    let ne = name_end(s, i + 2);
    if !range_eq(s, i + 2, ne, a, b) {
        return None;
    }
    let w = skip_ws(s, ne);
    if w < n && s[w] == 0x3e {
        Some(w + 1)
    } else {
        None
    }
}

/// Scans past the content of an ignored element, from `i` just inside it,
/// to just after the close tag that ends it.
fn skip_ignored(s: &Vec<u8>, i: usize) -> (r: Option<usize>)
    requires
        i <= s@.len(),
    ensures
        (match skip_to_close_spec(s@, i as int, 1nat) {
            Some(j) => r matches Some(q) && q as int == j && q <= s@.len(),
            None => r is None,
        }),
{
    let n = s.len();
    let mut j = i;
    let mut d: usize = 1;
    loop
        invariant
            i <= j <= n,
            n == s@.len(),
            1 <= d,
            3 * (d as int - 1) <= j as int - i as int,
            skip_to_close_spec(s@, i as int, 1nat) == skip_to_close_spec(s@, j as int, d as nat),
        decreases n - j,
    {
        if j >= n {
            return None;
        }
        let b = s[j];
        if b == 0x3c {
            if n - j > 1 && s[j + 1] == 0x2f {
                if n - j > 2 && name_start_byte(s[j + 2]) {
                    let ne = name_end(s, j + 2);
                    let w = skip_ws(s, ne);
                    if w < n && s[w] == 0x3e {
                        if d == 1 {
                            return Some(w + 1);
                        }
                        d = d - 1;
                        j = w + 1;
                    } else {
                        return None;
                    }
                } else {
                    return None;
                }
            } else if n - j > 3 && s[j + 1] == 0x21 && s[j + 2] == 0x2d && s[j + 3] == 0x2d {
                match comment_end(s, j + 4) {
                    Some(k) => {
                        proof {
                            lemma_comment_end_bounds(s@, j as int + 4);
                        }
                        j = k;
                    },
                    None => {
                        return None;
                    },
                }
            } else if n - j > 1 && name_start_byte(s[j + 1]) {
                let ne = name_end(s, j + 1);
                proof {
                    assert(name_end_spec(s@, j as int + 1) == name_end_spec(s@, j as int + 2));
                    lemma_name_end_bounds(s@, j as int + 2);
                }
                match tag_end(s, ne) {
                    Some((k, self_closing)) => {
                        proof {
                            lemma_tag_end_bounds(s@, ne as int);
                        }
                        if !self_closing {
                            proof {
                                assert(3 * (d as int - 1) <= n);
                            }
                            d = d + 1;
                        }
                        j = k;
                    },
                    None => {
                        return None;
                    },
                }
            } else {
                return None;
            }
        } else if b == 0x26 {
            match parse_ref(s, j) {
                Some((_decoded, k)) => {
                    proof {
                        lemma_ref_bounds(s@, j as int);
                    }
                    j = k;
                },
                None => {
                    return None;
                },
            }
        } else if b == 0x09 || b == 0x0a || b == 0x0d || 0x20 <= b {
            j = j + 1;
        } else {
            return None;
        }
    }
}

/// Parses the known child element at `i`: its name range, its decoded
/// text value, and the position after it.
fn parse_child(s: &Vec<u8>, i: usize) -> (r: Option<(usize, usize, Vec<u8>, usize)>)
    requires
        i <= s@.len(),
    ensures
        (match child_spec(s@, i as int) {
            Some(p) => r matches Some(q) && q.0 <= q.1 <= s@.len() && s@.subrange(
                q.0 as int,
                q.1 as int,
            ) == p.0 && q.2@ == p.1 && q.3 as int == p.2,
            None => r is None,
        }),
{
    let n = s.len();
    if !(n - i >= 2 && s[i] == 0x3c && name_start_byte(s[i + 1])) {
        return None;
    }
    let ne = name_end(s, i + 1);
    match tag_end(s, ne) {
        Some((j, true)) => Some((i + 1, ne, Vec::new(), j)),
        Some((j, false)) => {
            let mut val: Vec<u8> = Vec::new();
            match parse_text(s, j, &mut val) {
                Some(k) => {
                    proof {
                        lemma_text_bounds(s@, j as int);
                    }
                    match parse_close(s, k, i + 1, ne) {
                        Some(jj) => Some((i + 1, ne, val, jj)),
                        None => None,
                    }
                },
                None => None,
            }
        },
        None => None,
    }
}

/// The bytes of the field name `name`, as a vector.
fn name_tag_vec() -> (v: Vec<u8>)
    ensures
        v@ == name_tag(),
{
    let mut v: Vec<u8> = Vec::new();
    v.push(0x6e);
    v.push(0x61);
    v.push(0x6d);
    v.push(0x65);
    assert(v@ =~= name_tag());
    v
}

/// The bytes of the field name `author`, as a vector.
fn author_tag_vec() -> (v: Vec<u8>)
    ensures
        v@ == author_tag(),
{
    let mut v: Vec<u8> = Vec::new();
    v.push(0x61);
    v.push(0x75);
    v.push(0x74);
    v.push(0x68);
    v.push(0x6f);
    v.push(0x72);
    assert(v@ =~= author_tag());
    v
}

/// The bytes of the field name `description`, as a vector.
fn description_tag_vec() -> (v: Vec<u8>)
    ensures
        v@ == description_tag(),
{
    let mut v: Vec<u8> = Vec::new();
    v.push(0x64);
    v.push(0x65);
    v.push(0x73);
    v.push(0x63);
    v.push(0x72);
    v.push(0x69);
    v.push(0x70);
    v.push(0x74);
    v.push(0x69);
    v.push(0x6f);
    v.push(0x6e);
    assert(v@ =~= description_tag());
    v
}

/// The bytes of the field name `link`, as a vector.
fn link_tag_vec() -> (v: Vec<u8>)
    ensures
        v@ == link_tag(),
{
    let mut v: Vec<u8> = Vec::new();
    v.push(0x6c);
    v.push(0x69);
    v.push(0x6e);
    v.push(0x6b);
    assert(v@ =~= link_tag());
    v
}

/// Relies on `String::from_utf8`: it succeeds exactly on valid UTF-8 and
/// decodes it to the characters the bytes encode.
#[verifier::external_body]
fn utf8_string(bytes: &Vec<u8>) -> (r: Option<String>)
    ensures
        (match r {
            Some(st) => valid_utf8(bytes@) && st@ == decode_utf8(bytes@),
            None => !valid_utf8(bytes@),
        }),
{
    match String::from_utf8(bytes.clone()) {
        Ok(st) => Some(st),
        Err(_) => None,
    }
}

/// Folds one child into the record. Returns false on a duplicate known
/// field or a value that is not valid UTF-8.
fn apply_field(s: &Vec<u8>, a: usize, b: usize, v: Vec<u8>, info: &mut RespackInfo) -> (r: bool)
    requires
        a <= b <= s@.len(),
    ensures
        (match update_fields(old(info)@, s@.subrange(a as int, b as int), v@) {
            Some(acc2) => r && final(info)@ == acc2,
            None => !r,
        }),
{
    let name_pat = name_tag_vec();
    if range_eq_pat(s, a, b, &name_pat) {
        if info.name.is_some() {
            return false;
        }
        match utf8_string(&v) {
            Some(st) => {
                info.name = Some(st);
                return true;
            },
            None => {
                return false;
            },
        }
    }
    let author_pat = author_tag_vec();
    if range_eq_pat(s, a, b, &author_pat) {
        if info.author.is_some() {
            return false;
        }
        match utf8_string(&v) {
            Some(st) => {
                info.author = Some(st);
                return true;
            },
            None => {
                return false;
            },
        }
    }
    let description_pat = description_tag_vec();
    if range_eq_pat(s, a, b, &description_pat) {
        if info.description.is_some() {
            return false;
        }
        match utf8_string(&v) {
            Some(st) => {
                info.description = Some(st);
                return true;
            },
            None => {
                return false;
            },
        }
    }
    let link_pat = link_tag_vec();
    if range_eq_pat(s, a, b, &link_pat) {
        if info.link.is_some() {
            return false;
        }
        match utf8_string(&v) {
            Some(st) => {
                info.link = Some(st);
                return true;
            },
            None => {
                return false;
            },
        }
    }
    true
}

/// Is the name in `s[a..b]` one of the field names?
fn known_tag(s: &Vec<u8>, a: usize, b: usize) -> (r: bool)
    requires
        a <= b <= s@.len(),
    ensures
        r == is_known_tag(s@.subrange(a as int, b as int)),
{
    let name_pat = name_tag_vec();
    let author_pat = author_tag_vec();
    let description_pat = description_tag_vec();
    let link_pat = link_tag_vec();
    range_eq_pat(s, a, b, &name_pat) || range_eq_pat(s, a, b, &author_pat) || range_eq_pat(
        s,
        a,
        b,
        &description_pat,
    ) || range_eq_pat(s, a, b, &link_pat)
}

/// Parses the root's content from `i` on into `info`, returning the
/// position of the `</` that ends it.
fn parse_children(s: &Vec<u8>, i: usize, info: &mut RespackInfo) -> (r: Option<usize>)
    requires
        i <= s@.len(),
    ensures
        (match children_spec(s@, i as int, old(info)@) {
            Some(p) => r matches Some(j) && j as int == p.1 && final(info)@ == p.0 && j <= s@.len(),
            None => r is None,
        }),
{
    let n = s.len();
    let mut j = i;
    loop
        invariant
            i <= j <= n,
            n == s@.len(),
            children_spec(s@, i as int, old(info)@) == children_spec(s@, j as int, info@),
        decreases n - j,
    {
        if j >= n {
            return None;
        }
        let b = s[j];
        if b == 0x3c {
            if n - j >= 2 && s[j + 1] == 0x2f {
                return Some(j);
            }
            if n - j > 3 && s[j + 1] == 0x21 && s[j + 2] == 0x2d && s[j + 3] == 0x2d {
                match comment_end(s, j + 4) {
                    Some(k) => {
                        proof {
                            lemma_comment_end_bounds(s@, j as int + 4);
                        }
                        j = k;
                    },
                    None => {
                        return None;
                    },
                }
            } else if n - j >= 2 && name_start_byte(s[j + 1]) {
                let ne = name_end(s, j + 1);
                if known_tag(s, j + 1, ne) {
                    match parse_child(s, j) {
                        Some((a, bn, v, k)) => {
                            proof {
                                lemma_child_bounds(s@, j as int);
                            }
                            if !apply_field(s, a, bn, v, info) {
                                return None;
                            }
                            j = k;
                        },
                        None => {
                            return None;
                        },
                    }
                } else {
                    match tag_end(s, ne) {
                        Some((k, self_closing)) => {
                            proof {
                                lemma_tag_end_bounds(s@, ne as int);
                            }
                            if self_closing {
                                j = k;
                            } else {
                                match skip_ignored(s, k) {
                                    Some(m) => {
                                        proof {
                                            lemma_skip_to_close_bounds(s@, k as int, 1nat);
                                        }
                                        j = m;
                                    },
                                    None => {
                                        return None;
                                    },
                                }
                            }
                        },
                        None => {
                            return None;
                        },
                    }
                }
            } else {
                return None;
            }
        } else if b == 0x26 {
            match parse_ref(s, j) {
                Some((_decoded, k)) => {
                    proof {
                        lemma_ref_bounds(s@, j as int);
                    }
                    j = k;
                },
                None => {
                    return None;
                },
            }
        } else if b == 0x09 || b == 0x0a || b == 0x0d || 0x20 <= b {
            j = j + 1;
        } else {
            return None;
        }
    }
}

/// Parses the root element at `i`: the finished record and the position
/// after its closing tag.
fn parse_root(s: &Vec<u8>, i: usize) -> (r: Option<(RespackInfo, usize)>)
    requires
        i <= s@.len(),
    ensures
        (match root_spec(s@, i as int) {
            Some(p) => r matches Some(q) && q.0@ == p.0 && q.1 as int == p.1 && q.1 <= s@.len(),
            None => r is None,
        }),
{
    let n = s.len();
    if !(n - i >= 2 && s[i] == 0x3c && name_start_byte(s[i + 1])) {
        return None;
    }
    let ne = name_end(s, i + 1);
    match tag_end(s, ne) {
        Some((j, true)) => Some((RespackInfo::default(), j)),
        Some((j, false)) => {
            let mut info = RespackInfo::default();
            match parse_children(s, j, &mut info) {
                Some(k) => {
                    proof {
                        lemma_children_bounds(s@, j as int, default_info_view());
                    }
                    match parse_close(s, k, i + 1, ne) {
                        Some(jj) => {
                            proof {
                                lemma_close_bounds(s@, k as int, i as int + 1, ne as int);
                            }
                            Some((info, jj))
                        },
                        None => None,
                    }
                },
                None => None,
            }
        },
        None => None,
    }
}

/// Finds the end of the declaration marker `?>`, scanning from `i`.
fn pi_end(s: &Vec<u8>, i: usize) -> (r: Option<usize>)
    requires
        i <= s@.len(),
    ensures
        (match pi_end_spec(s@, i as int) {
            Some(j) => r matches Some(q) && q as int == j && q <= s@.len(),
            None => r is None,
        }),
{
    let n = s.len();
    let mut j = i;
    while n - j > 1 && !(s[j] == 0x3f && s[j + 1] == 0x3e)
        invariant
            i <= j <= n,
            n == s@.len(),
            pi_end_spec(s@, i as int) == pi_end_spec(s@, j as int),
        decreases n - j,
    {
        j = j + 1;
    }
    if n - j > 1 {
        Some(j + 2)
    } else {
        None
    }
}

/// Parses a whole metadata document.
///
/// Succeeds exactly on the documents the grammar accepts, with the record
/// the document denotes; any other byte sequence is malformed.
pub fn parse_info(bytes: &Vec<u8>) -> (r: Result<RespackInfo, ParseError>)
    ensures
        (match document_spec(bytes@) {
            Some(v) => r matches Ok(info) && info@ == v,
            None => r matches Err(e) && e == ParseError::Malformed,
        }),
{
    let n = bytes.len();
    let i0: usize = if n >= 3 && bytes[0] == 0xef && bytes[1] == 0xbb && bytes[2] == 0xbf {
        3
    } else {
        0
    };
    let i1 = match skip_misc(bytes, i0) {
        Some(x) => x,
        None => {
            return Err(ParseError::Malformed);
        },
    };
    let i2 = if n - i1 > 1 && bytes[i1] == 0x3c && bytes[i1 + 1] == 0x3f {
        match pi_end(bytes, i1 + 2) {
            Some(x) => x,
            None => {
                return Err(ParseError::Malformed);
            },
        }
    } else {
        i1
    };
    let i3 = match skip_misc(bytes, i2) {
        Some(x) => x,
        None => {
            return Err(ParseError::Malformed);
        },
    };
    match parse_root(bytes, i3) {
        Some((info, j)) => {
            match skip_misc(bytes, j) {
                Some(k) => {
                    if k == n {
                        Ok(info)
                    } else {
                        Err(ParseError::Malformed)
                    }
                },
                None => Err(ParseError::Malformed),
            }
        },
        None => Err(ParseError::Malformed),
    }
}

} // verus!
