//! Textual serialization of the key bundle.
//!
//! The bundle is rendered as a field-tagged mapping in one fixed shape: a
//! brace-enclosed list of the seven key names, each followed by its key as 64
//! lower-case hexadecimal digits in quotes. Rendering and parsing are exact
//! inverses, proved below; parsing anything that is not a rendered bundle
//! fails with a format error.

use vstd::prelude::*;
use vstd::utf8::encode_utf8;
use crate::error::{Error, ErrorKind};
use crate::store::{bundle_wf, string_from_utf8, StoreKey, StoreKeyView};
use crate::types::{EncKey, KEY_BYTES};

verus! {

/// Total length of the rendered bundle text.
pub const BUNDLE_TEXT_LEN: usize = 571;

/// `{"category_key":"`
pub open spec fn lit_head() -> Seq<u8> {
    seq![
        '{' as u8, '"' as u8, 'c' as u8, 'a' as u8, 't' as u8, 'e' as u8, 'g' as u8, 'o' as u8, 'r' as u8, 'y' as u8, '_' as u8, 'k' as u8, 'e' as u8, 'y' as u8, '"' as u8,
        ':' as u8, '"' as u8,
    ]
}

/// `","name_key":"`
pub open spec fn lit_name() -> Seq<u8> {
    seq!['"' as u8, ',' as u8, '"' as u8, 'n' as u8, 'a' as u8, 'm' as u8, 'e' as u8, '_' as u8, 'k' as u8, 'e' as u8, 'y' as u8, '"' as u8, ':' as u8, '"' as u8]
}

/// `","value_key":"`
pub open spec fn lit_value() -> Seq<u8> {
    seq!['"' as u8, ',' as u8, '"' as u8, 'v' as u8, 'a' as u8, 'l' as u8, 'u' as u8, 'e' as u8, '_' as u8, 'k' as u8, 'e' as u8, 'y' as u8, '"' as u8, ':' as u8, '"' as u8]
}

/// `","item_hmac_key":"`
pub open spec fn lit_item_hmac() -> Seq<u8> {
    seq![
        '"' as u8, ',' as u8, '"' as u8, 'i' as u8, 't' as u8, 'e' as u8, 'm' as u8, '_' as u8, 'h' as u8, 'm' as u8, 'a' as u8, 'c' as u8, '_' as u8, 'k' as u8, 'e' as u8,
        'y' as u8, '"' as u8, ':' as u8, '"' as u8,
    ]
}

/// `","tag_name_key":"`
pub open spec fn lit_tag_name() -> Seq<u8> {
    seq![
        '"' as u8, ',' as u8, '"' as u8, 't' as u8, 'a' as u8, 'g' as u8, '_' as u8, 'n' as u8, 'a' as u8, 'm' as u8, 'e' as u8, '_' as u8, 'k' as u8, 'e' as u8, 'y' as u8,
        '"' as u8, ':' as u8, '"' as u8,
    ]
}

/// `","tag_value_key":"`
pub open spec fn lit_tag_value() -> Seq<u8> {
    seq![
        '"' as u8, ',' as u8, '"' as u8, 't' as u8, 'a' as u8, 'g' as u8, '_' as u8, 'v' as u8, 'a' as u8, 'l' as u8, 'u' as u8, 'e' as u8, '_' as u8, 'k' as u8, 'e' as u8,
        'y' as u8, '"' as u8, ':' as u8, '"' as u8,
    ]
}

/// `","tags_hmac_key":"`
pub open spec fn lit_tags_hmac() -> Seq<u8> {
    seq![
        '"' as u8, ',' as u8, '"' as u8, 't' as u8, 'a' as u8, 'g' as u8, 's' as u8, '_' as u8, 'h' as u8, 'm' as u8, 'a' as u8, 'c' as u8, '_' as u8, 'k' as u8, 'e' as u8,
        'y' as u8, '"' as u8, ':' as u8, '"' as u8,
    ]
}

/// `"}`
pub open spec fn lit_tail() -> Seq<u8> {
    seq!['"' as u8, '}' as u8]
}

/// The lower-case hexadecimal digit for a value below 16.
pub open spec fn hex_digit(n: u8) -> u8 {
    if n < 10 {
        (48 + n) as u8
    } else {
        (87 + n) as u8
    }
}

/// The byte is a lower-case hexadecimal digit.
pub open spec fn is_hex_digit(b: u8) -> bool {
    (48 <= b && b <= 57) || (97 <= b && b <= 102)
}

/// The value of a hexadecimal digit.
pub open spec fn hex_val(b: u8) -> u8
    recommends
        is_hex_digit(b),
{
    if b <= 57 {
        (b - 48) as u8
    } else {
        (b - 87) as u8
    }
}

/// Two lower-case hexadecimal digits for each byte, high nibble first.
pub open spec fn hex_of(s: Seq<u8>) -> Seq<u8> {
    Seq::new(
        2 * s.len(),
        |i: int|
            if i % 2 == 0 {
                hex_digit(s[i / 2] / 16)
            } else {
                hex_digit(s[i / 2] % 16)
            },
    )
}

/// The bytes encoded by an even-length run of hexadecimal digits.
pub open spec fn unhex(s: Seq<u8>) -> Seq<u8> {
    Seq::new(s.len() / 2, |i: int| (hex_val(s[2 * i]) * 16 + hex_val(s[2 * i + 1])) as u8)
}

/// Every byte of `s` is a hexadecimal digit.
pub open spec fn all_hex(s: Seq<u8>) -> bool {
    forall|i: int| 0 <= i < s.len() ==> is_hex_digit(#[trigger] s[i])
}

/// Every byte of `s` is ASCII.
pub open spec fn all_ascii(s: Seq<u8>) -> bool {
    forall|i: int| 0 <= i < s.len() ==> #[trigger] s[i] < 128
}

/// The rendered text of a bundle.
pub open spec fn render_bundle(v: StoreKeyView) -> Seq<u8> {
    lit_head() + hex_of(v.category_key) + lit_name() + hex_of(v.name_key) + lit_value() + hex_of(
        v.value_key,
    ) + lit_item_hmac() + hex_of(v.item_hmac_key) + lit_tag_name() + hex_of(v.tag_name_key)
        + lit_tag_value() + hex_of(v.tag_value_key) + lit_tags_hmac() + hex_of(v.tags_hmac_key)
        + lit_tail()
}

/// The bundle a text denotes, if it has exactly the rendered shape.
pub open spec fn parse_bundle(s: Seq<u8>) -> Option<StoreKeyView> {
    if s.len() == BUNDLE_TEXT_LEN && s.subrange(0, 17) == lit_head() && s.subrange(81, 95)
        == lit_name() && s.subrange(159, 174) == lit_value() && s.subrange(238, 257)
        == lit_item_hmac() && s.subrange(321, 339) == lit_tag_name() && s.subrange(403, 422)
        == lit_tag_value() && s.subrange(486, 505) == lit_tags_hmac() && s.subrange(569, 571)
        == lit_tail() && all_hex(s.subrange(17, 81)) && all_hex(s.subrange(95, 159)) && all_hex(
        s.subrange(174, 238),
    ) && all_hex(s.subrange(257, 321)) && all_hex(s.subrange(339, 403)) && all_hex(
        s.subrange(422, 486),
    ) && all_hex(s.subrange(505, 569)) {
        Some(
            StoreKeyView {
                category_key: unhex(s.subrange(17, 81)),
                name_key: unhex(s.subrange(95, 159)),
                value_key: unhex(s.subrange(174, 238)),
                item_hmac_key: unhex(s.subrange(257, 321)),
                tag_name_key: unhex(s.subrange(339, 403)),
                tag_value_key: unhex(s.subrange(422, 486)),
                tags_hmac_key: unhex(s.subrange(505, 569)),
            },
        )
    } else {
        None
    }
}

/// Facts about a single hexadecimal digit of a nibble.
proof fn lemma_hex_digit_facts(n: u8)
    requires
        n < 16,
    ensures
        is_hex_digit(hex_digit(n)),
        hex_val(hex_digit(n)) == n,
        hex_digit(n) < 128,
{
}

/// Encoding a byte string to hexadecimal digits and decoding it back is the
/// identity, and the digits are valid.
proof fn lemma_hex_unhex(w: Seq<u8>)
    ensures
        hex_of(w).len() == 2 * w.len(),
        all_hex(hex_of(w)),
        unhex(hex_of(w)) =~= w,
{
    assert forall|j: int| 0 <= j < 2 * w.len() implies is_hex_digit(#[trigger] hex_of(w)[j]) by {
        lemma_hex_digit_facts(if j % 2 == 0 {
            (w[j / 2] / 16) as u8
        } else {
            (w[j / 2] % 16) as u8
        });
    }
    assert forall|i: int| 0 <= i < w.len() implies unhex(hex_of(w))[i] == w[i] by {
        assert((2 * i) % 2 == 0);
        assert((2 * i) / 2 == i);
        assert((2 * i + 1) % 2 == 1);
        assert((2 * i + 1) / 2 == i);
        lemma_hex_digit_facts((w[i] / 16) as u8);
        lemma_hex_digit_facts((w[i] % 16) as u8);
        assert(unhex(hex_of(w))[i] == (w[i] / 16) * 16 + (w[i] % 16));
    }
}

/// Decoding a valid run of hexadecimal digits and re-encoding it is the
/// identity.
proof fn lemma_unhex_hex(s: Seq<u8>)
    requires
        all_hex(s),
        s.len() % 2 == 0,
    ensures
        hex_of(unhex(s)) =~= s,
{
    assert forall|j: int| 0 <= j < s.len() implies hex_of(unhex(s))[j] == s[j] by {
        let i = j / 2;
        let hi = hex_val(s[2 * i]);
        let lo = hex_val(s[2 * i + 1]);
        assert(hi < 16 && lo < 16);
        assert(unhex(s)[i] == hi * 16 + lo);
        assert((hi * 16 + lo) / 16 == hi) by (nonlinear_arith)
            requires
                hi < 16,
                lo < 16,
        ;
        assert((hi * 16 + lo) % 16 == lo) by (nonlinear_arith)
            requires
                hi < 16,
                lo < 16,
        ;
        if j % 2 == 0 {
            assert(j == 2 * i);
            assert(hex_digit(hi) == s[j]);
        } else {
            assert(j == 2 * i + 1);
            assert(hex_digit(lo) == s[j]);
        }
    }
}

/// Law: serialization round-trips — parsing a rendered bundle yields exactly
/// the bundle that was rendered.
pub proof fn lemma_render_parse(v: StoreKeyView)
    requires
        bundle_wf(v),
    ensures
        parse_bundle(render_bundle(v)) == Some(v),
{
    let s = render_bundle(v);
    lemma_hex_unhex(v.category_key);
    lemma_hex_unhex(v.name_key);
    lemma_hex_unhex(v.value_key);
    lemma_hex_unhex(v.item_hmac_key);
    lemma_hex_unhex(v.tag_name_key);
    lemma_hex_unhex(v.tag_value_key);
    lemma_hex_unhex(v.tags_hmac_key);
    assert(s.len() == BUNDLE_TEXT_LEN);
    assert(s.subrange(0, 17) =~= lit_head());
    assert(s.subrange(17, 81) =~= hex_of(v.category_key));
    assert(s.subrange(81, 95) =~= lit_name());
    assert(s.subrange(95, 159) =~= hex_of(v.name_key));
    assert(s.subrange(159, 174) =~= lit_value());
    assert(s.subrange(174, 238) =~= hex_of(v.value_key));
    assert(s.subrange(238, 257) =~= lit_item_hmac());
    assert(s.subrange(257, 321) =~= hex_of(v.item_hmac_key));
    assert(s.subrange(321, 339) =~= lit_tag_name());
    assert(s.subrange(339, 403) =~= hex_of(v.tag_name_key));
    assert(s.subrange(403, 422) =~= lit_tag_value());
    assert(s.subrange(422, 486) =~= hex_of(v.tag_value_key));
    assert(s.subrange(486, 505) =~= lit_tags_hmac());
    assert(s.subrange(505, 569) =~= hex_of(v.tags_hmac_key));
    assert(s.subrange(569, 571) =~= lit_tail());
    assert(parse_bundle(s) == Some(v));
}

/// Law: parsing is exact — a text that parses is precisely the rendering of
/// the bundle it yields, which is well formed.
pub proof fn lemma_parse_exact(s: Seq<u8>, v: StoreKeyView)
    requires
        parse_bundle(s) == Some(v),
    ensures
        bundle_wf(v),
        render_bundle(v) == s,
{
    lemma_unhex_hex(s.subrange(17, 81));
    lemma_unhex_hex(s.subrange(95, 159));
    lemma_unhex_hex(s.subrange(174, 238));
    lemma_unhex_hex(s.subrange(257, 321));
    lemma_unhex_hex(s.subrange(339, 403));
    lemma_unhex_hex(s.subrange(422, 486));
    lemma_unhex_hex(s.subrange(505, 569));
    assert(render_bundle(v) =~= s);
}

/// Joining two ASCII byte strings gives an ASCII byte string.
proof fn lemma_ascii_concat(a: Seq<u8>, b: Seq<u8>)
    requires
        all_ascii(a),
        all_ascii(b),
    ensures
        all_ascii(a + b),
{
    assert forall|i: int| 0 <= i < (a + b).len() implies (a + b)[i] < 128 by {
        if i < a.len() {
        } else {
            assert((a + b)[i] == b[i - a.len()]);
        }
    }
}

/// Append the bytes of `lit_head()`.
fn push_lit_head(out: &mut Vec<u8>)
    ensures
        final(out)@ == old(out)@ + lit_head(),
        all_ascii(old(out)@) ==> all_ascii(final(out)@),
{
    out.push('{' as u8);
    out.push('"' as u8);
    out.push('c' as u8);
    out.push('a' as u8);
    out.push('t' as u8);
    out.push('e' as u8);
    out.push('g' as u8);
    out.push('o' as u8);
    out.push('r' as u8);
    out.push('y' as u8);
    out.push('_' as u8);
    out.push('k' as u8);
    out.push('e' as u8);
    out.push('y' as u8);
    out.push('"' as u8);
    out.push(':' as u8);
    out.push('"' as u8);
    proof {
        assert(out@ =~= old(out)@ + lit_head());
        assert(all_ascii(lit_head()));
        if all_ascii(old(out)@) {
            lemma_ascii_concat(old(out)@, lit_head());
        }
    }
}

/// Append the bytes of `lit_name()`.
fn push_lit_name(out: &mut Vec<u8>)
    ensures
        final(out)@ == old(out)@ + lit_name(),
        all_ascii(old(out)@) ==> all_ascii(final(out)@),
{
    out.push('"' as u8);
    out.push(',' as u8);
    out.push('"' as u8);
    out.push('n' as u8);
    out.push('a' as u8);
    out.push('m' as u8);
    out.push('e' as u8);
    out.push('_' as u8);
    out.push('k' as u8);
    out.push('e' as u8);
    out.push('y' as u8);
    out.push('"' as u8);
    out.push(':' as u8);
    out.push('"' as u8);
    proof {
        assert(out@ =~= old(out)@ + lit_name());
        assert(all_ascii(lit_name()));
        if all_ascii(old(out)@) {
            lemma_ascii_concat(old(out)@, lit_name());
        }
    }
}

/// Append the bytes of `lit_value()`.
fn push_lit_value(out: &mut Vec<u8>)
    ensures
        final(out)@ == old(out)@ + lit_value(),
        all_ascii(old(out)@) ==> all_ascii(final(out)@),
{
    out.push('"' as u8);
    out.push(',' as u8);
    out.push('"' as u8);
    out.push('v' as u8);
    out.push('a' as u8);
    out.push('l' as u8);
    out.push('u' as u8);
    out.push('e' as u8);
    out.push('_' as u8);
    out.push('k' as u8);
    out.push('e' as u8);
    out.push('y' as u8);
    out.push('"' as u8);
    out.push(':' as u8);
    out.push('"' as u8);
    proof {
        assert(out@ =~= old(out)@ + lit_value());
        assert(all_ascii(lit_value()));
        if all_ascii(old(out)@) {
            lemma_ascii_concat(old(out)@, lit_value());
        }
    }
}

/// Append the bytes of `lit_item_hmac()`.
fn push_lit_item_hmac(out: &mut Vec<u8>)
    ensures
        final(out)@ == old(out)@ + lit_item_hmac(),
        all_ascii(old(out)@) ==> all_ascii(final(out)@),
{
    out.push('"' as u8);
    out.push(',' as u8);
    out.push('"' as u8);
    out.push('i' as u8);
    out.push('t' as u8);
    out.push('e' as u8);
    out.push('m' as u8);
    out.push('_' as u8);
    out.push('h' as u8);
    out.push('m' as u8);
    out.push('a' as u8);
    out.push('c' as u8);
    out.push('_' as u8);
    out.push('k' as u8);
    out.push('e' as u8);
    out.push('y' as u8);
    out.push('"' as u8);
    out.push(':' as u8);
    out.push('"' as u8);
    proof {
        assert(out@ =~= old(out)@ + lit_item_hmac());
        assert(all_ascii(lit_item_hmac()));
        if all_ascii(old(out)@) {
            lemma_ascii_concat(old(out)@, lit_item_hmac());
        }
    }
}

/// Append the bytes of `lit_tag_name()`.
fn push_lit_tag_name(out: &mut Vec<u8>)
    ensures
        final(out)@ == old(out)@ + lit_tag_name(),
        all_ascii(old(out)@) ==> all_ascii(final(out)@),
{
    out.push('"' as u8);
    out.push(',' as u8);
    out.push('"' as u8);
    out.push('t' as u8);
    out.push('a' as u8);
    out.push('g' as u8);
    out.push('_' as u8);
    out.push('n' as u8);
    out.push('a' as u8);
    out.push('m' as u8);
    out.push('e' as u8);
    out.push('_' as u8);
    out.push('k' as u8);
    out.push('e' as u8);
    out.push('y' as u8);
    out.push('"' as u8);
    out.push(':' as u8);
    out.push('"' as u8);
    proof {
        assert(out@ =~= old(out)@ + lit_tag_name());
        assert(all_ascii(lit_tag_name()));
        if all_ascii(old(out)@) {
            lemma_ascii_concat(old(out)@, lit_tag_name());
        }
    }
}

/// Append the bytes of `lit_tag_value()`.
fn push_lit_tag_value(out: &mut Vec<u8>)
    ensures
        final(out)@ == old(out)@ + lit_tag_value(),
        all_ascii(old(out)@) ==> all_ascii(final(out)@),
{
    out.push('"' as u8);
    out.push(',' as u8);
    out.push('"' as u8);
    out.push('t' as u8);
    out.push('a' as u8);
    out.push('g' as u8);
    out.push('_' as u8);
    out.push('v' as u8);
    out.push('a' as u8);
    out.push('l' as u8);
    out.push('u' as u8);
    out.push('e' as u8);
    out.push('_' as u8);
    out.push('k' as u8);
    out.push('e' as u8);
    out.push('y' as u8);
    out.push('"' as u8);
    out.push(':' as u8);
    out.push('"' as u8);
    proof {
        assert(out@ =~= old(out)@ + lit_tag_value());
        assert(all_ascii(lit_tag_value()));
        if all_ascii(old(out)@) {
            lemma_ascii_concat(old(out)@, lit_tag_value());
        }
    }
}

/// Append the bytes of `lit_tags_hmac()`.
fn push_lit_tags_hmac(out: &mut Vec<u8>)
    ensures
        final(out)@ == old(out)@ + lit_tags_hmac(),
        all_ascii(old(out)@) ==> all_ascii(final(out)@),
{
    out.push('"' as u8);
    out.push(',' as u8);
    out.push('"' as u8);
    out.push('t' as u8);
    out.push('a' as u8);
    out.push('g' as u8);
    out.push('s' as u8);
    out.push('_' as u8);
    out.push('h' as u8);
    out.push('m' as u8);
    out.push('a' as u8);
    out.push('c' as u8);
    out.push('_' as u8);
    out.push('k' as u8);
    out.push('e' as u8);
    out.push('y' as u8);
    out.push('"' as u8);
    out.push(':' as u8);
    out.push('"' as u8);
    proof {
        assert(out@ =~= old(out)@ + lit_tags_hmac());
        assert(all_ascii(lit_tags_hmac()));
        if all_ascii(old(out)@) {
            lemma_ascii_concat(old(out)@, lit_tags_hmac());
        }
    }
}

/// Append the bytes of `lit_tail()`.
fn push_lit_tail(out: &mut Vec<u8>)
    ensures
        final(out)@ == old(out)@ + lit_tail(),
        all_ascii(old(out)@) ==> all_ascii(final(out)@),
{
    out.push('"' as u8);
    out.push('}' as u8);
    proof {
        assert(out@ =~= old(out)@ + lit_tail());
        assert(all_ascii(lit_tail()));
        if all_ascii(old(out)@) {
            lemma_ascii_concat(old(out)@, lit_tail());
        }
    }
}

/// The lower-case hexadecimal digit of a nibble.
fn hexd(n: u8) -> (r: u8)
    requires
        n < 16,
    ensures
        r == hex_digit(n),
{
    if n < 10 {
        48 + n
    } else {
        87 + n
    }
}

/// Append the hexadecimal rendering of `bytes`.
fn push_hex(out: &mut Vec<u8>, bytes: &[u8])
    ensures
        final(out)@ == old(out)@ + hex_of(bytes@),
        all_ascii(old(out)@) ==> all_ascii(final(out)@),
{
    let ghost base = old(out)@;
    let mut i: usize = 0;
    while i < bytes.len()
        invariant
            i <= bytes@.len(),
            out@ == base + hex_of(bytes@).subrange(0, 2 * (i as int)),
        decreases bytes@.len() - i,
    {
        let b = *vstd::slice::slice_index_get(bytes, i);
        out.push(hexd(b / 16));
        out.push(hexd(b % 16));
        proof {
            assert(hex_of(bytes@).subrange(0, 2 * (i as int) + 2) =~= hex_of(bytes@).subrange(
                0,
                2 * (i as int),
            ) + seq![hex_digit(bytes@[i as int] / 16), hex_digit(bytes@[i as int] % 16)]);
            assert(out@ =~= base + hex_of(bytes@).subrange(0, 2 * (i as int) + 2));
        }
        i = i + 1;
    }
    proof {
        assert(hex_of(bytes@).subrange(0, 2 * (bytes@.len() as int)) =~= hex_of(bytes@));
        lemma_hex_unhex(bytes@);
        assert(all_ascii(hex_of(bytes@))) by {
            assert forall|j: int| 0 <= j < hex_of(bytes@).len() implies #[trigger] hex_of(
                bytes@,
            )[j] < 128 by {
                assert(is_hex_digit(hex_of(bytes@)[j]));
            }
        }
        if all_ascii(base) {
            lemma_ascii_concat(base, hex_of(bytes@));
        }
    }
}

impl StoreKey {
    /// Serialize the seven keys into the field-tagged textual form. The
    /// string's UTF-8 encoding is exactly `render_bundle` of this bundle.
    pub fn to_string(&self) -> (r: Result<String, Error>)
        requires
            self.wf(),
        ensures
            r matches Ok(s) && encode_utf8(s@) == render_bundle(self@),
    {
        let mut out: Vec<u8> = Vec::new();
        push_lit_head(&mut out);
        push_hex(&mut out, self.category_key.as_bytes());
        push_lit_name(&mut out);
        push_hex(&mut out, self.name_key.as_bytes());
        push_lit_value(&mut out);
        push_hex(&mut out, self.value_key.as_bytes());
        push_lit_item_hmac(&mut out);
        push_hex(&mut out, self.item_hmac_key.as_bytes());
        push_lit_tag_name(&mut out);
        push_hex(&mut out, self.tag_name_key.as_bytes());
        push_lit_tag_value(&mut out);
        push_hex(&mut out, self.tag_value_key.as_bytes());
        push_lit_tags_hmac(&mut out);
        push_hex(&mut out, self.tags_hmac_key.as_bytes());
        push_lit_tail(&mut out);
        proof {
            assert(out@ =~= render_bundle(self@));
        }
        match string_from_utf8(out) {
            Some(s) => Ok(s),
            None => {
                proof {
                    assert(false);
                }
                Err(Error { kind: ErrorKind::Format })
            },
        }
    }

    /// Parse the field-tagged textual form back into a store key. It accepts
    /// exactly the texts that `to_string` produces and fails with a format
    /// error on anything else, before any cryptography is involved.
    pub fn from_slice(input: &[u8]) -> (r: Result<StoreKey, Error>)
        ensures
            r matches Ok(k) ==> k.wf() && parse_bundle(input@) == Some(k@) && render_bundle(k@)
                == input@,
            parse_bundle(input@) matches Some(v) ==> (r matches Ok(k) && k@ == v),
            r matches Err(e) ==> e.kind == ErrorKind::Format && parse_bundle(input@) is None,
    {
        if input.len() != BUNDLE_TEXT_LEN {
            return Err(Error { kind: ErrorKind::Format });
        }
        let mut lit: Vec<u8> = Vec::new();
        push_lit_head(&mut lit);
        if !region_matches(input, 0, &lit) {
            return Err(Error { kind: ErrorKind::Format });
        }
        let mut lit: Vec<u8> = Vec::new();
        push_lit_name(&mut lit);
        if !region_matches(input, 81, &lit) {
            return Err(Error { kind: ErrorKind::Format });
        }
        let mut lit: Vec<u8> = Vec::new();
        push_lit_value(&mut lit);
        if !region_matches(input, 159, &lit) {
            return Err(Error { kind: ErrorKind::Format });
        }
        let mut lit: Vec<u8> = Vec::new();
        push_lit_item_hmac(&mut lit);
        if !region_matches(input, 238, &lit) {
            return Err(Error { kind: ErrorKind::Format });
        }
        let mut lit: Vec<u8> = Vec::new();
        push_lit_tag_name(&mut lit);
        if !region_matches(input, 321, &lit) {
            return Err(Error { kind: ErrorKind::Format });
        }
        let mut lit: Vec<u8> = Vec::new();
        push_lit_tag_value(&mut lit);
        if !region_matches(input, 403, &lit) {
            return Err(Error { kind: ErrorKind::Format });
        }
        let mut lit: Vec<u8> = Vec::new();
        push_lit_tags_hmac(&mut lit);
        if !region_matches(input, 486, &lit) {
            return Err(Error { kind: ErrorKind::Format });
        }
        let mut lit: Vec<u8> = Vec::new();
        push_lit_tail(&mut lit);
        if !region_matches(input, 569, &lit) {
            return Err(Error { kind: ErrorKind::Format });
        }
        let category_key = match parse_hex_region(input, 17) {
            Some(v) => v,
            None => { return Err(Error { kind: ErrorKind::Format }) },
        };
        let name_key = match parse_hex_region(input, 95) {
            Some(v) => v,
            None => { return Err(Error { kind: ErrorKind::Format }) },
        };
        let value_key = match parse_hex_region(input, 174) {
            Some(v) => v,
            None => { return Err(Error { kind: ErrorKind::Format }) },
        };
        let item_hmac_key = match parse_hex_region(input, 257) {
            Some(v) => v,
            None => { return Err(Error { kind: ErrorKind::Format }) },
        };
        let tag_name_key = match parse_hex_region(input, 339) {
            Some(v) => v,
            None => { return Err(Error { kind: ErrorKind::Format }) },
        };
        let tag_value_key = match parse_hex_region(input, 422) {
            Some(v) => v,
            None => { return Err(Error { kind: ErrorKind::Format }) },
        };
        let tags_hmac_key = match parse_hex_region(input, 505) {
            Some(v) => v,
            None => { return Err(Error { kind: ErrorKind::Format }) },
        };
        let k = StoreKey {
            category_key: EncKey::from_slice(category_key.as_slice()),
            name_key: EncKey::from_slice(name_key.as_slice()),
            value_key: EncKey::from_slice(value_key.as_slice()),
            item_hmac_key: EncKey::from_slice(item_hmac_key.as_slice()),
            tag_name_key: EncKey::from_slice(tag_name_key.as_slice()),
            tag_value_key: EncKey::from_slice(tag_value_key.as_slice()),
            tags_hmac_key: EncKey::from_slice(tags_hmac_key.as_slice()),
        };
        proof {
            assert(parse_bundle(input@) == Some(k@));
            lemma_parse_exact(input@, k@);
        }
        Ok(k)
    }
}

/// Compare `expect` against `input` at offset `off`.
fn region_matches(input: &[u8], off: usize, expect: &Vec<u8>) -> (r: bool)
    requires
        off + expect@.len() <= input@.len(),
        input@.len() <= usize::MAX,
    ensures
        r == (input@.subrange(off as int, off as int + expect@.len() as int) == expect@),
{
    let mut i: usize = 0;
    while i < expect.len()
        invariant
            off + expect@.len() <= input@.len(),
            input@.len() <= usize::MAX,
            i <= expect@.len(),
            forall|j: int| 0 <= j < i ==> input@[off + j] == expect@[j],
        decreases expect@.len() - i,
    {
        if *vstd::slice::slice_index_get(input, off + i) != expect[i] {
            proof {
                assert(input@.subrange(off as int, off as int + expect@.len() as int)[i as int]
                    == input@[off + i]);
            }
            return false;
        }
        i = i + 1;
    }
    proof {
        assert(input@.subrange(off as int, off as int + expect@.len() as int) =~= expect@);
    }
    true
}

/// The value of one hexadecimal digit byte.
fn hex_val_exec(b: u8) -> (r: u8)
    requires
        is_hex_digit(b),
    ensures
        r == hex_val(b),
{
    if b <= 57 {
        b - 48
    } else {
        b - 87
    }
}

/// Decode the 64 hexadecimal digits at `off` into 32 bytes, or report that
/// the region is not all hexadecimal.
fn parse_hex_region(input: &[u8], off: usize) -> (r: Option<Vec<u8>>)
    requires
        off + 64 <= input@.len(),
        input@.len() <= usize::MAX,
    ensures
        r matches Some(v) ==> all_hex(input@.subrange(off as int, off as int + 64)) && v@ == unhex(
            input@.subrange(off as int, off as int + 64),
        ) && v@.len() == KEY_BYTES,
        r is None ==> !all_hex(input@.subrange(off as int, off as int + 64)),
{
    let ghost region = input@.subrange(off as int, off as int + 64);
    let mut out: Vec<u8> = Vec::new();
    let mut i: usize = 0;
    while i < 32
        invariant
            off + 64 <= input@.len(),
            input@.len() <= usize::MAX,
            i <= 32,
            out@.len() == i,
            region == input@.subrange(off as int, off as int + 64),
            forall|j: int| 0 <= j < 2 * i ==> is_hex_digit(#[trigger] region[j]),
            forall|j: int| 0 <= j < i ==> out@[j] == unhex(region)[j],
        decreases 32 - i,
    {
        let hi = *vstd::slice::slice_index_get(input, off + 2 * i);
        let lo = *vstd::slice::slice_index_get(input, off + 2 * i + 1);
        let hi_ok = (48 <= hi && hi <= 57) || (97 <= hi && hi <= 102);
        let lo_ok = (48 <= lo && lo <= 57) || (97 <= lo && lo <= 102);
        if !hi_ok || !lo_ok {
            proof {
                assert(region[2 * (i as int)] == input@[off + 2 * i]);
                assert(region[2 * (i as int) + 1] == input@[off + 2 * i + 1]);
            }
            return None;
        }
        out.push(hex_val_exec(hi) * 16 + hex_val_exec(lo));
        proof {
            assert(region[2 * (i as int)] == input@[off + 2 * i]);
            assert(region[2 * (i as int) + 1] == input@[off + 2 * i + 1]);
            assert(out@[i as int] == unhex(region)[i as int]);
        }
        i = i + 1;
    }
    proof {
        assert(out@ =~= unhex(region));
    }
    Some(out)
}

} // verus!
