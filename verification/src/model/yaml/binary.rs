//! `!!binary`: bytes written out in base64.
use vstd::prelude::*;
use vstd::string::StringSliceAdditionalSpecFns;

use crate::model::bytes::{
    all_blank_from, byte_at, is_blank, lemma_u8_flag, only_blanks_from, opening_quote,
    read_opening_quote,
};
use crate::model::renderer::is_string_node;
use crate::model::style::CommonStyles;
use crate::model::{issued_prefix, model_issue_rope, EncodedString, Model, Node, Renderer, Rope, Tagged, TaggedValue};

verus! {

pub const TAG: &'static str = "tag:yaml.org,2002:binary";

/// The binary model.
#[derive(Clone, Copy)]
pub struct Binary;

/// The base64 character of a six-bit index.
pub open spec fn spec_tbl(byte: u8) -> u8 {
    if byte <= 25 {
        (byte + 0x41) as u8
    } else if byte <= 51 {
        (byte + 0x61 - 26) as u8
    } else if byte <= 61 {
        (byte + 0x30 - 52) as u8
    } else if byte == 62 {
        0x2b
    } else {
        0x2f
    }
}

/// Whether the byte is a base64 character.
pub open spec fn is_b64_char(v: u8) -> bool {
    (0x41 <= v <= 0x5a) || (0x61 <= v <= 0x7a) || (0x30 <= v <= 0x39) || v == 0x2b || v == 0x2f
}

/// The six-bit index of a base64 character.
pub open spec fn spec_lbt(v: u8) -> u8 {
    if 0x41 <= v <= 0x5a {
        (v - 0x41) as u8
    } else if 0x61 <= v <= 0x7a {
        (v - 0x61 + 26) as u8
    } else if 0x30 <= v <= 0x39 {
        (v - 0x30 + 52) as u8
    } else if v == 0x2b {
        62
    } else {
        63
    }
}

/// The base64 encoding of `d`, padded with `=`.
pub open spec fn b64_encode(d: Seq<u8>) -> Seq<u8>
    decreases d.len(),
{
    if d.len() == 0 {
        Seq::empty()
    } else if d.len() == 1 {
        seq![spec_tbl(d[0] >> 2), spec_tbl((d[0] & 3) << 4), 0x3du8, 0x3du8]
    } else if d.len() == 2 {
        seq![
            spec_tbl(d[0] >> 2),
            spec_tbl(((d[0] & 3) << 4) | (d[1] >> 4)),
            spec_tbl((d[1] & 15) << 2),
            0x3du8,
        ]
    } else {
        seq![
            spec_tbl(d[0] >> 2),
            spec_tbl(((d[0] & 3) << 4) | (d[1] >> 4)),
            spec_tbl(((d[1] & 15) << 2) | (d[2] >> 6)),
            spec_tbl(d[2] & 63),
        ] + b64_encode(d.skip(3))
    }
}

/// One step of the decoder: the six bits `i` meet the state `rem` (how many
/// bits are pending and which); gives the new state and the byte completed,
/// if any.
pub open spec fn b64_step(rem: u8, i: u8) -> (u8, Option<u8>) {
    if rem & 0xc0 == 0xc0 {
        ((i & 0x0f) | 0x80, Some((((rem & 0x3f) << 2u8) | (i >> 4u8)) as u8))
    } else if rem & 0x80 == 0x80 {
        ((i & 0x03) | 0x40, Some((((rem & 0x3f) << 4u8) | (i >> 2u8)) as u8))
    } else if rem & 0x40 == 0x40 {
        (0, Some((((rem & 0x3f) << 6u8) | i) as u8))
    } else {
        (i | 0xc0, None)
    }
}

/// The decoder from position `p` on, in quote state `q` and bit state `rem`,
/// with `out` decoded so far. Blanks are skipped; a `=` that completes a zero
/// byte ends the input; the closing quote ends it too, and may only be
/// followed by blanks.
pub open spec fn b64_run(v: Seq<u8>, p: int, q: int, rem: u8, out: Seq<u8>) -> Option<Seq<u8>>
    decreases v.len() - p,
{
    if p < 0 || p >= v.len() {
        Some(out)
    } else {
        let b = v[p];
        if b == 0x27 {
            if q == 1 && all_blank_from(v, p + 1) {
                Some(out)
            } else {
                None
            }
        } else if b == 0x22 {
            if q == 2 && all_blank_from(v, p + 1) {
                Some(out)
            } else {
                None
            }
        } else if is_b64_char(b) {
            let (r2, o) = b64_step(rem, spec_lbt(b));
            match o {
                Some(x) => b64_run(v, p + 1, q, r2, out.push(x)),
                None => b64_run(v, p + 1, q, r2, out),
            }
        } else if b == 0x3d {
            let (r2, o) = b64_step(rem, 0);
            match o {
                Some(x) => if x == 0 {
                    Some(out)
                } else {
                    b64_run(v, p + 1, q, r2, out.push(x))
                },
                None => b64_run(v, p + 1, q, r2, out),
            }
        } else if is_blank(b) {
            b64_run(v, p + 1, q, rem, out)
        } else {
            None
        }
    }
}

/// What `v` decodes to, after an opening quote when explicit.
pub open spec fn b64_decode(explicit: bool, v: Seq<u8>) -> Option<Seq<u8>> {
    let q = opening_quote(explicit, v);
    b64_run(v, if q > 0 { 1 } else { 0 }, q, 0, Seq::empty())
}

impl Binary {
    pub fn get_tag() -> (r: &'static str)
        ensures
            r == TAG,
    {
        TAG
    }

    fn tbl(byte: u8) -> (r: u8)
        requires
            byte < 64,
        ensures
            r == spec_tbl(byte),
    {
        if byte <= 25 {
            byte + 0x41
        } else if byte <= 51 {
            byte + 0x61 - 26
        } else if byte <= 61 {
            byte + 0x30 - 52
        } else if byte == 62 {
            0x2b
        } else {
            0x2f
        }
    }

    fn lbt(byte: u8) -> (r: u8)
        requires
            is_b64_char(byte),
        ensures
            r == spec_lbt(byte),
    {
        if 0x41 <= byte && byte <= 0x5a {
            byte - 0x41
        } else if 0x61 <= byte && byte <= 0x7a {
            byte - 0x61 + 26
        } else if 0x30 <= byte && byte <= 0x39 {
            byte - 0x30 + 52
        } else if byte == 0x2b {
            62
        } else {
            63
        }
    }

    /// The base64 encoding of the bytes.
    fn encode_bytes(value: &Vec<u8>) -> (r: Vec<u8>)
        ensures
            r@ == b64_encode(value@),
    {
        let mut production: Vec<u8> = Vec::new();
        let mut i: usize = 0;
        let len = value.len();
        proof {
            assert(value@.skip(0) =~= value@);
        }
        while i < len
            invariant
                len == value@.len(),
                i <= len,
                production@ + b64_encode(value@.skip(i as int)) == b64_encode(value@),
            decreases len - i,
        {
            let ghost rest = value@.skip(i as int);
            let d0 = value[i];
            proof {
                lemma_b64_indices(d0, 0, 0);
            }
            if len - i == 1 {
                production.push(Self::tbl(d0 >> 2));
                production.push(Self::tbl((d0 & 3) << 4));
                production.push(0x3d);
                production.push(0x3d);
                assert(production@ =~= b64_encode(value@)) by {
                    assert(rest =~= seq![d0]);
                }
                return production;
            }
            let d1 = value[i + 1];
            proof {
                lemma_b64_indices(d0, d1, 0);
            }
            if len - i == 2 {
                production.push(Self::tbl(d0 >> 2));
                production.push(Self::tbl(((d0 & 3) << 4) | (d1 >> 4)));
                production.push(Self::tbl((d1 & 15) << 2));
                production.push(0x3d);
                assert(production@ =~= b64_encode(value@)) by {
                    assert(rest =~= seq![d0, d1]);
                }
                return production;
            }
            let d2 = value[i + 2];
            proof {
                lemma_b64_indices(d0, d1, d2);
            }
            let ghost before = production@;
            production.push(Self::tbl(d0 >> 2));
            production.push(Self::tbl(((d0 & 3) << 4) | (d1 >> 4)));
            production.push(Self::tbl(((d1 & 15) << 2) | (d2 >> 6)));
            production.push(Self::tbl(d2 & 63));
            proof {
                assert(rest[0] == d0 && rest[1] == d1 && rest[2] == d2);
                assert(rest.skip(3) =~= value@.skip(i + 3));
                assert(production@ + b64_encode(value@.skip(i + 3)) =~= before + b64_encode(rest));
            }
            i = i + 3;
        }
        proof {
            assert(value@.skip(i as int) =~= Seq::<u8>::empty());
            assert(production@ =~= b64_encode(value@));
        }
        production
    }

    /// Writes out the bytes in base64, preceded by the tag and anchor as the
    /// value's styles ask.
    pub fn encode(&self, _renderer: &Renderer, value: TaggedValue, tags: &[(String, String)]) -> (r: Result<Rope, TaggedValue>)
        ensures
            match value {
                TaggedValue::Binary(v) => r matches Ok(rope) && (issued_prefix(
                    rope@,
                    TAG.spec_bytes(),
                    tags@,
                    v.spec_issue_tag(),
                    v.spec_alias(),
                ) && is_string_node(rope@.last(), b64_encode(v.spec_value()))),
                _ => r == Err::<Rope, TaggedValue>(value),
            },
    {
        let mut value = match value {
            TaggedValue::Binary(v) => v,
            other => return Err(other),
        };
        let issue_tag = value.issue_tag();
        let alias = value.take_alias();
        let value = value.to_vec();
        let production = Self::encode_bytes(&value);
        let node = Node::String(EncodedString::String(production));
        Ok(model_issue_rope(self, node, issue_tag, alias, tags))
    }

    /// Reads base64: blanks are skipped, `=` pads, an explicit value may be
    /// quoted.
    pub fn decode(&self, explicit: bool, value: &[u8]) -> (r: Result<TaggedValue, ()>)
        ensures
            match b64_decode(explicit, value@) {
                Some(d) => r matches Ok(t) && (t matches TaggedValue::Binary(v) && v.is_plain()
                    && v.spec_value() == d),
                None => r is Err,
            },
    {
        let mut production: Vec<u8> = Vec::new();
        let mut rem: u8 = 0;
        let (quote_state, mut ptr) = read_opening_quote(explicit, value);
        let ghost q = quote_state as int;
        let ghost target = b64_decode(explicit, value@);
        loop
            invariant_except_break
                target == b64_run(value@, ptr as int, q, rem, production@),
            invariant
                ptr <= value@.len(),
                q == quote_state as int,
                target == b64_decode(explicit, value@),
            ensures
                target == Some(production@),
            decreases value@.len() - ptr,
        {
            if ptr >= value.len() {
                break;
            }
            let b = value[ptr];
            if b == 0x27 {
                if quote_state == 1 && only_blanks_from(value, ptr + 1) {
                    break;
                } else {
                    return Err(());
                }
            } else if b == 0x22 {
                if quote_state == 2 && only_blanks_from(value, ptr + 1) {
                    break;
                } else {
                    return Err(());
                }
            } else if (0x41 <= b && b <= 0x5a) || (0x61 <= b && b <= 0x7a) || (0x30 <= b && b <= 0x39)
                || b == 0x2b || b == 0x2f {
                ptr = ptr + 1;
                let i = Self::lbt(b);
                match Self::step(rem, i) {
                    (r2, Some(x)) => {
                        rem = r2;
                        production.push(x);
                    }
                    (r2, None) => {
                        rem = r2;
                    }
                }
            } else if b == 0x3d {
                ptr = ptr + 1;
                match Self::step(rem, 0) {
                    (r2, Some(x)) => {
                        if x == 0 {
                            break;
                        }
                        rem = r2;
                        production.push(x);
                    }
                    (r2, None) => {
                        rem = r2;
                    }
                }
            } else if b == 0x20 || b == 0x09 || b == 0x0a || b == 0x0d {
                ptr = ptr + 1;
            } else {
                return Err(());
            }
        }
        Ok(TaggedValue::Binary(BinaryValue::from(production)))
    }

    fn step(rem: u8, i: u8) -> (r: (u8, Option<u8>))
        ensures
            r == b64_step(rem, i),
    {
        if rem & 0xc0 == 0xc0 {
            ((i & 0x0f) | 0x80, Some(((rem & 0x3f) << 2u8) | (i >> 4u8)))
        } else if rem & 0x80 == 0x80 {
            ((i & 0x03) | 0x40, Some(((rem & 0x3f) << 4u8) | (i >> 2u8)))
        } else if rem & 0x40 == 0x40 {
            (0, Some(((rem & 0x3f) << 6u8) | i))
        } else {
            (i | 0xc0, None)
        }
    }
}

/// The indices that the encoder looks up are six-bit values.
proof fn lemma_b64_indices(d0: u8, d1: u8, d2: u8)
    by (bit_vector)
    ensures
        d0 >> 2 < 64,
        (d0 & 3) << 4 < 64,
        ((d0 & 3) << 4) | (d1 >> 4) < 64,
        (d1 & 15) << 2 < 64,
        ((d1 & 15) << 2) | (d2 >> 6) < 64,
        d2 & 63 < 64,
{
}


/// The four six-bit indices of a group of three bytes.
pub open spec fn g0(d0: u8) -> u8 {
    d0 >> 2
}

pub open spec fn g1(d0: u8, d1: u8) -> u8 {
    ((d0 & 3) << 4) | (d1 >> 4)
}

pub open spec fn g2(d1: u8, d2: u8) -> u8 {
    ((d1 & 15) << 2) | (d2 >> 6)
}

pub open spec fn g3(d2: u8) -> u8 {
    d2 & 63
}

/// The decoder's states after the first, second and third index of a group.
pub open spec fn s1(d0: u8) -> u8 {
    g0(d0) | 0xc0
}

pub open spec fn s2(d0: u8, d1: u8) -> u8 {
    (g1(d0, d1) & 0x0f) | 0x80
}

pub open spec fn s3(d1: u8, d2: u8) -> u8 {
    (g2(d1, d2) & 0x03) | 0x40
}

pub open spec fn out1(rem: u8, i: u8) -> u8 {
    ((rem & 0x3f) << 2u8) | (i >> 4u8)
}

pub open spec fn out2(rem: u8, i: u8) -> u8 {
    ((rem & 0x3f) << 4u8) | (i >> 2u8)
}

pub open spec fn out3(rem: u8, i: u8) -> u8 {
    ((rem & 0x3f) << 6u8) | i
}

/// The decoder's bit arithmetic undoes the encoder's, for full and for
/// padded groups.
proof fn lemma_b64_group(d0: u8, d1: u8, d2: u8)
    by (bit_vector)
    ensures
        0u8 & 0xc0 != 0xc0,
        0u8 & 0x80 != 0x80,
        0u8 & 0x40 != 0x40,
        s1(d0) & 0xc0 == 0xc0,
        out1(s1(d0), g1(d0, d1)) == d0,
        s2(d0, d1) & 0xc0 != 0xc0,
        s2(d0, d1) & 0x80 == 0x80,
        out2(s2(d0, d1), g2(d1, d2)) == d1,
        s2(d0, 0) == 0x80,
        s3(d1, d2) & 0xc0 != 0xc0,
        s3(d1, d2) & 0x80 != 0x80,
        s3(d1, d2) & 0x40 == 0x40,
        out3(s3(d1, d2), g3(d2)) == d2,
        s3(d1, 0) == 0x40,
        out2(0x80, 0) == 0,
        out3(0x40, 0) == 0,
        (0u8 & 0x03) | 0x40 == 0x40,
        (0u8 & 0x0f) | 0x80 == 0x80,
        0x80u8 & 0xc0 != 0xc0,
        0x80u8 & 0x80 == 0x80,
        0x40u8 & 0xc0 != 0xc0,
        0x40u8 & 0x80 != 0x80,
        0x40u8 & 0x40 == 0x40,
        g0(d0) < 64,
        g1(d0, d1) < 64,
        g2(d1, d2) < 64,
        g3(d2) < 64,
        g1(d0, 0) == (d0 & 3) << 4,
        g2(d1, 0) == (d1 & 15) << 2,
{
}

proof fn lemma_tbl(x: u8)
    requires
        x < 64,
    ensures
        is_b64_char(spec_tbl(x)),
        spec_lbt(spec_tbl(x)) == x,
        spec_tbl(x) != 0x27 && spec_tbl(x) != 0x22 && spec_tbl(x) != 0x3d,
{
}

/// Running the decoder over an encoding, from a group boundary, appends the
/// encoded bytes.
proof fn lemma_b64_run_encoded(pre: Seq<u8>, d: Seq<u8>, q: int, out: Seq<u8>)
    ensures
        b64_run(pre + b64_encode(d), pre.len() as int, q, 0, out) == Some(out + d),
    decreases d.len(),
{
    let v = pre + b64_encode(d);
    let n = pre.len() as int;
    if d.len() == 0 {
        assert(v.len() == n);
        assert(out + d =~= out);
    } else if d.len() == 1 {
        let d0 = d[0];
        lemma_b64_group(d0, 0, 0);
        lemma_tbl(g0(d0));
        lemma_tbl(g1(d0, 0));
        assert(v[n] == spec_tbl(g0(d0)));
        assert(v[n + 1] == spec_tbl(g1(d0, 0)));
        assert(v[n + 2] == 0x3d);
        assert(b64_step(0, g0(d0)) == (s1(d0), None::<u8>));
        assert(b64_step(s1(d0), g1(d0, 0)) == (0x80u8, Some(d0)));
        assert(b64_step(0x80u8, 0) == (0x40u8, Some(0u8)));
        assert(b64_run(v, n + 2, q, 0x80u8, out.push(d0)) == Some(out.push(d0)));
        assert(b64_run(v, n + 1, q, s1(d0), out) == Some(out.push(d0)));
        assert(b64_run(v, n, q, 0, out) == Some(out.push(d0)));
        assert(out.push(d0) =~= out + d);
    } else if d.len() == 2 {
        let d0 = d[0];
        let d1 = d[1];
        lemma_b64_group(d0, d1, 0);
        lemma_tbl(g0(d0));
        lemma_tbl(g1(d0, d1));
        lemma_tbl(g2(d1, 0));
        assert(v[n] == spec_tbl(g0(d0)));
        assert(v[n + 1] == spec_tbl(g1(d0, d1)));
        assert(v[n + 2] == spec_tbl(g2(d1, 0)));
        assert(v[n + 3] == 0x3d);
        assert(b64_step(0, g0(d0)) == (s1(d0), None::<u8>));
        assert(b64_step(s1(d0), g1(d0, d1)) == (s2(d0, d1), Some(d0)));
        assert(b64_step(s2(d0, d1), g2(d1, 0)) == (0x40u8, Some(d1)));
        assert(b64_step(0x40u8, 0) == (0u8, Some(0u8)));
        let o2 = out.push(d0).push(d1);
        assert(b64_run(v, n + 3, q, 0x40u8, o2) == Some(o2));
        assert(b64_run(v, n + 2, q, s2(d0, d1), out.push(d0)) == Some(o2));
        assert(b64_run(v, n + 1, q, s1(d0), out) == Some(o2));
        assert(b64_run(v, n, q, 0, out) == Some(o2));
        assert(out.push(d0).push(d1) =~= out + d);
    } else {
        let d0 = d[0];
        let d1 = d[1];
        let d2 = d[2];
        lemma_b64_group(d0, d1, d2);
        lemma_tbl(g0(d0));
        lemma_tbl(g1(d0, d1));
        lemma_tbl(g2(d1, d2));
        lemma_tbl(g3(d2));
        let g = seq![spec_tbl(g0(d0)), spec_tbl(g1(d0, d1)), spec_tbl(g2(d1, d2)), spec_tbl(g3(d2))];
        assert(b64_encode(d) == g + b64_encode(d.skip(3)));
        let pre2 = pre + g;
        assert(v =~= pre2 + b64_encode(d.skip(3)));
        assert(v[n] == spec_tbl(g0(d0)));
        assert(v[n + 1] == spec_tbl(g1(d0, d1)));
        assert(v[n + 2] == spec_tbl(g2(d1, d2)));
        assert(v[n + 3] == spec_tbl(g3(d2)));
        assert(b64_step(0, g0(d0)) == (s1(d0), None::<u8>));
        assert(b64_step(s1(d0), g1(d0, d1)) == (s2(d0, d1), Some(d0)));
        assert(b64_step(s2(d0, d1), g2(d1, d2)) == (s3(d1, d2), Some(d1)));
        assert(b64_step(s3(d1, d2), g3(d2)) == (0u8, Some(d2)));
        let o3 = out.push(d0).push(d1).push(d2);
        lemma_b64_run_encoded(pre2, d.skip(3), q, o3);
        assert(pre2.len() == n + 4);
        assert(b64_run(v, n + 4, q, 0, o3) == Some(o3 + d.skip(3)));
        assert(b64_run(v, n + 3, q, s3(d1, d2), out.push(d0).push(d1)) == Some(o3 + d.skip(3)));
        assert(b64_run(v, n + 2, q, s2(d0, d1), out.push(d0)) == Some(o3 + d.skip(3)));
        assert(b64_run(v, n + 1, q, s1(d0), out) == Some(o3 + d.skip(3)));
        assert(b64_run(v, n, q, 0, out) == Some(o3 + d.skip(3)));
        assert(o3 + d.skip(3) =~= out + d);
    }
}

/// The base64 alphabet of RFC 4648, in index order: the capitals `A`-`Z`,
/// the small letters `a`-`z`, the digits `0`-`9`, then `+` and `/`.
pub open spec fn rfc4648_alphabet() -> Seq<u8> {
    Seq::new(26, |k: int| (0x41 + k) as u8) + Seq::new(26, |k: int| (0x61 + k) as u8) + Seq::new(
        10,
        |k: int| (0x30 + k) as u8,
    ) + seq![0x2bu8, 0x2fu8]
}

/// The encoder writes each six-bit index as the character of the standard
/// base64 alphabet (RFC 4648) at that index, and the decoder reads each
/// character of that alphabet back as its index.
pub proof fn law_binary_standard_alphabet()
    ensures
        rfc4648_alphabet().len() == 64,
        forall|i: u8| i < 64 ==> #[trigger] spec_tbl(i) == rfc4648_alphabet()[i as int],
        forall|i: u8| i < 64 ==> spec_lbt(#[trigger] rfc4648_alphabet()[i as int]) == i,
        forall|i: u8| i < 64 ==> is_b64_char(#[trigger] rfc4648_alphabet()[i as int]),
{
    let a = rfc4648_alphabet();
    assert(a.len() == 64);
    assert forall|i: u8| i < 64 implies #[trigger] spec_tbl(i) == a[i as int] && spec_lbt(a[i as int]) == i
        && is_b64_char(a[i as int]) by {
        if i < 26 {
        } else if i < 52 {
        } else if i < 62 {
        } else if i == 62 {
        } else {
        }
    }
}

/// Decoding what the encoder wrote gives back the bytes, quoted or not.
pub proof fn law_binary_roundtrip(explicit: bool, data: Seq<u8>)
    ensures
        b64_decode(explicit, b64_encode(data)) == Some(data),
{
    let e = b64_encode(data);
    if data.len() > 0 {
        lemma_b64_group(data[0], 0, 0);
        lemma_tbl(data[0] >> 2);
        assert(e[0] == spec_tbl(data[0] >> 2));
    }
    assert(opening_quote(explicit, e) == 0);
    lemma_b64_run_encoded(Seq::empty(), data, 0, Seq::empty());
    assert(Seq::<u8>::empty() + e =~= e);
    assert(Seq::<u8>::empty() + data =~= data);
}

impl Model for Binary {
    fn is_metamodel(&self) -> (r: bool) {
        false
    }

    open spec fn spec_is_decodable(&self) -> bool {
        true
    }

    open spec fn spec_is_encodable(&self) -> bool {
        true
    }

    fn has_default(&self) -> (r: bool) {
        false
    }

    fn is_sequence(&self) -> (r: bool) {
        false
    }

    fn is_dictionary(&self) -> (r: bool) {
        false
    }

    open spec fn spec_tag(&self) -> &'static str {
        TAG
    }

    fn get_tag(&self) -> (r: &'static str) {
        TAG
    }

    fn is_decodable(&self) -> (r: bool)
        ensures
            r,
    {
        true
    }

    fn is_encodable(&self) -> (r: bool)
        ensures
            r,
    {
        true
    }
}

/// Bytes, with their presentation.
#[derive(Clone, Debug)]
pub struct BinaryValue {
    style: u8,
    alias: Option<String>,
    value: Vec<u8>,
}

impl BinaryValue {
    pub closed spec fn spec_issue_tag(&self) -> bool {
        self.style & 1 == 1
    }

    pub closed spec fn spec_alias(&self) -> Option<String> {
        self.alias
    }

    pub closed spec fn spec_value(&self) -> Seq<u8> {
        self.value@
    }

    /// The bytes, as they are held.
    pub closed spec fn spec_data(&self) -> Vec<u8> {
        self.value
    }

    /// No tag issued, no anchor.
    pub open spec fn is_plain(&self) -> bool {
        !self.spec_issue_tag() && self.spec_alias() is None
    }

    pub fn new(value: Vec<u8>, styles: CommonStyles, alias: Option<String>) -> (r: BinaryValue)
        ensures
            r.spec_value() == value@,
            r.spec_issue_tag() == styles.spec_issue_tag(),
            r.spec_alias() == alias,
    {
        proof {
            lemma_u8_flag(0, 1, 1);
        }
        BinaryValue { style: if styles.issue_tag() { 1 } else { 0 }, value, alias }
    }

    pub fn to_vec(self) -> (r: Vec<u8>)
        ensures
            r@ == self.spec_value(),
            r == self.spec_data(),
    {
        self.value
    }

    pub fn take_alias(&mut self) -> (r: Option<String>)
        ensures
            r == old(self).spec_alias(),
            final(self).spec_alias() is None,
            final(self).spec_issue_tag() == old(self).spec_issue_tag(),
            final(self).spec_value() == old(self).spec_value(),
    {
        self.alias.take()
    }

    pub fn issue_tag(&self) -> (r: bool)
        ensures
            r == self.spec_issue_tag(),
    {
        self.style & 1 == 1
    }

    pub fn set_issue_tag(&mut self, val: bool)
        ensures
            final(self).spec_issue_tag() == val,
            final(self).spec_alias() == old(self).spec_alias(),
            final(self).spec_value() == old(self).spec_value(),
    {
        let s = self.style;
        proof {
            lemma_u8_flag(s, 1, 1);
        }
        if val {
            self.style = s | 1;
        } else {
            self.style = s & !1;
        }
    }

    /// The bytes.
    pub fn as_slice(&self) -> (r: &[u8])
        ensures
            r@ == self.spec_value(),
    {
        self.value.as_slice()
    }
}

impl From<Vec<u8>> for BinaryValue {
    fn from(val: Vec<u8>) -> (r: BinaryValue)
        ensures
            r.spec_value() == val@,
            r.is_plain(),
    {
        proof {
            lemma_u8_flag(0, 1, 1);
        }
        BinaryValue { style: 0, value: val, alias: None }
    }
}

impl vstd::std_specs::convert::FromSpecImpl<Vec<u8>> for BinaryValue {
    open spec fn obeys_from_spec() -> bool {
        true
    }

    closed spec fn from_spec(v: Vec<u8>) -> BinaryValue {
        BinaryValue { style: 0, value: v, alias: None }
    }
}

impl Tagged for BinaryValue {
    open spec fn spec_tag(&self) -> &'static str {
        TAG
    }

    fn get_tag(&self) -> (r: &'static str) {
        TAG
    }
}

} // verus!
