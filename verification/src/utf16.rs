//! UTF-16 encoding and decoding of character sequences.
//!
//! Strings cross the wire as 16-bit code units, one unit for characters in
//! the basic plane and a surrogate pair for the rest. Encoding is total over
//! characters; decoding fails exactly on unpaired surrogates.

use vstd::prelude::*;
use vstd::utf8::{is_scalar, char_is_scalar, char_u32_cast};
use vstd::string::StrSliceExecFns;

use crate::error::StatusCode;

verus! {

/// Whether a code unit is the leading half of a surrogate pair.
pub open spec fn is_lead_surrogate(u: u16) -> bool {
    0xD800 <= u < 0xDC00
}

/// Whether a code unit is the trailing half of a surrogate pair.
pub open spec fn is_trail_surrogate(u: u16) -> bool {
    0xDC00 <= u < 0xE000
}

/// The scalar value a surrogate pair stands for.
pub open spec fn combine_surrogates(lead: u16, trail: u16) -> u32
    recommends
        is_lead_surrogate(lead),
        is_trail_surrogate(trail),
{
    (0x10000 + (lead - 0xD800) * 0x400 + (trail - 0xDC00)) as u32
}

/// The UTF-16 code units of a single Unicode scalar value.
pub open spec fn utf16_units_of_scalar(v: u32) -> Seq<u16>
    recommends
        is_scalar(v),
{
    if v < 0x10000 {
        seq![v as u16]
    } else {
        seq![
            (0xD800 + (v - 0x10000) / 0x400) as u16,
            (0xDC00 + (v - 0x10000) % 0x400) as u16,
        ]
    }
}

/// The UTF-16 code units of a character sequence.
pub open spec fn encode_utf16(chars: Seq<char>) -> Seq<u16>
    decreases chars.len(),
{
    if chars.len() == 0 {
        Seq::empty()
    } else {
        utf16_units_of_scalar(chars[0] as u32) + encode_utf16(chars.drop_first())
    }
}

/// The character sequence a run of UTF-16 code units decodes to, or `None`
/// on the first unpaired surrogate.
pub open spec fn decode_utf16(units: Seq<u16>) -> Option<Seq<char>>
    decreases units.len(),
{
    if units.len() == 0 {
        Some(Seq::empty())
    } else {
        let u = units[0];
        if !is_lead_surrogate(u) && !is_trail_surrogate(u) {
            match decode_utf16(units.drop_first()) {
                Some(rest) => Some(seq![((u as u32) as char)] + rest),
                None => None,
            }
        } else if is_lead_surrogate(u) {
            if units.len() >= 2 && is_trail_surrogate(units[1]) {
                match decode_utf16(units.skip(2)) {
                    Some(rest) => Some(seq![(combine_surrogates(u, units[1]) as char)] + rest),
                    None => None,
                }
            } else {
                None
            }
        } else {
            None
        }
    }
}

/// Encoding appends unit-wise: encoding a sequence with one more character
/// appends that character's units.
pub proof fn lemma_encode_utf16_push(p: Seq<char>, c: char)
    ensures
        encode_utf16(p.push(c)) == encode_utf16(p) + utf16_units_of_scalar(c as u32),
    decreases p.len(),
{
    if p.len() == 0 {
        assert(p.push(c)[0] == c);
        assert(p.push(c).drop_first() =~= Seq::<char>::empty());
        assert(encode_utf16(Seq::<char>::empty()) == Seq::<u16>::empty());
        assert(encode_utf16(p.push(c)) == utf16_units_of_scalar(c as u32) + Seq::<u16>::empty());
        assert(encode_utf16(p) == Seq::<u16>::empty());
        assert(encode_utf16(p.push(c)) =~= encode_utf16(p) + utf16_units_of_scalar(c as u32));
    } else {
        lemma_encode_utf16_push(p.drop_first(), c);
        assert(p.push(c).drop_first() =~= p.drop_first().push(c));
        assert(p.push(c)[0] == p[0]);
        assert(encode_utf16(p.push(c)) == utf16_units_of_scalar(p[0] as u32) + encode_utf16(
            p.drop_first().push(c),
        ));
        assert(encode_utf16(p) == utf16_units_of_scalar(p[0] as u32) + encode_utf16(
            p.drop_first(),
        ));
        assert(encode_utf16(p.push(c)) =~= encode_utf16(p) + utf16_units_of_scalar(c as u32));
    }
}

/// Decoding inverts encoding: every character sequence is recovered exactly
/// from its UTF-16 code units.
pub proof fn lemma_utf16_round_trip(chars: Seq<char>)
    ensures
        decode_utf16(encode_utf16(chars)) == Some(chars),
    decreases chars.len(),
{
    if chars.len() == 0 {
        assert(decode_utf16(encode_utf16(chars)) =~~= Some(chars));
    } else {
        let c = chars[0];
        let v = c as u32;
        char_is_scalar(c);
        char_u32_cast(c, v);
        lemma_utf16_round_trip(chars.drop_first());
        let units = encode_utf16(chars);
        let rest = encode_utf16(chars.drop_first());
        if v < 0x10000 {
            assert(units == seq![v as u16] + rest);
            assert(units[0] == v as u16);
            assert(units.drop_first() =~= rest);
            assert(!is_lead_surrogate(units[0]) && !is_trail_surrogate(units[0]));
            assert(((units[0] as u32) as char) == c);
            assert(seq![c] + chars.drop_first() =~= chars);
        } else {
            let w = (v - 0x10000) as u32;
            let lead = (0xD800 + w / 0x400) as u16;
            let trail = (0xDC00 + w % 0x400) as u16;
            assert(units == seq![lead, trail] + rest);
            assert(units[0] == lead && units[1] == trail);
            assert(units.skip(2) =~= rest);
            assert(w <= 0xFFFFF);
            assert(w / 0x400 <= 0x3FF) by (nonlinear_arith)
                requires
                    w <= 0xFFFFF,
            ;
            assert(is_lead_surrogate(lead));
            assert(is_trail_surrogate(trail));
            assert((w / 0x400) * 0x400 + (w % 0x400) == w) by (nonlinear_arith);
            assert(combine_surrogates(lead, trail) == v);
            assert(seq![c] + chars.drop_first() =~= chars);
        }
    }
}

/// Relies on `char::from_u32` of std: it converts a 32-bit value to a
/// character, returning `None` exactly when the value is not a Unicode
/// scalar value.
pub assume_specification[ char::from_u32 ](v: u32) -> (r: Option<char>)
    ensures
        r is Some <==> is_scalar(v),
        r is Some ==> r->Some_0 as u32 == v,
;

/// Relies on `String::push` of std: it appends the given character to the
/// end of the string.
pub assume_specification[ String::push ](s: &mut String, c: char)
    ensures
        final(s)@ == old(s)@.push(c),
;

/// The UTF-16 code units of a string, in order.
pub fn utf16_encode(s: &str) -> (units: Vec<u16>)
    ensures
        units@ == encode_utf16(s@),
{
    let n = s.unicode_len();
    let mut units: Vec<u16> = Vec::new();
    let mut i: usize = 0;
    while i < n
        invariant
            i <= n,
            n == s@.len(),
            units@ == encode_utf16(s@.take(i as int)),
        decreases n - i,
    {
        let c = s.get_char(i);
        let v = c as u32;
        proof {
            char_is_scalar(c);
            lemma_encode_utf16_push(s@.take(i as int), s@[i as int]);
            assert(s@.take(i + 1) =~= s@.take(i as int).push(s@[i as int]));
        }
        if v < 0x10000 {
            units.push(v as u16);
        } else {
            let w = v - 0x10000;
            proof {
                assert(w / 0x400 <= 0x3FF) by (nonlinear_arith)
                    requires
                        w <= 0xFFFFF,
                ;
            }
            units.push(0xD800u16 + (w / 0x400) as u16);
            units.push(0xDC00u16 + (w % 0x400) as u16);
        }
        proof {
            assert(units@ =~= encode_utf16(s@.take(i + 1)));
        }
        i += 1;
    }
    proof {
        assert(s@.take(n as int) =~= s@);
    }
    units
}

/// The string a run of UTF-16 code units decodes to; an unpaired surrogate
/// is a `BadValue` error.
pub fn utf16_decode(units: &[u16]) -> (r: Result<String, StatusCode>)
    ensures
        match decode_utf16(units@) {
            Some(chars) => r is Ok && r->Ok_0@ == chars,
            None => r is Err && r->Err_0 == StatusCode::BadValue,
        },
{
    let mut out = String::new();
    let mut j: usize = 0;
    proof {
        assert(units@.skip(0) =~= units@);
        if decode_utf16(units@) is Some {
            assert(out@ + decode_utf16(units@)->Some_0 =~= decode_utf16(units@)->Some_0);
        }
    }
    while j < units.len()
        invariant
            j <= units@.len(),
            decode_utf16(units@) == (match decode_utf16(units@.skip(j as int)) {
                Some(rest) => Some(out@ + rest),
                None => None::<Seq<char>>,
            }),
        decreases units@.len() - j,
    {
        let ghost pending = units@.skip(j as int);
        proof {
            assert(pending[0] == units@[j as int]);
        }
        let u = units[j];
        if u < 0xD800 || u >= 0xE000 {
            proof {
                assert(pending.drop_first() =~= units@.skip(j + 1));
            }
            match char::from_u32(u as u32) {
                Some(c) => {
                    proof {
                        char_u32_cast(c, u as u32);
                        assert(((u as u32) as char) == c);
                    }
                    out.push(c);
                    proof {
                        if decode_utf16(units@.skip(j + 1)) is Some {
                            let rest = decode_utf16(units@.skip(j + 1))->Some_0;
                            assert(decode_utf16(pending) == Some(seq![c] + rest));
                            assert(out@ + rest =~= (out@.drop_last() + (seq![c] + rest)));
                        }
                    }
                },
                None => {
                    proof {
                        assert(is_scalar(u as u32));
                        assert(false);
                    }
                    return Err(StatusCode::BadValue);
                },
            }
            j += 1;
        } else if u < 0xDC00 {
            if j + 1 < units.len() && units[j + 1] >= 0xDC00 && units[j + 1] < 0xE000 {
                let t = units[j + 1];
                let v = 0x10000u32 + ((u as u32) - 0xD800) * 0x400 + ((t as u32) - 0xDC00);
                proof {
                    assert(pending.len() >= 2 && pending[1] == units@[j + 1]);
                    assert(pending.skip(2) =~= units@.skip(j + 2));
                    assert(combine_surrogates(u, t) == v);
                    assert(is_scalar(v));
                }
                match char::from_u32(v) {
                    Some(c) => {
                        proof {
                            char_u32_cast(c, v);
                            assert((combine_surrogates(u, t) as char) == c);
                        }
                        out.push(c);
                        proof {
                            if decode_utf16(units@.skip(j + 2)) is Some {
                                let rest = decode_utf16(units@.skip(j + 2))->Some_0;
                                assert(decode_utf16(pending) == Some(seq![c] + rest));
                                assert(out@ + rest =~= (out@.drop_last() + (seq![c] + rest)));
                            }
                        }
                    },
                    None => {
                        proof {
                            assert(false);
                        }
                        return Err(StatusCode::BadValue);
                    },
                }
                j += 2;
            } else {
                proof {
                    if pending.len() >= 2 {
                        assert(pending[1] == units@[j + 1]);
                    }
                    assert(decode_utf16(pending) is None);
                }
                return Err(StatusCode::BadValue);
            }
        } else {
            proof {
                assert(decode_utf16(pending) is None);
            }
            return Err(StatusCode::BadValue);
        }
    }
    proof {
        assert(units@.skip(j as int) =~= Seq::<u16>::empty());
        assert(out@ + Seq::<char>::empty() =~= out@);
    }
    Ok(out)
}

} // verus!
