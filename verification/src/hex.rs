//! Verified hexadecimal encoding and decoding of byte strings.
//!
//! Encoding always emits lowercase digits; decoding accepts both cases,
//! and fails exactly on an odd-length input or a non-hex byte.

use vstd::prelude::*;

verus! {

/// Is `b` the ASCII code of a hexadecimal digit (either case)?
pub open spec fn is_hex_digit(b: u8) -> bool {
    (48 <= b <= 57) || (97 <= b <= 102) || (65 <= b <= 70)
}

/// Is `b` the ASCII code of a lowercase-or-numeric hexadecimal digit?
pub open spec fn is_lower_hex_digit(b: u8) -> bool {
    (48 <= b <= 57) || (97 <= b <= 102)
}

/// Numeric value of a hexadecimal digit.
pub open spec fn hex_val(b: u8) -> u8 {
    if 48 <= b <= 57 {
        (b - 48) as u8
    } else if 97 <= b <= 102 {
        (b - 87) as u8
    } else {
        (b - 55) as u8
    }
}

/// Lowercase ASCII digit for a value below 16.
pub open spec fn hex_char(v: u8) -> u8 {
    if v < 10 {
        (v + 48) as u8
    } else {
        (v + 87) as u8
    }
}

/// Lowercase hexadecimal rendering of a byte string: two digits per byte,
/// high nibble first.
pub open spec fn spec_hex_encode(bs: Seq<u8>) -> Seq<u8>
    decreases bs.len(),
{
    if bs.len() == 0 {
        Seq::<u8>::empty()
    } else {
        seq![hex_char(bs[0] / 16), hex_char(bs[0] % 16)] + spec_hex_encode(bs.drop_first())
    }
}

/// Does `s` decode as hexadecimal: even length, every byte a hex digit?
pub open spec fn spec_hex_ok(s: Seq<u8>) -> bool {
    s.len() % 2 == 0 && forall|k: int| 0 <= k < s.len() ==> is_hex_digit(s[k])
}

/// The bytes denoted by a well-formed hexadecimal string.
pub open spec fn spec_hex_decode(s: Seq<u8>) -> Seq<u8>
    decreases s.len(),
{
    if s.len() < 2 {
        Seq::<u8>::empty()
    } else {
        seq![((hex_val(s[0]) * 16 + hex_val(s[1])) as u8)] + spec_hex_decode(s.skip(2))
    }
}

/// Shape of an encoding: twice as long as the input, all lowercase digits.
pub proof fn lemma_hex_encode_shape(bs: Seq<u8>)
    ensures
        spec_hex_encode(bs).len() == 2 * bs.len(),
        forall|k: int|
            0 <= k < spec_hex_encode(bs).len() ==> is_lower_hex_digit(#[trigger] spec_hex_encode(
                bs,
            )[k]),
    decreases bs.len(),
{
    if bs.len() != 0 {
        lemma_hex_encode_shape(bs.drop_first());
    }
}

/// Decoding inverts encoding.
pub proof fn lemma_hex_decode_encode(bs: Seq<u8>)
    ensures
        spec_hex_ok(spec_hex_encode(bs)),
        spec_hex_decode(spec_hex_encode(bs)) =~= bs,
    decreases bs.len(),
{
    lemma_hex_encode_shape(bs);
    if bs.len() != 0 {
        lemma_hex_decode_encode(bs.drop_first());
        let e = spec_hex_encode(bs);
        assert(e.skip(2) =~= spec_hex_encode(bs.drop_first()));
        assert(hex_val(hex_char(bs[0] / 16)) == bs[0] / 16);
        assert(hex_val(hex_char(bs[0] % 16)) == bs[0] % 16);
        assert(bs[0] / 16 * 16 + bs[0] % 16 == bs[0]) by (nonlinear_arith);
        assert(spec_hex_decode(e) =~= seq![bs[0]] + bs.drop_first());
        assert(seq![bs[0]] + bs.drop_first() =~= bs);
    }
}

/// Appending one more digit pair extends the decoding by one byte.
proof fn lemma_hex_decode_snoc(s: Seq<u8>, i: int)
    requires
        0 <= i,
        i % 2 == 0,
        i + 2 <= s.len(),
    ensures
        spec_hex_decode(s.take(i + 2)) =~= spec_hex_decode(s.take(i)) + seq![
            ((hex_val(s[i]) * 16 + hex_val(s[i + 1])) as u8),
        ],
    decreases i,
{
    if i == 0 {
        assert(s.take(2)[0] == s[0] && s.take(2)[1] == s[1]);
        assert(s.take(2).skip(2) =~= Seq::<u8>::empty());
        assert(s.take(0) =~= Seq::<u8>::empty());
        assert(spec_hex_decode(Seq::<u8>::empty()) =~= Seq::<u8>::empty());
    } else {
        lemma_hex_decode_snoc(s.skip(2), i - 2);
        assert(s.skip(2).take(i) =~= s.take(i + 2).skip(2));
        assert(s.skip(2).take(i - 2) =~= s.take(i).skip(2));
        assert(s.skip(2)[i - 2] == s[i] && s.skip(2)[i - 1] == s[i + 1]);
        assert(s.take(i + 2)[0] == s[0] && s.take(i + 2)[1] == s[1]);
        assert(s.take(i)[0] == s[0] && s.take(i)[1] == s[1]);
    }
}

/// Decodes a hexadecimal byte string.  Returns `None` exactly when the
/// length is odd or some byte is not a hexadecimal digit.
pub fn hex_decode(s: &[u8]) -> (r: Option<Vec<u8>>)
    ensures
        r is Some <==> spec_hex_ok(s@),
        r matches Some(v) ==> v@ == spec_hex_decode(s@),
{
    if s.len() % 2 != 0 {
        return None;
    }
    let mut out: Vec<u8> = Vec::new();
    let mut i: usize = 0;
    proof {
        assert(spec_hex_decode(s@.take(0)) =~= Seq::<u8>::empty());
    }
    while i + 1 < s.len()
        invariant
            s@.len() % 2 == 0,
            0 <= i <= s@.len(),
            i % 2 == 0,
            forall|k: int| 0 <= k < i ==> is_hex_digit(s@[k]),
            out@ == spec_hex_decode(s@.take(i as int)),
        decreases s@.len() - i,
    {
        let a = s[i];
        let b = s[i + 1];
        let av: u8 = if 48 <= a && a <= 57 {
            a - 48
        } else if 97 <= a && a <= 102 {
            a - 87
        } else if 65 <= a && a <= 70 {
            a - 55
        } else {
            return None;
        };
        let bv: u8 = if 48 <= b && b <= 57 {
            b - 48
        } else if 97 <= b && b <= 102 {
            b - 87
        } else if 65 <= b && b <= 70 {
            b - 55
        } else {
            return None;
        };
        proof {
            lemma_hex_decode_snoc(s@, i as int);
        }
        out.push(av * 16 + bv);
        i = i + 2;
    }
    proof {
        assert(s@.take(i as int) =~= s@);
    }
    Some(out)
}

/// Appending one more byte extends the encoding by one digit pair.
proof fn lemma_hex_encode_snoc(bs: Seq<u8>, i: int)
    requires
        0 <= i < bs.len(),
    ensures
        spec_hex_encode(bs.take(i + 1)) =~= spec_hex_encode(bs.take(i)) + seq![
            hex_char(bs[i] / 16),
            hex_char(bs[i] % 16),
        ],
    decreases i,
{
    if i == 0 {
        assert(bs.take(1)[0] == bs[0]);
        assert(bs.take(1).drop_first() =~= Seq::<u8>::empty());
        assert(bs.take(0) =~= Seq::<u8>::empty());
        assert(spec_hex_encode(Seq::<u8>::empty()) =~= Seq::<u8>::empty());
    } else {
        lemma_hex_encode_snoc(bs.drop_first(), i - 1);
        assert(bs.drop_first().take(i) =~= bs.take(i + 1).drop_first());
        assert(bs.drop_first().take(i - 1) =~= bs.take(i).drop_first());
        assert(bs.drop_first()[i - 1] == bs[i]);
        assert(bs.take(i + 1)[0] == bs[0]);
        assert(bs.take(i)[0] == bs[0]);
    }
}

/// Encodes bytes as lowercase hexadecimal.
pub fn hex_encode(bs: &[u8]) -> (r: Vec<u8>)
    ensures
        r@ == spec_hex_encode(bs@),
{
    let mut out: Vec<u8> = Vec::new();
    let mut i: usize = 0;
    proof {
        assert(spec_hex_encode(bs@.take(0)) =~= Seq::<u8>::empty());
    }
    while i < bs.len()
        invariant
            0 <= i <= bs@.len(),
            out@ == spec_hex_encode(bs@.take(i as int)),
        decreases bs@.len() - i,
    {
        let b = bs[i];
        let hi = b / 16;
        let lo = b % 16;
        proof {
            lemma_hex_encode_snoc(bs@, i as int);
        }
        out.push(if hi < 10 { hi + 48 } else { hi + 87 });
        out.push(if lo < 10 { lo + 48 } else { lo + 87 });
        i = i + 1;
    }
    proof {
        assert(bs@.take(i as int) =~= bs@);
    }
    out
}

} // verus!
