//! Verified decimal rendering and parsing of unsigned integers, used by
//! the numeric range qualifiers and by the canonical object headers.

use vstd::prelude::*;

verus! {

/// Is `b` the ASCII code of a decimal digit?
pub open spec fn is_dec_digit(b: u8) -> bool {
    48 <= b <= 57
}

/// Canonical decimal rendering of `n`: no sign, no leading zero.
pub open spec fn spec_dec_digits(n: nat) -> Seq<u8>
    decreases n,
{
    if n < 10 {
        seq![((n + 48) as u8)]
    } else {
        spec_dec_digits(n / 10) + seq![((n % 10 + 48) as u8)]
    }
}

/// Is `s` a non-empty, all-digit string?
pub open spec fn spec_dec_ok(s: Seq<u8>) -> bool {
    s.len() > 0 && forall|k: int| 0 <= k < s.len() ==> is_dec_digit(s[k])
}

/// Numeric value of a digit string (most significant digit first).
pub open spec fn spec_dec_value(s: Seq<u8>) -> nat
    decreases s.len(),
{
    if s.len() == 0 {
        0
    } else {
        spec_dec_value(s.drop_last()) * 10 + (if is_dec_digit(s.last()) {
            (s.last() - 48) as nat
        } else {
            0
        })
    }
}

/// The canonical rendering is made of digits and starts without a zero
/// unless it renders zero itself.
pub proof fn lemma_dec_digits_shape(n: nat)
    ensures
        spec_dec_digits(n).len() >= 1,
        forall|k: int|
            0 <= k < spec_dec_digits(n).len() ==> is_dec_digit(#[trigger] spec_dec_digits(n)[k]),
        n > 0 ==> spec_dec_digits(n)[0] != 48,
    decreases n,
{
    if n >= 10 {
        lemma_dec_digits_shape(n / 10);
    }
}

/// Parsing the canonical rendering of `n` gives back `n`.
pub proof fn lemma_dec_value_digits(n: nat)
    ensures
        spec_dec_value(spec_dec_digits(n)) == n,
    decreases n,
{
    if n < 10 {
        assert(spec_dec_digits(n).drop_last() =~= Seq::<u8>::empty());
        assert(spec_dec_value(Seq::<u8>::empty()) == 0);
    } else {
        lemma_dec_value_digits(n / 10);
        let d = spec_dec_digits(n);
        assert(d.drop_last() =~= spec_dec_digits(n / 10));
        assert(d.last() == (n % 10 + 48) as u8);
    }
}

/// A longer digit string never denotes a smaller value.
proof fn lemma_dec_value_mono(s: Seq<u8>, i: int)
    requires
        0 <= i <= s.len(),
    ensures
        spec_dec_value(s) >= spec_dec_value(s.take(i)),
    decreases s.len() - i,
{
    if i < s.len() {
        lemma_dec_value_mono(s, i + 1);
        let t = s.take(i + 1);
        assert(t.drop_last() =~= s.take(i));
        let pre = spec_dec_value(s.take(i));
        assert(spec_dec_value(t) >= pre * 10) by (nonlinear_arith)
            requires
                spec_dec_value(t) == pre * 10 + (if is_dec_digit(t.last()) {
                    (t.last() - 48) as nat
                } else {
                    0
                }),
        ;
        assert(pre * 10 >= pre) by (nonlinear_arith);
    } else {
        assert(s.take(i) =~= s);
    }
}

/// Parses a decimal digit string as a `u32`.  Returns `None` exactly when
/// the string is empty, holds a non-digit, or denotes a value above
/// `u32::MAX`.
pub fn parse_u32(s: &[u8]) -> (r: Option<u32>)
    ensures
        r is Some <==> (spec_dec_ok(s@) && spec_dec_value(s@) <= u32::MAX),
        r matches Some(v) ==> v == spec_dec_value(s@),
{
    if s.len() == 0 {
        return None;
    }
    let mut acc: u64 = 0;
    let mut i: usize = 0;
    proof {
        assert(spec_dec_value(s@.take(0)) == 0);
    }
    while i < s.len()
        invariant
            0 <= i <= s@.len(),
            forall|k: int| 0 <= k < i ==> is_dec_digit(s@[k]),
            acc == spec_dec_value(s@.take(i as int)),
            acc <= u32::MAX,
        decreases s@.len() - i,
    {
        let b = s[i];
        if b < 48 || b > 57 {
            return None;
        }
        proof {
            assert(s@.take(i as int + 1).drop_last() =~= s@.take(i as int));
            assert(s@.take(i as int + 1).last() == s@[i as int]);
        }
        acc = acc * 10 + ((b - 48) as u64);
        if acc > 0xffff_ffff {
            proof {
                lemma_dec_value_mono(s@, i as int + 1);
            }
            return None;
        }
        i = i + 1;
    }
    proof {
        assert(s@.take(i as int) =~= s@);
    }
    Some(acc as u32)
}

/// Appends the canonical decimal rendering of `n` to `out`.
pub fn push_decimal(n: u64, out: &mut Vec<u8>)
    ensures
        final (out)@ == old(out)@ + spec_dec_digits(n as nat),
    decreases n,
{
    if n < 10 {
        out.push((n as u8) + 48);
        proof {
            assert(old(out)@ + spec_dec_digits(n as nat) =~= old(out)@.push((n + 48) as u8));
        }
    } else {
        push_decimal(n / 10, out);
        out.push(((n % 10) as u8) + 48);
        proof {
            assert(old(out)@ + spec_dec_digits(n as nat) =~= (old(out)@ + spec_dec_digits(
                (n / 10) as nat,
            )).push((n % 10 + 48) as u8));
        }
    }
}

} // verus!
