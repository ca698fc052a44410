//! Byte-sequence utilities shared by the identifier grammars and the
//! directory tree builder: splitting on a separator byte, equality, and
//! byte-wise lexicographic comparison.

use vstd::prelude::*;

verus! {

/// Splits `s` on every occurrence of `sep`.  The result always has at
/// least one piece; `n` separators yield `n + 1` pieces, each free of
/// `sep`, and joining the pieces with `sep` gives back `s`.
pub open spec fn spec_split(s: Seq<u8>, sep: u8) -> Seq<Seq<u8>>
    decreases s.len(),
{
    if s.len() == 0 {
        seq![Seq::<u8>::empty()]
    } else if s[0] == sep {
        seq![Seq::<u8>::empty()] + spec_split(s.drop_first(), sep)
    } else {
        let rest = spec_split(s.drop_first(), sep);
        seq![seq![s[0]] + rest[0]] + rest.drop_first()
    }
}

/// A split has at least one piece.
pub proof fn lemma_split_len(s: Seq<u8>, sep: u8)
    ensures
        spec_split(s, sep).len() >= 1,
    decreases s.len(),
{
    if s.len() != 0 {
        lemma_split_len(s.drop_first(), sep);
    }
}

/// Prepending a separator-free prefix to `rest` extends the first piece
/// of the split of `rest`.
pub proof fn lemma_split_prepend(pre: Seq<u8>, rest: Seq<u8>, sep: u8)
    requires
        forall|k: int| 0 <= k < pre.len() ==> pre[k] != sep,
    ensures
        spec_split(pre + rest, sep) =~= seq![pre + spec_split(rest, sep)[0]]
            + spec_split(rest, sep).drop_first(),
    decreases pre.len(),
{
    lemma_split_len(rest, sep);
    if pre.len() == 0 {
        assert(pre + rest =~= rest);
        assert(pre + spec_split(rest, sep)[0] =~= spec_split(rest, sep)[0]);
        assert(seq![spec_split(rest, sep)[0]] + spec_split(rest, sep).drop_first()
            =~= spec_split(rest, sep));
    } else {
        let s = pre + rest;
        assert(s[0] == pre[0]);
        assert(s.drop_first() =~= pre.drop_first() + rest);
        lemma_split_prepend(pre.drop_first(), rest, sep);
        let inner = spec_split(pre.drop_first() + rest, sep);
        assert(spec_split(s, sep) =~= seq![seq![s[0]] + inner[0]] + inner.drop_first());
        assert(seq![s[0]] + (pre.drop_first() + spec_split(rest, sep)[0])
            =~= pre + spec_split(rest, sep)[0]);
    }
}

/// Splitting a separator-free sequence yields that sequence alone.
pub proof fn lemma_split_whole(s: Seq<u8>, sep: u8)
    requires
        forall|k: int| 0 <= k < s.len() ==> s[k] != sep,
    ensures
        spec_split(s, sep) =~= seq![s],
{
    lemma_split_prepend(s, Seq::<u8>::empty(), sep);
    assert(s + Seq::<u8>::empty() =~= s);
    assert(spec_split(Seq::<u8>::empty(), sep) =~= seq![Seq::<u8>::empty()]);
    assert(s + Seq::<u8>::empty() =~= s);
}

/// A separator-free prefix followed by a separator contributes exactly
/// one piece to the front of the split.
pub proof fn lemma_split_field(pre: Seq<u8>, rest: Seq<u8>, sep: u8)
    requires
        forall|k: int| 0 <= k < pre.len() ==> pre[k] != sep,
    ensures
        spec_split(pre + seq![sep] + rest, sep) =~= seq![pre] + spec_split(rest, sep),
{
    assert(pre + seq![sep] + rest =~= pre + (seq![sep] + rest));
    lemma_split_prepend(pre, seq![sep] + rest, sep);
    let mid = seq![sep] + rest;
    assert(mid[0] == sep);
    assert(mid.drop_first() =~= rest);
    assert(spec_split(mid, sep) =~= seq![Seq::<u8>::empty()] + spec_split(rest, sep));
    lemma_split_len(rest, sep);
    assert(pre + spec_split(mid, sep)[0] =~= pre);
    assert(spec_split(mid, sep).drop_first() =~= spec_split(rest, sep));
}

/// Splits a byte slice on every occurrence of `sep`.
pub fn split_bytes(s: &[u8], sep: u8) -> (r: Vec<Vec<u8>>)
    ensures
        r.deep_view() == spec_split(s@, sep),
{
    let ghost sv: Seq<u8> = s@;
    let mut out: Vec<Vec<u8>> = Vec::new();
    let mut cur: Vec<u8> = Vec::new();
    let mut i: usize = 0;
    proof {
        assert(cur@ + sv.skip(0) =~= sv);
        assert(out.deep_view() + spec_split(sv, sep) =~= spec_split(sv, sep));
    }
    while i < s.len()
        invariant
            0 <= i <= sv.len(),
            sv == s@,
            forall|k: int| 0 <= k < cur@.len() ==> cur@[k] != sep,
            spec_split(sv, sep) =~~= out.deep_view() + spec_split(
                cur@ + sv.skip(i as int),
                sep,
            ),
        decreases sv.len() - i,
    {
        let b = s[i];
        if b == sep {
            let ghost old_out = out.deep_view();
            let ghost cur_v = cur@;
            proof {
                assert(cur_v + sv.skip(i as int) =~= cur_v + seq![sep] + sv.skip(i as int + 1));
                lemma_split_field(cur_v, sv.skip(i as int + 1), sep);
                assert(cur.deep_view() =~= cur_v);
            }
            out.push(cur);
            cur = Vec::new();
            proof {
                assert(out.deep_view() =~~= old_out.push(cur_v));
                assert(old_out.push(cur_v) + spec_split(sv.skip(i as int + 1), sep) =~= old_out
                    + (seq![cur_v] + spec_split(sv.skip(i as int + 1), sep)));
                assert(cur@ + sv.skip(i as int + 1) =~= sv.skip(i as int + 1));
            }
        } else {
            proof {
                assert(cur@.push(b) + sv.skip(i as int + 1) =~= cur@ + sv.skip(i as int));
            }
            cur.push(b);
        }
        i = i + 1;
    }
    let ghost old_out = out.deep_view();
    let ghost cur_v = cur@;
    proof {
        assert(cur_v + sv.skip(i as int) =~= cur_v);
        lemma_split_whole(cur_v, sep);
        assert(cur.deep_view() =~= cur_v);
    }
    out.push(cur);
    proof {
        assert(out.deep_view() =~~= old_out.push(cur_v));
        assert(old_out.push(cur_v) =~= old_out + seq![cur_v]);
        assert(out.deep_view() =~~= spec_split(sv, sep));
    }
    out
}

/// Byte-slice equality.
pub fn bytes_eq(a: &[u8], b: &[u8]) -> (r: bool)
    ensures
        r == (a@ =~= b@),
{
    if a.len() != b.len() {
        return false;
    }
    let mut i: usize = 0;
    while i < a.len()
        invariant
            a@.len() == b@.len(),
            0 <= i <= a@.len(),
            forall|k: int| 0 <= k < i ==> a@[k] == b@[k],
        decreases a@.len() - i,
    {
        if a[i] != b[i] {
            return false;
        }
        i = i + 1;
    }
    true
}

/// Byte-wise lexicographic "less than or equal" on byte sequences: the
/// order of directory-entry sort keys.
pub open spec fn bytes_le(a: Seq<u8>, b: Seq<u8>) -> bool
    decreases a.len(),
{
    if a.len() == 0 {
        true
    } else if b.len() == 0 {
        false
    } else if a[0] < b[0] {
        true
    } else if a[0] > b[0] {
        false
    } else {
        bytes_le(a.drop_first(), b.drop_first())
    }
}

/// The lexicographic order is total.
pub proof fn lemma_bytes_le_total(a: Seq<u8>, b: Seq<u8>)
    ensures
        bytes_le(a, b) || bytes_le(b, a),
    decreases a.len(),
{
    if a.len() != 0 && b.len() != 0 && a[0] == b[0] {
        lemma_bytes_le_total(a.drop_first(), b.drop_first());
    }
}

/// The lexicographic order is transitive.
pub proof fn lemma_bytes_le_trans(a: Seq<u8>, b: Seq<u8>, c: Seq<u8>)
    requires
        bytes_le(a, b),
        bytes_le(b, c),
    ensures
        bytes_le(a, c),
    decreases a.len(),
{
    if a.len() != 0 && b.len() != 0 && c.len() != 0 && a[0] == b[0] && b[0] == c[0] {
        lemma_bytes_le_trans(a.drop_first(), b.drop_first(), c.drop_first());
    }
}

/// The lexicographic order is antisymmetric.
pub proof fn lemma_bytes_le_antisym(a: Seq<u8>, b: Seq<u8>)
    requires
        bytes_le(a, b),
        bytes_le(b, a),
    ensures
        a =~= b,
    decreases a.len(),
{
    if a.len() != 0 && b.len() != 0 && a[0] == b[0] {
        lemma_bytes_le_antisym(a.drop_first(), b.drop_first());
        assert(a =~= seq![a[0]] + a.drop_first());
        assert(b =~= seq![b[0]] + b.drop_first());
    }
}

/// When the first `i` bytes agree, the comparison is decided by the tails.
proof fn lemma_bytes_le_skip(a: Seq<u8>, b: Seq<u8>, i: int)
    requires
        0 <= i <= a.len(),
        i <= b.len(),
        forall|k: int| 0 <= k < i ==> a[k] == b[k],
    ensures
        bytes_le(a, b) == bytes_le(a.skip(i), b.skip(i)),
    decreases i,
{
    if i > 0 {
        assert(a.len() != 0 && b.len() != 0 && a[0] == b[0]);
        assert(a.drop_first().skip(i - 1) =~= a.skip(i));
        assert(b.drop_first().skip(i - 1) =~= b.skip(i));
        lemma_bytes_le_skip(a.drop_first(), b.drop_first(), i - 1);
    } else {
        assert(a.skip(0) =~= a);
        assert(b.skip(0) =~= b);
    }
}

/// Byte-wise lexicographic comparison of two byte slices.
pub fn bytes_le_exec(a: &[u8], b: &[u8]) -> (r: bool)
    ensures
        r == bytes_le(a@, b@),
{
    let mut i: usize = 0;
    while i < a.len() && i < b.len()
        invariant
            0 <= i <= a@.len(),
            i <= b@.len(),
            forall|k: int| 0 <= k < i ==> a@[k] == b@[k],
        decreases a@.len() - i,
    {
        if a[i] < b[i] {
            proof {
                lemma_bytes_le_skip(a@, b@, i as int);
            }
            return true;
        }
        if a[i] > b[i] {
            proof {
                lemma_bytes_le_skip(a@, b@, i as int);
            }
            return false;
        }
        i = i + 1;
    }
    proof {
        lemma_bytes_le_skip(a@, b@, i as int);
    }
    a.len() <= b.len()
}

/// Splits at the first occurrence of `sep`, if any.
pub open spec fn spec_split_once(s: Seq<u8>, sep: u8) -> Option<(Seq<u8>, Seq<u8>)>
    decreases s.len(),
{
    if s.len() == 0 {
        None
    } else if s[0] == sep {
        Some((Seq::<u8>::empty(), s.drop_first()))
    } else {
        match spec_split_once(s.drop_first(), sep) {
            None => None,
            Some((k, v)) => Some((seq![s[0]] + k, v)),
        }
    }
}

/// A separator-free key followed by `sep` splits at that separator.
pub proof fn lemma_split_once_join(key: Seq<u8>, value: Seq<u8>, sep: u8)
    requires
        forall|k: int| 0 <= k < key.len() ==> key[k] != sep,
    ensures
        spec_split_once(key + seq![sep] + value, sep) == Some((key, value)),
    decreases key.len(),
{
    let s = key + seq![sep] + value;
    if key.len() == 0 {
        assert(s[0] == sep);
        assert(s.drop_first() =~= value);
        assert(Seq::<u8>::empty() =~= key);
    } else {
        lemma_split_once_join(key.drop_first(), value, sep);
        assert(s[0] == key[0]);
        assert(s.drop_first() =~= key.drop_first() + seq![sep] + value);
        assert(seq![s[0]] + key.drop_first() =~= key);
    }
}

/// A sequence without the separator does not split.
pub proof fn lemma_split_once_none(s: Seq<u8>, sep: u8)
    requires
        forall|k: int| 0 <= k < s.len() ==> s[k] != sep,
    ensures
        spec_split_once(s, sep) is None,
    decreases s.len(),
{
    if s.len() != 0 {
        lemma_split_once_none(s.drop_first(), sep);
    }
}

/// The first occurrence of `sep` in `s` decides `spec_split_once`.
proof fn lemma_split_once_at(s: Seq<u8>, sep: u8, i: int)
    requires
        0 <= i < s.len(),
        s[i] == sep,
        forall|k: int| 0 <= k < i ==> s[k] != sep,
    ensures
        spec_split_once(s, sep) == Some((s.take(i), s.skip(i + 1))),
    decreases i,
{
    if i == 0 {
        assert(s.take(0) =~= Seq::<u8>::empty());
        assert(s.skip(1) =~= s.drop_first());
    } else {
        lemma_split_once_at(s.drop_first(), sep, i - 1);
        assert(s.drop_first()[i - 1] == s[i]);
        assert(seq![s[0]] + s.drop_first().take(i - 1) =~= s.take(i));
        assert(s.drop_first().skip(i) =~= s.skip(i + 1));
    }
}

/// Splits a byte slice at the first occurrence of `sep`, if any.
pub fn split_once_bytes(s: &[u8], sep: u8) -> (r: Option<(Vec<u8>, Vec<u8>)>)
    ensures
        match r {
            Some(kv) => spec_split_once(s@, sep) == Some((kv.0@, kv.1@)),
            None => spec_split_once(s@, sep) is None,
        },
{
    let mut i: usize = 0;
    while i < s.len()
        invariant
            0 <= i <= s@.len(),
            forall|k: int| 0 <= k < i ==> s@[k] != sep,
        decreases s@.len() - i,
    {
        if s[i] == sep {
            let mut key: Vec<u8> = Vec::new();
            let mut k: usize = 0;
            while k < i
                invariant
                    0 <= k <= i <= s@.len(),
                    key@ =~= s@.take(k as int),
                decreases i - k,
            {
                key.push(s[k]);
                proof {
                    assert(s@.take(k as int).push(s@[k as int]) =~= s@.take(k as int + 1));
                }
                k = k + 1;
            }
            let mut value: Vec<u8> = Vec::new();
            let mut j: usize = i + 1;
            while j < s.len()
                invariant
                    i + 1 <= j <= s@.len(),
                    value@ =~= s@.subrange(i as int + 1, j as int),
                decreases s@.len() - j,
            {
                value.push(s[j]);
                proof {
                    assert(s@.subrange(i as int + 1, j as int).push(s@[j as int]) =~= s@.subrange(
                        i as int + 1,
                        j as int + 1,
                    ));
                }
                j = j + 1;
            }
            proof {
                lemma_split_once_at(s@, sep, i as int);
                assert(value@ =~= s@.skip(i as int + 1));
            }
            return Some((key, value));
        }
        i = i + 1;
    }
    proof {
        lemma_split_once_none(s@, sep);
    }
    None
}

/// Appends all bytes of a slice to a vector.
pub fn push_all(out: &mut Vec<u8>, s: &[u8])
    ensures
        final (out)@ == old(out)@ + s@,
{
    let mut i: usize = 0;
    while i < s.len()
        invariant
            0 <= i <= s@.len(),
            out@ =~= old(out)@ + s@.take(i as int),
        decreases s@.len() - i,
    {
        out.push(s[i]);
        proof {
            assert((old(out)@ + s@.take(i as int)).push(s@[i as int]) =~= old(out)@ + s@.take(
                i as int + 1,
            ));
        }
        i = i + 1;
    }
    proof {
        assert(s@.take(i as int) =~= s@);
    }
}

} // verus!
