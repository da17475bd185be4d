//! Byte-string utilities shared by the zone logic: ASCII lowercasing,
//! splitting on a separator, and decimal formatting and parsing.
//!
//! DNS names are handled as sequences of labels, each label a sequence of
//! bytes compared case-insensitively in the ASCII range.

use vstd::prelude::*;

verus! {

/// The label separator in a dot-separated domain name: the byte of '.'.
pub const DOT: u8 = 46;

/// For byte vectors the deep view and the plain view coincide.
pub broadcast proof fn lemma_vec_u8_deep_view(v: Vec<u8>)
    ensures
        #[trigger] v.deep_view() == v@,
{
    assert(v.deep_view() =~= v@);
}

/// ASCII lowercasing of a single byte.
pub open spec fn lower(b: u8) -> u8 {
    if ('A' as u8) <= b && b <= ('Z' as u8) {
        (b + 32) as u8
    } else {
        b
    }
}

/// A label with every byte ASCII-lowercased.
pub open spec fn label_lower(s: Seq<u8>) -> Seq<u8> {
    Seq::new(s.len(), |i: int| lower(s[i]))
}

pub fn lower_byte(b: u8) -> (r: u8)
    ensures
        r == lower(b),
{
    if ('A' as u8) <= b && b <= ('Z' as u8) {
        b + 32
    } else {
        b
    }
}

/// Case-insensitive equality of two labels.
pub fn bytes_eq_ci(a: &Vec<u8>, b: &Vec<u8>) -> (r: bool)
    ensures
        r == (label_lower(a@) == label_lower(b@)),
{
    if a.len() != b.len() {
        proof {
            assert(label_lower(a@).len() != label_lower(b@).len());
        }
        return false;
    }
    let n = a.len();
    let mut i: usize = 0;
    while i < n
        invariant
            i <= n,
            n == a@.len(),
            n == b@.len(),
            forall|j: int| 0 <= j < i ==> lower(a@[j]) == lower(b@[j]),
        decreases n - i,
    {
        if lower_byte(a[i]) != lower_byte(b[i]) {
            proof {
                assert(label_lower(a@)[i as int] != label_lower(b@)[i as int]);
            }
            return false;
        }
        i += 1;
    }
    proof {
        assert(label_lower(a@) =~= label_lower(b@));
    }
    true
}

/// Splitting a byte string at every occurrence of `sep`. The result always
/// has at least one part; separators at the ends or next to each other give
/// empty parts.
pub open spec fn split_bytes(s: Seq<u8>, sep: u8) -> Seq<Seq<u8>>
    decreases s.len(),
{
    if s.len() == 0 {
        seq![Seq::<u8>::empty()]
    } else if s[0] == sep {
        seq![Seq::<u8>::empty()] + split_bytes(s.skip(1), sep)
    } else {
        let rest = split_bytes(s.skip(1), sep);
        seq![seq![s[0]] + rest[0]] + rest.skip(1)
    }
}

pub proof fn lemma_split_len(s: Seq<u8>, sep: u8)
    ensures
        split_bytes(s, sep).len() >= 1,
    decreases s.len(),
{
    if s.len() == 0 {
    } else if s[0] == sep {
        lemma_split_len(s.skip(1), sep);
    } else {
        lemma_split_len(s.skip(1), sep);
    }
}

/// How one more byte extends a split: a separator opens a new empty part,
/// any other byte extends the last part.
pub proof fn lemma_split_push(t: Seq<u8>, sep: u8, c: u8)
    ensures
        c == sep ==> split_bytes(t.push(c), sep) == split_bytes(t, sep).push(Seq::<u8>::empty()),
        c != sep ==> split_bytes(t.push(c), sep) == split_bytes(t, sep).update(
            split_bytes(t, sep).len() - 1,
            split_bytes(t, sep).last().push(c),
        ),
    decreases t.len(),
{
    lemma_split_len(t, sep);
    if t.len() == 0 {
        let s = t.push(c);
        assert(s.len() == 1 && s[0] == c);
        if c == sep {
            assert(s.skip(1) =~= Seq::<u8>::empty());
            assert(split_bytes(s.skip(1), sep) =~= seq![Seq::<u8>::empty()]);
            assert(split_bytes(s, sep) =~= split_bytes(t, sep).push(Seq::<u8>::empty()));
        } else {
            assert(s.skip(1) =~= Seq::<u8>::empty());
            let rest = split_bytes(s.skip(1), sep);
            assert(rest =~= seq![Seq::<u8>::empty()]);
            assert(split_bytes(s, sep) =~= seq![seq![c]]);
            assert(split_bytes(t, sep).update(0, split_bytes(t, sep).last().push(c)) =~= seq![
                seq![c],
            ]);
        }
    } else {
        let s = t.push(c);
        assert(s[0] == t[0]);
        assert(s.skip(1) =~= t.skip(1).push(c));
        lemma_split_push(t.skip(1), sep, c);
        lemma_split_len(t.skip(1), sep);
        let rt = split_bytes(t.skip(1), sep);
        let rs = split_bytes(s.skip(1), sep);
        if t[0] == sep {
            if c == sep {
                assert(split_bytes(s, sep) =~= split_bytes(t, sep).push(Seq::<u8>::empty()));
            } else {
                assert(rs == rt.update(rt.len() - 1, rt.last().push(c)));
                assert(split_bytes(s, sep) =~= split_bytes(t, sep).update(
                    split_bytes(t, sep).len() - 1,
                    split_bytes(t, sep).last().push(c),
                ));
            }
        } else {
            if c == sep {
                assert(rs == rt.push(Seq::<u8>::empty()));
                assert(rs[0] == rt[0]);
                assert(rs.skip(1) =~= rt.skip(1).push(Seq::<u8>::empty()));
                assert(split_bytes(s, sep) =~= split_bytes(t, sep).push(Seq::<u8>::empty()));
            } else {
                if rt.len() == 1 {
                    assert(rs[0] == rt[0].push(c));
                    assert(rs.skip(1) =~= rt.skip(1));
                    assert(split_bytes(s, sep) =~= split_bytes(t, sep).update(
                        split_bytes(t, sep).len() - 1,
                        split_bytes(t, sep).last().push(c),
                    ));
                } else {
                    assert(rs[0] == rt[0]);
                    assert(rs.skip(1) =~= rt.skip(1).update(rt.len() - 2, rt.last().push(c)));
                    assert(split_bytes(s, sep) =~= split_bytes(t, sep).update(
                        split_bytes(t, sep).len() - 1,
                        split_bytes(t, sep).last().push(c),
                    ));
                }
            }
        }
    }
}

/// Splits `s` at every occurrence of `sep`.
pub fn split_on(s: &Vec<u8>, sep: u8) -> (r: Vec<Vec<u8>>)
    ensures
        r.deep_view() == split_bytes(s@, sep),
        r@.len() >= 1,
{
    let mut parts: Vec<Vec<u8>> = Vec::new();
    let mut cur: Vec<u8> = Vec::new();
    let mut i: usize = 0;
    proof {
        assert(s@.take(0) =~= Seq::<u8>::empty());
        assert(parts.deep_view().push(cur@) =~= split_bytes(s@.take(0), sep));
    }
    while i < s.len()
        invariant
            i <= s@.len(),
            parts.deep_view().push(cur@) == split_bytes(s@.take(i as int), sep),
        decreases s@.len() - i,
    {
        let ghost pre = s@.take(i as int);
        proof {
            lemma_split_push(pre, sep, s@[i as int]);
            assert(s@.take(i + 1) =~= pre.push(s@[i as int]));
            lemma_split_len(pre, sep);
        }
        if s[i] == sep {
            let ghost old_parts = parts.deep_view();
            parts.push(cur);
            cur = Vec::new();
            proof {
                assert(parts.deep_view() =~~= old_parts.push(split_bytes(pre, sep).last()));
                assert(parts.deep_view().push(cur@) =~= split_bytes(pre, sep).push(
                    Seq::<u8>::empty(),
                ));
            }
        } else {
            let ghost old_cur = cur@;
            cur.push(s[i]);
            proof {
                let sp = split_bytes(pre, sep);
                assert(sp.last() == old_cur);
                assert(parts.deep_view().push(cur@) =~= sp.update(sp.len() - 1, sp.last().push(
                    s@[i as int],
                )));
            }
        }
        i += 1;
    }
    proof {
        assert(s@.take(s@.len() as int) =~= s@);
    }
    let ghost old_parts = parts.deep_view();
    parts.push(cur);
    proof {
        assert(parts.deep_view() =~~= old_parts.push(cur@));
        lemma_split_len(s@, sep);
    }
    parts
}

/// The decimal digit characters of `n`, most significant first.
pub open spec fn dec_str(n: nat) -> Seq<u8>
    decreases n,
{
    if n < 10 {
        seq![(('0' as u8) + n) as u8]
    } else {
        dec_str(n / 10).push((('0' as u8) + n % 10) as u8)
    }
}

/// The digits of `n`, least significant first: `dec_str` reversed.
spec fn dec_rev(n: nat) -> Seq<u8>
    decreases n,
{
    if n < 10 {
        seq![(('0' as u8) + n) as u8]
    } else {
        seq![(('0' as u8) + n % 10) as u8] + dec_rev(n / 10)
    }
}

proof fn lemma_dec_rev(n: nat)
    ensures
        dec_rev(n).len() == dec_str(n).len(),
        forall|i: int|
            0 <= i < dec_rev(n).len() ==> dec_rev(n)[i] == dec_str(n)[dec_str(n).len() - 1 - i],
    decreases n,
{
    if n >= 10 {
        lemma_dec_rev(n / 10);
        assert forall|i: int| 0 <= i < dec_rev(n).len() implies dec_rev(n)[i] == dec_str(n)[dec_str(
            n,
        ).len() - 1 - i] by {
            if i == 0 {
            } else {
                assert(dec_rev(n)[i] == dec_rev(n / 10)[i - 1]);
            }
        }
    }
}

/// Formats `n` in decimal.
pub fn dec_bytes(n: u64) -> (r: Vec<u8>)
    ensures
        r@ == dec_str(n as nat),
{
    if n == 0 {
        let mut r: Vec<u8> = Vec::new();
        r.push(('0' as u8));
        proof {
            assert(r@ =~= dec_str(0));
        }
        return r;
    }
    let mut tmp: Vec<u8> = Vec::new();
    let mut m: u64 = n;
    while m != 0
        invariant
            m != 0 ==> tmp@ + dec_rev(m as nat) == dec_rev(n as nat),
            m == 0 ==> tmp@ == dec_rev(n as nat),
        decreases m,
    {
        let ghost old_tmp = tmp@;
        let ghost old_m = m as nat;
        let d = (m % 10) as u8;
        tmp.push(('0' as u8) + d);
        m = m / 10;
        proof {
            if old_m < 10 {
                assert(dec_rev(old_m) =~= seq![(('0' as u8) + old_m % 10) as u8]);
                assert(tmp@ =~= old_tmp + dec_rev(old_m));
            } else {
                assert(dec_rev(old_m) == seq![(('0' as u8) + old_m % 10) as u8] + dec_rev(old_m / 10));
                assert(tmp@ + dec_rev(m as nat) =~= old_tmp + dec_rev(old_m));
            }
        }
    }
    let mut r: Vec<u8> = Vec::new();
    let mut i: usize = tmp.len();
    proof {
        lemma_dec_rev(n as nat);
    }
    while i > 0
        invariant
            i <= tmp@.len(),
            tmp@.len() == dec_rev(n as nat).len(),
            forall|j: int| 0 <= j < tmp@.len() ==> tmp@[j] == dec_rev(n as nat)[j],
            r@.len() == tmp@.len() - i,
            forall|j: int| 0 <= j < r@.len() ==> r@[j] == dec_str(n as nat)[j],
        decreases i,
    {
        i -= 1;
        r.push(tmp[i]);
        proof {
            lemma_dec_rev(n as nat);
        }
    }
    proof {
        assert(r@ =~= dec_str(n as nat));
    }
    r
}

/// Whether every byte of `s` is a decimal digit.
pub open spec fn all_digits(s: Seq<u8>) -> bool {
    forall|i: int| 0 <= i < s.len() ==> ('0' as u8) <= #[trigger] s[i] && s[i] <= ('9' as u8)
}

/// The value of a digit string, most significant digit first.
pub open spec fn dec_val(s: Seq<u8>) -> nat
    decreases s.len(),
{
    if s.len() == 0 {
        0
    } else {
        (dec_val(s.take(s.len() - 1)) * 10 + (s.last() - ('0' as u8))) as nat
    }
}

/// A string parses as an unsigned 64-bit decimal number when it is nonempty,
/// all digits, and its value fits.
pub open spec fn parses_u64(s: Seq<u8>) -> bool {
    s.len() > 0 && all_digits(s) && dec_val(s) <= u64::MAX
}

proof fn lemma_dec_val_prefix_le(s: Seq<u8>, i: int)
    requires
        0 <= i <= s.len(),
        all_digits(s),
    ensures
        dec_val(s.take(i)) <= dec_val(s),
    decreases s.len() - i,
{
    if i == s.len() {
        assert(s.take(i) =~= s);
    } else {
        lemma_dec_val_prefix_le(s, i + 1);
        let t = s.take(i + 1);
        assert(t.take(t.len() - 1) =~= s.take(i));
        assert(dec_val(s.take(i + 1)) == dec_val(s.take(i)) * 10 + (s[i] - ('0' as u8)));
        assert(dec_val(s.take(i)) <= dec_val(s.take(i)) * 10) by (nonlinear_arith)
            requires
                dec_val(s.take(i)) >= 0,
        ;
    }
}

/// Parses a nonempty all-digit string as a `u64`; anything else, and any
/// value above `u64::MAX`, is rejected.
pub fn parse_u64(s: &Vec<u8>) -> (r: Option<u64>)
    ensures
        parses_u64(s@) ==> r == Some((dec_val(s@) as u64)),
        !parses_u64(s@) ==> r is None,
{
    if s.len() == 0 {
        return None;
    }
    let mut acc: u64 = 0;
    let mut i: usize = 0;
    while i < s.len()
        invariant
            i <= s@.len(),
            s@.len() > 0,
            all_digits(s@.take(i as int)),
            acc == dec_val(s@.take(i as int)),
        decreases s@.len() - i,
    {
        let c = s[i];
        if c < ('0' as u8) || c > ('9' as u8) {
            proof {
                assert(!all_digits(s@));
            }
            return None;
        }
        let d = (c - ('0' as u8)) as u64;
        proof {
            assert(s@.take(i + 1).take(i as int) =~= s@.take(i as int));
            assert(s@.take(i + 1).last() == c);
        }
        if acc > (u64::MAX - d) / 10 {
            proof {
                assert(acc * 10 + d > u64::MAX) by (nonlinear_arith)
                    requires
                        acc > (u64::MAX - d) / 10,
                        d <= 9,
                        acc <= u64::MAX,
                ;
                assert(dec_val(s@.take(i + 1)) > u64::MAX);
                if all_digits(s@) && dec_val(s@) <= u64::MAX {
                    lemma_dec_val_prefix_le(s@, i + 1);
                }
            }
            return None;
        }
        proof {
            assert(acc * 10 + d <= u64::MAX) by (nonlinear_arith)
                requires
                    acc <= (u64::MAX - d) / 10,
                    d <= 9,
            ;
        }
        acc = acc * 10 + d;
        i += 1;
    }
    proof {
        assert(s@.take(s@.len() as int) =~= s@);
    }
    Some(acc)
}

} // verus!
