//! Byte-string utilities the whole core is specified over: ASCII
//! case folding, substring search, splitting, and decimal and
//! hexadecimal representations.

use vstd::prelude::*;
use vstd::arithmetic::div_mod::lemma_fundamental_div_mod;
use vstd::arithmetic::div_mod::lemma_mod_division_less_than_divisor;
use vstd::arithmetic::mul::lemma_mul_inequality;

verus! {

/// ASCII lower-casing of one byte.
pub open spec fn lower(b: u8) -> u8 {
    if 65 <= b && b <= 90 {
        (b + 32) as u8
    } else {
        b
    }
}

/// ASCII lower-casing of a byte string.
pub open spec fn lower_seq(s: Seq<u8>) -> Seq<u8> {
    s.map_values(|b: u8| lower(b))
}

/// Lower-cases every ASCII letter of `s`.
pub fn to_lower(s: &Vec<u8>) -> (r: Vec<u8>)
    ensures
        r@ == lower_seq(s@),
{
    let mut out: Vec<u8> = Vec::new();
    let mut i: usize = 0;
    while i < s.len()
        invariant
            i <= s.len(),
            out@ == lower_seq(s@.take(i as int)),
        decreases s.len() - i,
    {
        let b = s[i];
        if 65 <= b && b <= 90 {
            out.push(b + 32);
        } else {
            out.push(b);
        }
        proof {
            assert(out@ =~= lower_seq(s@.take(i + 1 as int)));
        }
        i = i + 1;
    }
    proof {
        assert(s@.take(s@.len() as int) =~= s@);
    }
    out
}

/// `needle` occurs in `hay` starting at offset `i`.
pub open spec fn match_at(hay: Seq<u8>, needle: Seq<u8>, i: int) -> bool {
    0 <= i && i + needle.len() <= hay.len() && hay.subrange(i, i + needle.len()) == needle
}

/// `needle` is a contiguous substring of `hay`.
pub open spec fn contains_seq(hay: Seq<u8>, needle: Seq<u8>) -> bool {
    exists|i: int| match_at(hay, needle, i)
}

/// `p` is a prefix of `s`.
pub open spec fn is_prefix(s: Seq<u8>, p: Seq<u8>) -> bool {
    p.len() <= s.len() && s.take(p.len() as int) == p
}

/// Compares `needle` against `hay` at offset `i`.
fn eq_at(hay: &Vec<u8>, needle: &Vec<u8>, i: usize) -> (r: bool)
    requires
        i + needle@.len() <= hay@.len(),
    ensures
        r == match_at(hay@, needle@, i as int),
{
    let hn = hay.len();
    let mut k: usize = 0;
    while k < needle.len()
        invariant
            hn == hay@.len(),
            i + needle@.len() <= hn,
            k <= needle@.len(),
            hay@.subrange(i as int, i + k) =~= needle@.take(k as int),
        decreases needle@.len() - k,
    {
        if hay[i + k] != needle[k] {
            proof {
                assert(hay@.subrange(i as int, i + needle@.len())[k as int] != needle@[k as int]);
            }
            return false;
        }
        proof {
            assert(hay@.subrange(i as int, i + k + 1) =~= needle@.take(k + 1 as int));
        }
        k = k + 1;
    }
    proof {
        assert(hay@.subrange(i as int, i + needle@.len()) =~= needle@);
    }
    true
}

/// Whether `needle` is a contiguous substring of `hay`.
pub fn contains_bytes(hay: &Vec<u8>, needle: &Vec<u8>) -> (r: bool)
    ensures
        r == contains_seq(hay@, needle@),
{
    if needle.len() > hay.len() {
        return false;
    }
    if needle.len() == 0 {
        proof {
            assert(hay@.subrange(0, 0) =~= needle@);
            assert(match_at(hay@, needle@, 0));
        }
        return true;
    }
    let hn = hay.len();
    let nn = needle.len();
    let mut i: usize = 0;
    while i <= hn - nn
        invariant
            hn == hay@.len(),
            nn == needle@.len(),
            1 <= nn <= hn,
            i <= hn,
            forall|j: int| 0 <= j < i ==> !match_at(hay@, needle@, j),
        decreases hn - i,
    {
        if eq_at(hay, needle, i) {
            return true;
        }
        i = i + 1;
    }
    proof {
        assert(forall|j: int| j > hn - nn ==> !match_at(hay@, needle@, j));
    }
    false
}

/// Whether `p` is a prefix of `s`.
pub fn starts_with(s: &Vec<u8>, p: &Vec<u8>) -> (r: bool)
    ensures
        r == is_prefix(s@, p@),
{
    if p.len() > s.len() {
        return false;
    }
    let r = eq_at(s, p, 0);
    proof {
        assert(s@.subrange(0, p@.len() as int) =~= s@.take(p@.len() as int));
    }
    r
}

/// Whether two byte strings are equal.
pub fn eq_bytes(a: &Vec<u8>, b: &Vec<u8>) -> (r: bool)
    ensures
        r == (a@ == b@),
{
    if a.len() != b.len() {
        return false;
    }
    let mut i: usize = 0;
    while i < a.len()
        invariant
            a@.len() == b@.len(),
            i <= a@.len(),
            a@.take(i as int) =~= b@.take(i as int),
        decreases a@.len() - i,
    {
        if a[i] != b[i] {
            return false;
        }
        proof {
            assert(a@.take(i + 1 as int) =~= b@.take(i + 1 as int));
        }
        i = i + 1;
    }
    proof {
        assert(a@.take(a@.len() as int) =~= a@);
        assert(b@.take(b@.len() as int) =~= b@);
        assert(a@ =~= b@);
    }
    true
}

/// Whether two byte strings of equal length are equal, examining
/// every byte pair whatever the outcome: unlike an early-exit
/// comparison, how long the scan runs does not depend on where the
/// first difference lies, so the comparison's duration reveals only
/// the operands' lengths.
pub fn ct_eq_bytes(a: &Vec<u8>, b: &Vec<u8>) -> (r: bool)
    ensures
        r == (a@ == b@),
{
    if a.len() != b.len() {
        return false;
    }
    let n = a.len();
    let mut acc: u8 = 0;
    let mut i: usize = 0;
    while i < n
        invariant
            n == a@.len(),
            n == b@.len(),
            i <= n,
            (acc == 0) <==> (forall|j: int| 0 <= j < i ==> a@[j] == b@[j]),
        decreases n - i,
    {
        let x = a[i];
        let y = b[i];
        let ghost acc0 = acc;
        proof {
            assert(((x ^ y) == 0) == (x == y)) by (bit_vector);
            assert(((acc0 | (x ^ y)) == 0) == (acc0 == 0 && (x ^ y) == 0)) by (bit_vector);
        }
        acc = acc | (x ^ y);
        i = i + 1;
    }
    if acc == 0 {
        proof {
            assert(a@ =~= b@);
        }
        true
    } else {
        proof {
            if a@ == b@ {
                assert(forall|j: int| 0 <= j < n ==> a@[j] == b@[j]);
            }
        }
        false
    }
}

/// Offset of the first occurrence of `c` in `s`, or -1 when absent.
pub open spec fn find_byte(s: Seq<u8>, c: u8) -> int
    decreases s.len(),
{
    if s.len() == 0 {
        -1
    } else if s[0] == c {
        0
    } else if find_byte(s.drop_first(), c) < 0 {
        -1
    } else {
        1 + find_byte(s.drop_first(), c)
    }
}

/// What `find_byte` returns: the first occurrence, or -1 when there is none.
pub proof fn lemma_find_byte(s: Seq<u8>, c: u8)
    ensures
        find_byte(s, c) >= 0 ==> find_byte(s, c) < s.len() && s[find_byte(s, c)] == c && forall|j: int|
            0 <= j < find_byte(s, c) ==> s[j] != c,
        find_byte(s, c) < 0 ==> forall|j: int| 0 <= j < s.len() ==> s[j] != c,
    decreases s.len(),
{
    if s.len() == 0 {
    } else if s[0] == c {
    } else {
        lemma_find_byte(s.drop_first(), c);
        assert forall|j: int| 1 <= j < s.len() implies s[j] == s.drop_first()[j - 1] by {}
    }
}

/// The tokens of `s` between occurrences of the separator `c`, in order;
/// always at least one token, possibly empty ones.
pub open spec fn split_seq(s: Seq<u8>, c: u8) -> Seq<Seq<u8>>
    decreases s.len(),
{
    let i = find_byte(s, c);
    if i < 0 {
        seq![s]
    } else if i + 1 <= s.len() {
        seq![s.take(i)] + split_seq(s.skip(i + 1), c)
    } else {
        seq![s]
    }
}

/// A split has at least one token.
pub proof fn lemma_split_len(s: Seq<u8>, c: u8)
    ensures
        split_seq(s, c).len() >= 1,
    decreases s.len(),
{
    let i = find_byte(s, c);
    if 0 <= i && i + 1 <= s.len() {
        lemma_split_len(s.skip(i + 1), c);
    }
}

/// Splitting a string that opens with a separator-free prefix `t`:
/// `t` extends the first token of the remainder's split.
proof fn lemma_split_prepend(t: Seq<u8>, s: Seq<u8>, c: u8)
    requires
        forall|j: int| 0 <= j < t.len() ==> t[j] != c,
    ensures
        split_seq(t + s, c) == seq![t + split_seq(s, c)[0]] + split_seq(s, c).drop_first(),
    decreases t.len(),
{
    lemma_split_len(s, c);
    if t.len() == 0 {
        assert(t + s =~= s);
        let ss = split_seq(s, c);
        assert(t + ss[0] =~= ss[0]);
        assert(seq![ss[0]] + ss.drop_first() =~= ss);
    } else {
        let u = t + s;
        let v = t.drop_first() + s;
        assert(u[0] == t[0]);
        assert(u[0] != c);
        assert(u.drop_first() =~= v);
        lemma_split_prepend(t.drop_first(), s, c);
        let i = find_byte(v, c);
        lemma_find_byte(v, c);
        lemma_find_byte(u, c);
        if i < 0 {
            assert(find_byte(u, c) < 0) by {
                if find_byte(u, c) >= 0 {
                    let k = find_byte(u, c);
                    assert(u[k] == c);
                    assert(k >= 1);
                    assert(v[k - 1] == c);
                }
            }
            assert(split_seq(u, c) == seq![u]);
            assert forall|j: int| 0 <= j < s.len() implies s[j] != c by {
                assert(s[j] == v[t.drop_first().len() + j]);
            }
            lemma_find_byte(s, c);
            assert(find_byte(s, c) < 0);
            assert(split_seq(s, c) == seq![s]);
            assert(t + split_seq(s, c)[0] =~= u);
            assert(seq![t + split_seq(s, c)[0]] + split_seq(s, c).drop_first() =~= seq![u]);
        } else {
            assert(find_byte(u, c) == 1 + i) by {
                assert(u[1 + i] == v[i]);
                assert(v[i] == c);
                assert forall|j: int| 0 <= j < 1 + i implies u[j] != c by {
                    if j >= 1 {
                        assert(u[j] == v[j - 1]);
                    }
                }
                if find_byte(u, c) < 0 {
                    assert(u[1 + i] != c);
                } else if find_byte(u, c) < 1 + i {
                    assert(u[find_byte(u, c)] == c);
                } else if find_byte(u, c) > 1 + i {
                    assert(u[1 + i] != c);
                }
            }
            lemma_split_len(s, c);
            assert(split_seq(v, c) == seq![v.take(i)] + split_seq(v.skip(i + 1), c));
            assert(split_seq(v, c) == seq![t.drop_first() + split_seq(s, c)[0]] + split_seq(
                s,
                c,
            ).drop_first());
            assert(split_seq(v, c)[0] == v.take(i));
            assert(split_seq(v, c)[0] == t.drop_first() + split_seq(s, c)[0]);
            assert(split_seq(v, c).drop_first() =~= split_seq(v.skip(i + 1), c));
            assert(split_seq(v, c).drop_first() =~= split_seq(s, c).drop_first());
            assert(split_seq(u, c) == seq![u.take(1 + i)] + split_seq(u.skip(1 + i + 1), c));
            assert(u.take(1 + i) =~= seq![t[0]] + v.take(i));
            assert(seq![t[0]] + (t.drop_first() + split_seq(s, c)[0]) =~= t + split_seq(s, c)[0]);
            assert(u.take(1 + i) == t + split_seq(s, c)[0]);
            assert(u.skip(1 + i + 1) =~= v.skip(i + 1));
            assert(split_seq(u.skip(1 + i + 1), c) == split_seq(s, c).drop_first());
        }
    }
}

/// Splits `s` at every occurrence of `c`.
pub fn split_bytes(s: &Vec<u8>, c: u8) -> (r: Vec<Vec<u8>>)
    ensures
        r@.map_values(|t: Vec<u8>| t@) == split_seq(s@, c),
{
    let mut out: Vec<Vec<u8>> = Vec::new();
    let mut cur: Vec<u8> = Vec::new();
    let mut i: usize = 0;
    proof {
        assert(s@.skip(0) =~= s@);
    }
    while i < s.len()
        invariant
            i <= s@.len(),
            split_seq(s@, c) =~= out@.map_values(|t: Vec<u8>| t@) + seq![cur@ + split_seq(
                s@.skip(i as int),
                c,
            )[0]] + split_seq(s@.skip(i as int), c).drop_first(),
            forall|j: int| 0 <= j < cur@.len() ==> cur@[j] != c,
        decreases s@.len() - i,
    {
        let ghost rest = s@.skip(i as int);
        let ghost rest1 = s@.skip(i + 1 as int);
        proof {
            lemma_split_len(rest1, c);
            assert(rest.drop_first() =~= rest1);
        }
        let b = s[i];
        if b == c {
            proof {
                assert(rest[0] == c);
                assert(find_byte(rest, c) == 0);
                assert(split_seq(rest, c) == seq![rest.take(0)] + split_seq(rest1, c));
                assert(cur@ + rest.take(0) =~= cur@);
            }
            out.push(cur);
            cur = Vec::new();
            proof {
                assert(split_seq(rest1, c) =~= seq![split_seq(rest1, c)[0]] + split_seq(
                    rest1,
                    c,
                ).drop_first());
                assert(Seq::<u8>::empty() + split_seq(rest1, c)[0] =~= split_seq(rest1, c)[0]);
                assert(split_seq(s@, c) =~= out@.map_values(|t: Vec<u8>| t@) + seq![Seq::<
                    u8,
                >::empty() + split_seq(rest1, c)[0]] + split_seq(rest1, c).drop_first());
            }
        } else {
            let ghost curg = cur@;
            cur.push(b);
            proof {
                assert(seq![b] + rest1 =~= rest);
                lemma_split_prepend(seq![b], rest1, c);
                assert(split_seq(rest, c) == seq![seq![b] + split_seq(rest1, c)[0]] + split_seq(
                    rest1,
                    c,
                ).drop_first());
                assert(split_seq(rest, c)[0] == seq![b] + split_seq(rest1, c)[0]);
                assert(curg + (seq![b] + split_seq(rest1, c)[0]) =~= (curg.push(b)) + split_seq(
                    rest1,
                    c,
                )[0]);
                assert(split_seq(rest, c).drop_first() =~= split_seq(rest1, c).drop_first());
            }
        }
        i = i + 1;
    }
    let ghost curg = cur@;
    out.push(cur);
    proof {
        let rest = s@.skip(s@.len() as int);
        assert(rest =~= Seq::<u8>::empty());
        assert(find_byte(rest, c) < 0);
        assert(split_seq(rest, c) == seq![rest]);
        assert(curg + rest =~= curg);
        assert(split_seq(rest, c).drop_first() =~= Seq::<Seq<u8>>::empty());
        assert(out@.map_values(|t: Vec<u8>| t@) =~= out@.drop_last().map_values(|t: Vec<u8>| t@)
            + seq![curg]);
        assert(out@.map_values(|t: Vec<u8>| t@) =~= split_seq(s@, c));
    }
    out
}

/// Appends a copy of `src` to `dst`.
pub fn push_all(dst: &mut Vec<u8>, src: &Vec<u8>)
    ensures
        final(dst)@ == old(dst)@ + src@,
{
    let mut i: usize = 0;
    while i < src.len()
        invariant
            i <= src@.len(),
            dst@ == old(dst)@ + src@.take(i as int),
        decreases src@.len() - i,
    {
        dst.push(src[i]);
        proof {
            assert(old(dst)@ + src@.take(i + 1 as int) =~= (old(dst)@ + src@.take(i as int)).push(
                src@[i as int],
            ));
        }
        i = i + 1;
    }
    proof {
        assert(src@.take(src@.len() as int) =~= src@);
    }
}

/// A fresh copy of `v`.
pub fn clone_bytes(v: &Vec<u8>) -> (r: Vec<u8>)
    ensures
        r@ == v@,
{
    let mut out: Vec<u8> = Vec::new();
    push_all(&mut out, v);
    proof {
        assert(Seq::<u8>::empty() + v@ =~= v@);
    }
    out
}

/// `b` is an ASCII decimal digit.
pub open spec fn is_digit(b: u8) -> bool {
    48 <= b && b <= 57
}

/// Every byte of `s` is an ASCII decimal digit.
pub open spec fn all_digits(s: Seq<u8>) -> bool {
    forall|i: int| 0 <= i < s.len() ==> is_digit(#[trigger] s[i])
}

/// The number denoted by the digit string `s`, most significant first.
pub open spec fn dec_val(s: Seq<u8>) -> nat
    decreases s.len(),
{
    if s.len() == 0 {
        0
    } else {
        dec_val(s.drop_last()) * 10 + (if s.last() >= 48 {
            (s.last() - 48) as nat
        } else {
            0
        })
    }
}

/// The shortest decimal representation of `n`.
pub open spec fn dec_rep(n: nat) -> Seq<u8>
    decreases n,
{
    if n < 10 {
        seq![(48 + n) as u8]
    } else {
        dec_rep(n / 10) + seq![(48 + n % 10) as u8]
    }
}

/// A decimal representation consists of digits only.
pub proof fn lemma_dec_rep_digits(n: nat)
    ensures
        all_digits(dec_rep(n)),
        dec_rep(n).len() >= 1,
    decreases n,
{
    if n >= 10 {
        lemma_dec_rep_digits(n / 10);
    }
}

/// Reading back the decimal representation of `n` yields `n`.
pub proof fn lemma_dec_val_of_rep(n: nat)
    ensures
        dec_val(dec_rep(n)) == n,
    decreases n,
{
    if n < 10 {
        let s = dec_rep(n);
        assert(s =~= seq![(48 + n) as u8]);
        assert(s.drop_last() =~= Seq::<u8>::empty());
        assert(dec_val(Seq::<u8>::empty()) == 0);
        assert(48 + n < 256);
        assert(s.last() == 48 + n);
        assert((s.last() - 48) as nat == n);
        assert(dec_val(s) == dec_val(s.drop_last()) * 10 + (s.last() - 48) as nat);
        assert(dec_val(s) == n);
    } else {
        lemma_dec_val_of_rep(n / 10);
        lemma_dec_rep_digits(n / 10);
        let s = dec_rep(n);
        assert(s.drop_last() =~= dec_rep(n / 10));
        lemma_mod_division_less_than_divisor(n as int, 10);
        assert(n % 10 < 10);
        assert(s.last() == (48 + n % 10) as u8);
        assert((s.last() - 48) as nat == n % 10);
        assert(dec_val(s) == (n / 10) * 10 + n % 10);
        lemma_fundamental_div_mod(n as int, 10);
        assert(n == 10 * (n as int / 10) + n % 10);
        assert((n / 10) * 10 == 10 * (n as int / 10)) by (nonlinear_arith);
        assert(dec_val(s) == n);
    }
}

/// Appends the decimal representation of `n` to `out`.
pub fn push_dec(n: u64, out: &mut Vec<u8>)
    ensures
        final(out)@ == old(out)@ + dec_rep(n as nat),
    decreases n,
{
    if n < 10 {
        out.push(48 + n as u8);
        proof {
            assert(old(out)@.push((48 + n) as u8) =~= old(out)@ + dec_rep(n as nat));
        }
    } else {
        push_dec(n / 10, out);
        out.push(48 + (n % 10) as u8);
        proof {
            assert((old(out)@ + dec_rep((n / 10) as nat)).push((48 + n % 10) as u8) =~= old(out)@
                + dec_rep(n as nat));
        }
    }
}

/// The decimal representation of `n` as a fresh byte string.
pub fn u64_to_dec(n: u64) -> (r: Vec<u8>)
    ensures
        r@ == dec_rep(n as nat),
{
    let mut out: Vec<u8> = Vec::new();
    push_dec(n, &mut out);
    proof {
        assert(Seq::<u8>::empty() + dec_rep(n as nat) =~= dec_rep(n as nat));
    }
    out
}

/// A longer digit string never denotes a smaller number.
proof fn lemma_dec_val_mono(s: Seq<u8>, i: int)
    requires
        0 <= i <= s.len(),
    ensures
        dec_val(s) >= dec_val(s.take(i)),
    decreases s.len() - i,
{
    if i < s.len() {
        lemma_dec_val_mono(s, i + 1);
        let t = s.take(i + 1);
        assert(t.drop_last() =~= s.take(i));
        assert(dec_val(t) == dec_val(s.take(i)) * 10 + (if t.last() >= 48 {
            (t.last() - 48) as nat
        } else {
            0
        }));
        assert(dec_val(s.take(i)) * 10 >= dec_val(s.take(i))) by (nonlinear_arith);
    } else {
        assert(s.take(i) =~= s);
    }
}

/// Parses a non-empty all-digit byte string as a `u64`; `None` when the
/// string is empty, holds a non-digit, or denotes a value above `u64::MAX`.
pub fn parse_u64(s: &Vec<u8>) -> (r: Option<u64>)
    ensures
        match r {
            Some(v) => s@.len() > 0 && all_digits(s@) && v == dec_val(s@),
            None => s@.len() == 0 || !all_digits(s@) || dec_val(s@) > u64::MAX,
        },
{
    if s.len() == 0 {
        return None;
    }
    let mut acc: u64 = 0;
    let mut i: usize = 0;
    while i < s.len()
        invariant
            i <= s@.len(),
            all_digits(s@.take(i as int)),
            acc == dec_val(s@.take(i as int)),
        decreases s@.len() - i,
    {
        let b = s[i];
        if b < 48 || b > 57 {
            return None;
        }
        let d: u64 = (b - 48) as u64;
        let ghost q = ((u64::MAX - d) / 10) as int;
        proof {
            lemma_fundamental_div_mod(u64::MAX - d, 10);
            lemma_mod_division_less_than_divisor(u64::MAX - d, 10);
            assert(u64::MAX - d == 10 * q + (u64::MAX - d) % 10);
        }
        if acc > (u64::MAX - d) / 10 {
            proof {
                let t = s@.take(i + 1 as int);
                assert(t.drop_last() =~= s@.take(i as int));
                assert(dec_val(t) == acc * 10 + d);
                lemma_mul_inequality(q + 1, acc as int, 10);
                assert((q + 1) * 10 == 10 * q + 10);
                assert(acc * 10 + d > u64::MAX);
                lemma_dec_val_mono(s@, i + 1);
                assert(dec_val(s@) > u64::MAX);
            }
            return None;
        }
        proof {
            let t = s@.take(i + 1 as int);
            assert(t.drop_last() =~= s@.take(i as int));
            lemma_mul_inequality(acc as int, q, 10);
            assert(q * 10 == 10 * q);
            assert(acc * 10 + d <= u64::MAX);
        }
        acc = acc * 10 + d;
        i = i + 1;
    }
    proof {
        assert(s@.take(s@.len() as int) =~= s@);
    }
    Some(acc)
}

/// Lower-case hexadecimal digit for a value below 16.
pub open spec fn hex_digit(n: u8) -> u8 {
    if n < 10 {
        (48 + n) as u8
    } else {
        (87 + n) as u8
    }
}

/// Lower-case hexadecimal representation, two digits per byte.
pub open spec fn hex_rep(s: Seq<u8>) -> Seq<u8>
    decreases s.len(),
{
    if s.len() == 0 {
        Seq::empty()
    } else {
        hex_rep(s.drop_last()) + seq![hex_digit(s.last() / 16), hex_digit(s.last() % 16)]
    }
}

/// Hex-encodes `s`, two lower-case digits per byte.
pub fn hex_encode(s: &Vec<u8>) -> (r: Vec<u8>)
    ensures
        r@ == hex_rep(s@),
        r@.len() == 2 * s@.len(),
{
    let mut out: Vec<u8> = Vec::new();
    let mut i: usize = 0;
    while i < s.len()
        invariant
            i <= s@.len(),
            out@ == hex_rep(s@.take(i as int)),
            out@.len() == 2 * i,
        decreases s@.len() - i,
    {
        let b = s[i];
        let hi = b / 16;
        let lo = b % 16;
        if hi < 10 {
            out.push(48 + hi);
        } else {
            out.push(87 + hi);
        }
        if lo < 10 {
            out.push(48 + lo);
        } else {
            out.push(87 + lo);
        }
        proof {
            let t = s@.take(i + 1 as int);
            assert(t.drop_last() =~= s@.take(i as int));
            assert(t.last() == s@[i as int]);
            assert(out@ =~= hex_rep(t));
        }
        i = i + 1;
    }
    proof {
        assert(s@.take(s@.len() as int) =~= s@);
    }
    out
}

} // verus!
