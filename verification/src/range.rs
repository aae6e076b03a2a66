//! Byte-range negotiation: parses a single-range request header
//! against a file's current size and produces a delivery plan.
//!
//! The grammar accepted is `bytes=<start>-<end>` with either bound
//! optionally omitted (`<start>-` meaning "to the end", `-<n>` meaning
//! "the last n bytes"). Multi-range requests (comma-separated) are
//! unsupported and rejected as a whole, as are digit strings above
//! `u64::MAX`.

use vstd::prelude::*;
use crate::bytes::all_digits;
use crate::bytes::dec_rep;
use crate::bytes::dec_val;
use crate::bytes::is_digit;
use crate::bytes::lemma_dec_rep_digits;
use crate::bytes::lemma_dec_val_of_rep;
use crate::bytes::find_byte;
use crate::bytes::is_prefix;
use crate::bytes::lemma_find_byte;
use crate::bytes::parse_u64;
use crate::bytes::starts_with;
use crate::error::Error;

verus! {

/// A validated contiguous byte range of a file of size `total`.
#[derive(Clone, Copy, Debug, PartialEq, Eq, Structural)]
pub struct ByteRange {
    /// First byte served, inclusive.
    pub start: u64,
    /// Last byte served, inclusive.
    pub end: u64,
    /// Size of the whole file the range was validated against.
    pub total: u64,
}

impl ByteRange {
    /// The range is satisfiable: it selects at least one byte that the
    /// file actually has.
    pub open spec fn wf(self) -> bool {
        self.start <= self.end < self.total
    }
}

/// How a file's content is to be served.
#[derive(Clone, Copy, Debug, PartialEq, Eq, Structural)]
pub enum DeliveryPlan {
    /// The entire file.
    Full,
    /// Exactly the bytes of the contained range.
    Partial(ByteRange),
}

/// The bytes of the literal header prefix `bytes=`.
pub open spec fn bytes_prefix() -> Seq<u8> {
    seq![98u8, 121u8, 116u8, 101u8, 115u8, 61u8]
}

/// The bounds denoted by the text after `bytes=`, validated and clamped
/// against `size`; `None` for malformed or unsatisfiable requests.
pub open spec fn range_of(rest: Seq<u8>, size: u64) -> Option<(u64, u64)> {
    let d = find_byte(rest, 45);
    if d < 0 {
        None
    } else {
        let left = rest.take(d);
        let right = rest.skip(d + 1);
        if find_byte(right, 45) >= 0 {
            None
        } else if left.len() > 0 && right.len() > 0 {
            if all_digits(left) && all_digits(right) && dec_val(left) <= u64::MAX && dec_val(right)
                <= u64::MAX {
                let a = dec_val(left);
                let b = dec_val(right);
                if a > b || a >= size {
                    None
                } else {
                    Some(
                        (
                            a as u64,
                            if b < (size - 1) as nat {
                                b as u64
                            } else {
                                (size - 1) as u64
                            },
                        ),
                    )
                }
            } else {
                None
            }
        } else if left.len() > 0 {
            if all_digits(left) && dec_val(left) <= u64::MAX {
                let a = dec_val(left);
                if a >= size {
                    None
                } else {
                    Some((a as u64, (size - 1) as u64))
                }
            } else {
                None
            }
        } else if right.len() > 0 {
            if all_digits(right) && dec_val(right) <= u64::MAX {
                let n = dec_val(right);
                if n == 0 || size == 0 {
                    None
                } else {
                    Some(
                        (
                            if n < size {
                                (size - n) as u64
                            } else {
                                0u64
                            },
                            (size - 1) as u64,
                        ),
                    )
                }
            } else {
                None
            }
        } else {
            None
        }
    }
}

/// The delivery plan for an optional range header against a file of
/// `size` bytes; `None` stands for a rejected request.
pub open spec fn plan_of(header: Option<Seq<u8>>, size: u64) -> Option<DeliveryPlan> {
    match header {
        Option::None => Some(DeliveryPlan::Full),
        Option::Some(h) => if is_prefix(h, bytes_prefix()) && h.len() >= 6 {
            match range_of(h.skip(6), size) {
                Option::Some((a, b)) => Some(
                    DeliveryPlan::Partial(ByteRange { start: a, end: b, total: size }),
                ),
                Option::None => None,
            }
        } else {
            None
        },
    }
}

/// `c` first occurs in `s` at `i` exactly when `i` holds `c` and no
/// earlier offset does.
pub proof fn lemma_find_byte_at(s: Seq<u8>, c: u8, i: int)
    requires
        0 <= i < s.len(),
        s[i] == c,
        forall|j: int| 0 <= j < i ==> s[j] != c,
    ensures
        find_byte(s, c) == i,
{
    lemma_find_byte(s, c);
    if find_byte(s, c) < 0 {
        assert(s[i] != c);
    } else if find_byte(s, c) < i {
        assert(s[find_byte(s, c)] != c);
    } else if find_byte(s, c) > i {
        assert(s[i] != c);
    }
}

/// The header text `bytes=0-0`.
pub open spec fn zero_zero_header() -> Seq<u8> {
    seq![98u8, 121u8, 116u8, 101u8, 115u8, 61u8, 48u8, 45u8, 48u8]
}

/// The header text `bytes=<size>-<size>`, whose start bound already
/// falls outside a file of `size` bytes.
pub open spec fn full_size_header(size: u64) -> Seq<u8> {
    bytes_prefix() + dec_rep(size as nat) + seq![45u8] + dec_rep(size as nat)
}

/// Negotiation laws: for a file of any size, no header yields the full
/// plan; `bytes=0-0` yields the one-byte range at the start of any
/// non-empty file; and `bytes=<size>-<size>`, whose start equals the
/// size, is unsatisfiable and rejected.
pub proof fn lemma_negotiate_laws(size: u64)
    ensures
        plan_of(None, size) == Some(DeliveryPlan::Full),
        size >= 1 ==> plan_of(Some(zero_zero_header()), size) == Some(
            DeliveryPlan::Partial(ByteRange { start: 0, end: 0, total: size }),
        ),
        plan_of(Some(full_size_header(size)), size) == None::<DeliveryPlan>,
{
    if size >= 1 {
        let h = zero_zero_header();
        assert(h.take(6) =~= bytes_prefix());
        assert(is_prefix(h, bytes_prefix()));
        let rest = h.skip(6);
        assert(rest =~= seq![48u8, 45u8, 48u8]);
        lemma_find_byte_at(rest, 45, 1);
        let left = rest.take(1);
        let right = rest.skip(2);
        assert(left =~= seq![48u8]);
        assert(right =~= seq![48u8]);
        assert(find_byte(right, 45) < 0) by {
            lemma_find_byte(right, 45);
            if find_byte(right, 45) >= 0 {
                assert(right[find_byte(right, 45)] == 45);
            }
        }
        assert(all_digits(left));
        assert(all_digits(right));
        assert(dec_val(left) == 0) by {
            assert(left.drop_last() =~= Seq::<u8>::empty());
            assert(dec_val(Seq::<u8>::empty()) == 0);
            assert(left.last() == 48);
            assert(dec_val(left) == dec_val(left.drop_last()) * 10 + 0);
        }
        assert(dec_val(right) == 0) by {
            assert(right.drop_last() =~= Seq::<u8>::empty());
            assert(dec_val(Seq::<u8>::empty()) == 0);
            assert(right.last() == 48);
            assert(dec_val(right) == dec_val(right.drop_last()) * 10 + 0);
        }
        assert(range_of(rest, size) == Some((0u64, 0u64)));
    }
    let n = size as nat;
    lemma_dec_rep_digits(n);
    lemma_dec_val_of_rep(n);
    let ds = dec_rep(n);
    let len = ds.len() as int;
    let h = full_size_header(size);
    assert(h.take(6) =~= bytes_prefix());
    assert(is_prefix(h, bytes_prefix()));
    let rest = h.skip(6);
    assert(rest =~= ds + seq![45u8] + ds);
    assert forall|j: int| 0 <= j < len implies rest[j] != 45 by {
        assert(rest[j] == ds[j]);
        assert(is_digit(ds[j]));
    }
    assert(rest[len] == 45);
    lemma_find_byte_at(rest, 45, len);
    let left = rest.take(len);
    let right = rest.skip(len + 1);
    assert(left =~= ds);
    assert(right =~= ds);
    assert(find_byte(right, 45) < 0) by {
        lemma_find_byte(right, 45);
        if find_byte(right, 45) >= 0 {
            assert(right[find_byte(right, 45)] == 45);
            assert(is_digit(right[find_byte(right, 45)]));
        }
    }
    assert(dec_val(left) == n);
    assert(dec_val(right) == n);
    assert(range_of(rest, size) == None::<(u64, u64)>);
}

/// Scans for the first occurrence of `c` in `s`.
fn find_in(s: &Vec<u8>, c: u8) -> (r: Option<usize>)
    ensures
        match r {
            Some(i) => i == find_byte(s@, c) && i < s@.len() && s@[i as int] == c,
            None => find_byte(s@, c) < 0,
        },
{
    let n = s.len();
    let mut i: usize = 0;
    while i < n
        invariant
            n == s@.len(),
            i <= n,
            forall|j: int| 0 <= j < i ==> s@[j] != c,
        decreases n - i,
    {
        if s[i] == c {
            proof {
                lemma_find_byte_at(s@, c, i as int);
            }
            return Some(i);
        }
        i = i + 1;
    }
    proof {
        lemma_find_byte(s@, c);
        if find_byte(s@, c) >= 0 {
            assert(s@[find_byte(s@, c)] != c);
        }
    }
    None
}

/// Copies `s[from..to]` into a fresh byte string.
pub fn sub_bytes(s: &Vec<u8>, from: usize, to: usize) -> (r: Vec<u8>)
    requires
        from <= to <= s@.len(),
    ensures
        r@ == s@.subrange(from as int, to as int),
{
    let mut out: Vec<u8> = Vec::new();
    let mut i: usize = from;
    while i < to
        invariant
            from <= i <= to <= s@.len(),
            out@ =~= s@.subrange(from as int, i as int),
        decreases to - i,
    {
        out.push(s[i]);
        proof {
            assert(out@ =~= s@.subrange(from as int, i + 1 as int));
        }
        i = i + 1;
    }
    out
}

/// Decides how a file of `size` bytes is served under an optional
/// range header: no header means the full file, a well-formed
/// satisfiable single range means a partial plan, and anything else is
/// rejected. Multi-range headers are rejected as unsupported.
pub fn negotiate(header: Option<&Vec<u8>>, size: u64) -> (r: Result<DeliveryPlan, Error>)
    ensures
        match plan_of(
            match header {
                Some(h) => Some(h@),
                None => None,
            },
            size,
        ) {
            Some(p) => r == Ok::<DeliveryPlan, Error>(p),
            None => r == Err::<DeliveryPlan, Error>(Error::BadRequest),
        },
        r matches Ok(DeliveryPlan::Partial(br)) ==> br.wf() && br.total == size,
        header is None <==> r == Ok::<DeliveryPlan, Error>(DeliveryPlan::Full),
{
    let h = match header {
        Option::None => {
            return Ok(DeliveryPlan::Full);
        },
        Option::Some(h) => h,
    };
    let prefix: Vec<u8> = vec![98u8, 121u8, 116u8, 101u8, 115u8, 61u8];
    proof {
        assert(prefix@ =~= bytes_prefix());
    }
    if !starts_with(h, &prefix) {
        return Err(Error::BadRequest);
    }
    let rest = sub_bytes(h, 6, h.len());
    proof {
        assert(rest@ =~= h@.skip(6));
    }
    let d = match find_in(&rest, 45) {
        Option::None => {
            return Err(Error::BadRequest);
        },
        Option::Some(d) => d,
    };
    let left = sub_bytes(&rest, 0, d);
    let right = sub_bytes(&rest, d + 1, rest.len());
    proof {
        assert(left@ =~= rest@.take(d as int));
        assert(right@ =~= rest@.skip(d + 1));
    }
    if let Option::Some(_) = find_in(&right, 45) {
        return Err(Error::BadRequest);
    }
    if left.len() > 0 && right.len() > 0 {
        let a = match parse_u64(&left) {
            Option::None => {
                return Err(Error::BadRequest);
            },
            Option::Some(a) => a,
        };
        let b = match parse_u64(&right) {
            Option::None => {
                return Err(Error::BadRequest);
            },
            Option::Some(b) => b,
        };
        if a > b || a >= size {
            return Err(Error::BadRequest);
        }
        let end = if b < size - 1 {
            b
        } else {
            size - 1
        };
        Ok(DeliveryPlan::Partial(ByteRange { start: a, end, total: size }))
    } else if left.len() > 0 {
        let a = match parse_u64(&left) {
            Option::None => {
                return Err(Error::BadRequest);
            },
            Option::Some(a) => a,
        };
        if a >= size {
            return Err(Error::BadRequest);
        }
        Ok(DeliveryPlan::Partial(ByteRange { start: a, end: size - 1, total: size }))
    } else if right.len() > 0 {
        let n = match parse_u64(&right) {
            Option::None => {
                return Err(Error::BadRequest);
            },
            Option::Some(n) => n,
        };
        if n == 0 || size == 0 {
            return Err(Error::BadRequest);
        }
        let start = if n < size {
            size - n
        } else {
            0
        };
        Ok(DeliveryPlan::Partial(ByteRange { start, end: size - 1, total: size }))
    } else {
        Err(Error::BadRequest)
    }
}

} // verus!
