//! Resolution of client-supplied encoded paths against the storage
//! root, defended against both forms of traversal. Lexically, the
//! decoded path is treated as relative to the root in every case; an
//! absolute path or any `..` segment is rejected outright, so a
//! resolved path is always lexically contained in the root. Against
//! symbolic links, the walker never follows one: the target itself
//! stats as neither file nor directory when it is a link (so delivery
//! and listing refuse it), and resolution stats every intermediate
//! component below the root and rejects any that is not a real
//! directory, so a link inside the path cannot carry the later open
//! outside the root either.

use vstd::prelude::*;
use crate::bytes::clone_bytes;
use crate::bytes::eq_bytes;
use crate::bytes::is_prefix;
use crate::bytes::push_all;
use crate::bytes::split_seq;
use crate::error::Error;
use crate::fswrap::walk_raw;
use crate::fswrap::WalkItem;

verus! {

/// `is_hex_digit` in the sense of percent escapes.
pub open spec fn is_hex(b: u8) -> bool {
    (48 <= b && b <= 57) || (65 <= b && b <= 70) || (97 <= b && b <= 102)
}

/// Value of one hex digit.
pub open spec fn hex_val(b: u8) -> u8 {
    if 48 <= b && b <= 57 {
        (b - 48) as u8
    } else if 65 <= b && b <= 70 {
        (b - 55) as u8
    } else if 97 <= b && b <= 102 {
        (b - 87) as u8
    } else {
        0
    }
}

/// Percent-decoding as the decoder performs it: `%` followed by two
/// hex digits becomes one byte; a `%` followed by one hex digit and a
/// non-digit keeps the `%` and the digit; any other `%` stays literal;
/// every other byte is kept.
pub open spec fn percent_decode(s: Seq<u8>) -> Seq<u8>
    decreases s.len(),
{
    if s.len() == 0 {
        Seq::empty()
    } else if s[0] == 37 {
        if s.len() >= 3 && is_hex(s[1]) && is_hex(s[2]) {
            seq![(hex_val(s[1]) * 16 + hex_val(s[2])) as u8] + percent_decode(s.skip(3))
        } else if s.len() >= 3 && is_hex(s[1]) {
            seq![37u8, s[1]] + percent_decode(s.skip(2))
        } else if s.len() >= 2 && !is_hex(s[1]) {
            seq![37u8] + percent_decode(s.skip(1))
        } else {
            seq![37u8] + s.skip(1)
        }
    } else {
        seq![s[0]] + percent_decode(s.skip(1))
    }
}

/// Whether a byte string is valid UTF-8; what the standard library's
/// validity check decides.
pub uninterp spec fn utf8_ok(s: Seq<u8>) -> bool;

/// Relies on `urlencoding::decode_binary`: percent escapes become
/// bytes exactly as `percent_decode` states, and malformed escapes
/// stay literal.
#[verifier::external_body]
fn url_decode_raw(s: &Vec<u8>) -> (r: Vec<u8>)
    ensures
        r@ == percent_decode(s@),
{
    urlencoding::decode_binary(s.as_slice()).into_owned()
}

/// Relies on `std::str::from_utf8`: decides UTF-8 validity of the bytes.
#[verifier::external_body]
fn utf8_check(s: &Vec<u8>) -> (r: bool)
    ensures
        r == utf8_ok(s@),
{
    core::str::from_utf8(s.as_slice()).is_ok()
}

/// Percent-decodes `s` and insists the result is valid UTF-8, as
/// decoded client paths must be.
pub fn url_decode(s: &Vec<u8>) -> (r: Option<Vec<u8>>)
    ensures
        match r {
            Some(v) => v@ == percent_decode(s@) && utf8_ok(percent_decode(s@)),
            None => !utf8_ok(percent_decode(s@)),
        },
{
    let raw = url_decode_raw(s);
    if utf8_check(&raw) {
        Some(raw)
    } else {
        None
    }
}

/// The `..` path segment.
pub open spec fn dotdot() -> Seq<u8> {
    seq![46u8, 46u8]
}

/// A decoded relative path escapes when it is absolute (opens with a
/// separator) or any of its `/`-separated segments is `..`.
pub open spec fn escaping(rel: Seq<u8>) -> bool {
    (rel.len() > 0 && rel[0] == 47) || split_seq(rel, 47).contains(dotdot())
}

/// Whether a decoded relative path must be rejected.
pub fn is_escaping(rel: &Vec<u8>) -> (r: bool)
    ensures
        r == escaping(rel@),
{
    if rel.len() > 0 && rel[0] == 47 {
        return true;
    }
    let segs = crate::bytes::split_bytes(rel, 47);
    let dd: Vec<u8> = vec![46u8, 46u8];
    proof {
        assert(dd@ =~= dotdot());
    }
    let mut i: usize = 0;
    while i < segs.len()
        invariant
            i <= segs@.len(),
            dd@ == dotdot(),
            segs@.map_values(|t: Vec<u8>| t@) == split_seq(rel@, 47),
            forall|j: int| 0 <= j < i ==> #[trigger] split_seq(rel@, 47)[j] != dotdot(),
        decreases segs@.len() - i,
    {
        proof {
            assert(split_seq(rel@, 47)[i as int] == segs@.map_values(|t: Vec<u8>| t@)[i as int]);
            assert(split_seq(rel@, 47)[i as int] == segs@[i as int]@);
        }
        if eq_bytes(&segs[i], &dd) {
            proof {
                assert(split_seq(rel@, 47)[i as int] == dotdot());
            }
            return true;
        }
        i = i + 1;
    }
    proof {
        assert(forall|j: int|
            0 <= j < split_seq(rel@, 47).len() ==> split_seq(rel@, 47)[j] != dotdot());
    }
    false
}

/// The absolute path a relative path resolves to: the root itself for
/// the empty path, else the root, a separator and the relative path.
pub open spec fn joined(root: Seq<u8>, rel: Seq<u8>) -> Seq<u8> {
    if rel.len() == 0 {
        root
    } else {
        root + seq![47u8] + rel
    }
}

/// `q` lies lexically inside `root`: it is the root itself, or the
/// root, a separator and a remainder free of `..` segments.
pub open spec fn contained(root: Seq<u8>, q: Seq<u8>) -> bool {
    q == root || (q.len() > root.len() && is_prefix(q, root + seq![47u8]) && !split_seq(
        q.skip(root.len() + 1 as int),
        47,
    ).contains(dotdot()))
}

/// Containment: a relative path that is not rejected joins to a path
/// lexically inside the root, whatever the root and path are.
pub proof fn lemma_join_contained(root: Seq<u8>, rel: Seq<u8>)
    requires
        !escaping(rel),
    ensures
        contained(root, joined(root, rel)),
{
    if rel.len() == 0 {
    } else {
        let q = root + seq![47u8] + rel;
        assert(q.take(root.len() + 1 as int) =~= root + seq![47u8]);
        assert(is_prefix(q, root + seq![47u8]));
        assert(q.skip(root.len() + 1 as int) =~= rel);
    }
}

/// An already resolved path: absolute, contained in the storage root,
/// with the outcome of the stat that resolution performed.
pub struct ResolvedPath {
    /// The absolute path, root included.
    pub abs: Vec<u8>,
    /// The target stats as a directory.
    pub is_dir: bool,
    /// The target stats as a regular file (a symbolic link is neither).
    pub is_file: bool,
    /// The target's size in bytes at stat time.
    pub size: u64,
}

/// What the stat of one intermediate path component decides: a real
/// directory lets resolution go on; anything else that stats — a
/// regular file, or a symbolic link, which the walker reports as
/// neither file nor directory — is a `BadRequest`, since following it
/// could carry the later open outside the root; a component that
/// cannot be statted at all is `NotFound`.
pub open spec fn ancestor_verdict(items: Seq<WalkItem>) -> Result<(), Error> {
    if items.len() == 0 {
        Err(Error::NotFound)
    } else {
        match items[0] {
            WalkItem::Entry(e) => if e.is_dir {
                Ok(())
            } else {
                Err(Error::BadRequest)
            },
            WalkItem::Fault => Err(Error::NotFound),
        }
    }
}

/// Judges the stat outcome of one intermediate path component.
pub fn ancestor_gate(items: &Vec<WalkItem>) -> (r: Result<(), Error>)
    ensures
        r == ancestor_verdict(items@),
{
    if items.len() == 0 {
        return Err(Error::NotFound);
    }
    match &items[0] {
        WalkItem::Entry(e) => if e.is_dir {
            Ok(())
        } else {
            Err(Error::BadRequest)
        },
        WalkItem::Fault => Err(Error::NotFound),
    }
}

/// Resolves an encoded client path against the storage root: decodes
/// it, rejects escapes, joins it under the root, requires every
/// intermediate component below the root to stat as a real directory
/// (`ancestor_verdict`; this is the symbolic-link defense), and stats
/// the result. A path that fails to decode or escapes is always
/// `BadRequest`; `NotFound` comes only for a well-formed path whose
/// target or intermediate component could not be statted.
pub fn resolve(root: &Vec<u8>, encoded: &Vec<u8>) -> (r: Result<ResolvedPath, Error>)
    ensures
        !utf8_ok(percent_decode(encoded@)) || escaping(percent_decode(encoded@)) ==> r == Err::<
            ResolvedPath,
            Error,
        >(Error::BadRequest),
        r matches Err(e) ==> (e == Error::BadRequest || e == Error::NotFound),
        r == Err::<ResolvedPath, Error>(Error::NotFound) ==> utf8_ok(percent_decode(encoded@))
            && !escaping(percent_decode(encoded@)),
        r matches Ok(p) ==> p.abs@ == joined(root@, percent_decode(encoded@)) && contained(
            root@,
            p.abs@,
        ) && utf8_ok(percent_decode(encoded@)) && !escaping(percent_decode(encoded@)),
{
    let dec = match url_decode(encoded) {
        Option::None => {
            return Err(Error::BadRequest);
        },
        Option::Some(d) => d,
    };
    if is_escaping(&dec) {
        return Err(Error::BadRequest);
    }
    let mut abs: Vec<u8> = Vec::new();
    push_all(&mut abs, root);
    proof {
        assert(Seq::<u8>::empty() + root@ =~= root@);
    }
    if dec.len() > 0 {
        abs.push(47);
        push_all(&mut abs, &dec);
        proof {
            assert(abs@ =~= joined(root@, dec@));
        }
    }
    proof {
        lemma_join_contained(root@, dec@);
    }
    let segs = crate::bytes::split_bytes(&dec, 47);
    proof {
        crate::bytes::lemma_split_len(dec@, 47);
        assert(segs@.len() == split_seq(dec@, 47).len());
    }
    let n_anc = segs.len() - 1;
    let mut cur = clone_bytes(root);
    let mut k: usize = 0;
    while k < n_anc
        invariant
            k <= n_anc,
            n_anc < segs@.len(),
            utf8_ok(percent_decode(encoded@)),
            !escaping(percent_decode(encoded@)),
        decreases n_anc - k,
    {
        cur.push(47);
        push_all(&mut cur, &segs[k]);
        let probe = walk_raw(&cur, 0, 0);
        match ancestor_gate(&probe) {
            Ok(_) => {
            },
            Err(e) => {
                proof {
                    assert(e == Error::BadRequest || e == Error::NotFound);
                }
                return Err(e);
            },
        }
        k = k + 1;
    }
    let mut items = walk_raw(&abs, 0, 0);
    if items.len() == 0 {
        return Err(Error::NotFound);
    }
    let first = items.remove(0);
    match first {
        WalkItem::Entry(e) => Ok(
            ResolvedPath { abs, is_dir: e.is_dir, is_file: e.is_file, size: e.size },
        ),
        WalkItem::Fault => Err(Error::NotFound),
    }
}

} // verus!
