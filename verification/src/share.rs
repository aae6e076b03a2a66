//! Stateless share links: a signed `(path, expiry)` capability that is
//! issued once and re-verified from scratch on every use, with no
//! server-side token registry.
//!
//! The signature is an HMAC-SHA-256 tag over the canonical string
//! `expire=<expire_at>&path=<url-encoded path>`, rendered as lower-case
//! hex. A token is valid exactly when the recomputed signature matches
//! bit for bit and the deadline has not passed; a mismatch and an
//! expiry are deliberately indistinguishable to the caller.

use vstd::prelude::*;
use crate::bytes::dec_rep;
use crate::bytes::ct_eq_bytes;
use crate::bytes::hex_encode;
use crate::bytes::hex_rep;
use crate::bytes::push_all;
use crate::bytes::push_dec;

verus! {

/// Bytes that percent-encoding leaves as they are.
pub open spec fn unreserved(b: u8) -> bool {
    (48 <= b && b <= 57) || (65 <= b && b <= 90) || (97 <= b && b <= 122) || b == 45 || b == 46
        || b == 95 || b == 126
}

/// Upper-case hexadecimal digit for a value below 16.
pub open spec fn up_hex_digit(n: u8) -> u8 {
    if n < 10 {
        (48 + n) as u8
    } else {
        (55 + n) as u8
    }
}

/// Percent-encoding of one byte.
pub open spec fn enc_byte(b: u8) -> Seq<u8> {
    if unreserved(b) {
        seq![b]
    } else {
        seq![37u8, up_hex_digit(b / 16), up_hex_digit(b % 16)]
    }
}

/// Percent-encoding of a byte string: unreserved bytes stay, every
/// other byte becomes `%` and two upper-case hex digits.
pub open spec fn percent_encode(s: Seq<u8>) -> Seq<u8>
    decreases s.len(),
{
    if s.len() == 0 {
        Seq::empty()
    } else {
        percent_encode(s.drop_last()) + enc_byte(s.last())
    }
}

/// The HMAC-SHA-256 tag over `msg` keyed by `key`; a fixed function of
/// both, left uninterpreted here.
pub uninterp spec fn mac_of(key: Seq<u8>, msg: Seq<u8>) -> Seq<u8>;

/// Relies on `urlencoding::encode_binary`: every byte other than
/// ASCII alphanumerics and `-`, `.`, `_`, `~` becomes `%` plus two
/// upper-case hex digits.
#[verifier::external_body]
fn url_encode(s: &Vec<u8>) -> (r: Vec<u8>)
    ensures
        r@ == percent_encode(s@),
{
    urlencoding::encode_binary(s.as_slice()).into_owned().into_bytes()
}

/// Relies on `hmac::Hmac` over `sha2::Sha256`: the tag is a function
/// of key and message alone and is 32 bytes long. `new_from_slice`
/// accepts keys of every length for an HMAC, so it cannot fail here.
#[verifier::external_body]
fn hmac_sha256(key: &Vec<u8>, msg: &Vec<u8>) -> (r: Vec<u8>)
    ensures
        r@ == mac_of(key@, msg@),
        r@.len() == 32,
{
    let mut m = <hmac::Hmac<sha2::Sha256> as hmac::KeyInit>::new_from_slice(
        key.as_slice(),
    ).unwrap();
    hmac::Mac::update(&mut m, msg.as_slice());
    hmac::Mac::finalize(m).into_bytes().to_vec()
}

/// The canonical string a share signature is computed over:
/// `expire=<expire_at>&path=<url-encoded path>`.
pub open spec fn canonical(path: Seq<u8>, expire_at: u64) -> Seq<u8> {
    seq![101u8, 120u8, 112u8, 105u8, 114u8, 101u8, 61u8] + dec_rep(expire_at as nat) + seq![
        38u8,
        112u8,
        97u8,
        116u8,
        104u8,
        61u8,
    ] + percent_encode(path)
}

/// The hex signature a correctly issued token carries.
pub open spec fn signature_of(secret: Seq<u8>, path: Seq<u8>, expire_at: u64) -> Seq<u8> {
    hex_rep(mac_of(secret, canonical(path, expire_at)))
}

/// A token is valid exactly when its signature is the recomputed one
/// and the deadline has not passed.
pub open spec fn token_valid(
    secret: Seq<u8>,
    path: Seq<u8>,
    expire_at: u64,
    signature: Seq<u8>,
    now: u64,
) -> bool {
    signature == signature_of(secret, path, expire_at) && now <= expire_at
}

/// A share capability: the path it grants delivery of, its deadline,
/// and the hex signature over both.
pub struct ShareToken {
    /// The granted path, relative to the storage root, as handed in.
    pub relative_path: Vec<u8>,
    /// Seconds since the epoch after which the token is dead.
    pub expire_at: u64,
    /// Lower-case hex HMAC-SHA-256 tag over the canonical string.
    pub signature: Vec<u8>,
}

/// Builds the canonical string for `path` and `expire_at`.
fn build_canonical(path: &Vec<u8>, expire_at: u64) -> (r: Vec<u8>)
    ensures
        r@ == canonical(path@, expire_at),
{
    let mut out: Vec<u8> = vec![101u8, 120u8, 112u8, 105u8, 114u8, 101u8, 61u8];
    let ghost pre = out@;
    proof {
        assert(pre =~= seq![101u8, 120u8, 112u8, 105u8, 114u8, 101u8, 61u8]);
    }
    push_dec(expire_at, &mut out);
    let amp: Vec<u8> = vec![38u8, 112u8, 97u8, 116u8, 104u8, 61u8];
    proof {
        assert(amp@ =~= seq![38u8, 112u8, 97u8, 116u8, 104u8, 61u8]);
    }
    push_all(&mut out, &amp);
    let enc = url_encode(path);
    push_all(&mut out, &enc);
    proof {
        assert(out@ =~= canonical(path@, expire_at));
    }
    out
}

/// Issues a share token for `path` with deadline `expire_at`, signed
/// with the process-wide `secret`. Nothing is stored anywhere: the
/// token is self-contained.
pub fn issue(secret: &Vec<u8>, path: &Vec<u8>, expire_at: u64) -> (t: ShareToken)
    ensures
        t.relative_path@ == path@,
        t.expire_at == expire_at,
        t.signature@ == signature_of(secret@, path@, expire_at),
{
    let msg = build_canonical(path, expire_at);
    let tag = hmac_sha256(secret, &msg);
    let signature = hex_encode(&tag);
    let mut relative_path: Vec<u8> = Vec::new();
    push_all(&mut relative_path, path);
    proof {
        assert(Seq::<u8>::empty() + path@ =~= path@);
    }
    ShareToken { relative_path, expire_at, signature }
}

/// Re-verifies a presented `(path, expire_at, signature)` tuple at
/// time `now`: the signature is recomputed from scratch and compared
/// bit for bit over its full width (no early exit that would time the
/// first differing byte), and the deadline must not have passed.
/// Which of the two checks failed is not reported.
pub fn verify(
    secret: &Vec<u8>,
    path: &Vec<u8>,
    expire_at: u64,
    signature: &Vec<u8>,
    now: u64,
) -> (r: bool)
    ensures
        r == token_valid(secret@, path@, expire_at, signature@, now),
{
    let msg = build_canonical(path, expire_at);
    let tag = hmac_sha256(secret, &msg);
    let expected = hex_encode(&tag);
    let same = ct_eq_bytes(signature, &expected);
    same && now <= expire_at
}

/// Renders a token in its transport form
/// `hash=<signature>&expire=<expire_at>&path=<url-encoded path>`.
pub open spec fn query_of(path: Seq<u8>, expire_at: u64, signature: Seq<u8>) -> Seq<u8> {
    seq![104u8, 97u8, 115u8, 104u8, 61u8] + signature + seq![38u8] + canonical(path, expire_at)
}

/// The string form of a freshly issued token.
pub fn to_query(t: &ShareToken) -> (r: Vec<u8>)
    ensures
        r@ == query_of(t.relative_path@, t.expire_at, t.signature@),
{
    let mut out: Vec<u8> = vec![104u8, 97u8, 115u8, 104u8, 61u8];
    proof {
        assert(out@ =~= seq![104u8, 97u8, 115u8, 104u8, 61u8]);
    }
    push_all(&mut out, &t.signature);
    let amp: Vec<u8> = vec![38u8];
    proof {
        assert(amp@ =~= seq![38u8]);
    }
    push_all(&mut out, &amp);
    let canon = build_canonical(&t.relative_path, t.expire_at);
    push_all(&mut out, &canon);
    proof {
        assert(out@ =~= query_of(t.relative_path@, t.expire_at, t.signature@));
    }
    out
}

/// Round trip: a token issued with a secret verifies under that secret
/// exactly while its deadline has not passed, and any other signature
/// string, down to a single flipped bit, never verifies.
pub proof fn lemma_share_round_trip(
    secret: Seq<u8>,
    path: Seq<u8>,
    expire_at: u64,
    now: u64,
    presented: Seq<u8>,
)
    ensures
        token_valid(secret, path, expire_at, signature_of(secret, path, expire_at), now) == (now
            <= expire_at),
        presented != signature_of(secret, path, expire_at) ==> !token_valid(
            secret,
            path,
            expire_at,
            presented,
            now,
        ),
        now > expire_at ==> !token_valid(secret, path, expire_at, presented, now),
{
}

} // verus!
