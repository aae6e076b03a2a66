//! The operations the transport layer calls: directory listing,
//! authenticated file delivery, and share-link issuance and
//! redemption. Each one resolves the client path through the same
//! resolver and hands back plain values; the transport layer only
//! moves bytes and maps error kinds to status codes.

use vstd::prelude::*;
use crate::bytes::clone_bytes;
use crate::entry::models;
use crate::entry::FileEntry;
use crate::error::Error;
use crate::fswrap::WalkItem;
use crate::listing::list_dir;
use crate::listing::listed;
use crate::range::negotiate;
use crate::range::plan_of;
use crate::range::DeliveryPlan;
use crate::resolve::contained;
use crate::resolve::escaping;
use crate::resolve::joined;
use crate::resolve::percent_decode;
use crate::resolve::resolve;
use crate::resolve::utf8_ok;
use crate::resolve::ResolvedPath;
use crate::share::issue;
use crate::share::query_of;
use crate::share::signature_of;
use crate::share::to_query;
use crate::share::token_valid;
use crate::share::verify;

verus! {

/// Lists the directory an encoded client path names, or the storage
/// root itself when no path is given. `BadRequest` exactly when the
/// path fails to decode, escapes, or names something that is not a
/// directory; `NotFound` when it does not exist.
pub fn dir_content(root: &Vec<u8>, path: Option<&Vec<u8>>) -> (r: Result<Vec<FileEntry>, Error>)
    ensures
        r matches Err(e) ==> e == Error::BadRequest || e == Error::NotFound,
        path matches Some(p) && (!utf8_ok(percent_decode(p@)) || escaping(percent_decode(p@)))
            ==> r == Err::<Vec<FileEntry>, Error>(Error::BadRequest),
        r matches Ok(v) ==> exists|items: Seq<WalkItem>| models(v@) == listed(items, root@),
        r == Err::<Vec<FileEntry>, Error>(Error::NotFound) ==> ({
            let enc = match path {
                Some(p) => p@,
                None => Seq::<u8>::empty(),
            };
            utf8_ok(percent_decode(enc)) && !escaping(percent_decode(enc))
        }),
{
    let empty: Vec<u8> = Vec::new();
    proof {
        assert(empty@ =~= Seq::<u8>::empty());
    }
    let encoded = match path {
        Option::Some(p) => p,
        Option::None => &empty,
    };
    let target = match resolve(root, encoded) {
        Ok(t) => t,
        Err(e) => {
            return Err(e);
        },
    };
    list_dir(&target, root)
}

/// Decides delivery against an already resolved target: anything that
/// is not a regular file (a directory, or a symbolic link, which
/// stats as neither) is refused, and a file's optional range header
/// is negotiated against its size.
pub fn plan_for(target: &ResolvedPath, range_header: Option<&Vec<u8>>) -> (r: Result<
    DeliveryPlan,
    Error,
>)
    ensures
        !target.is_file ==> r == Err::<DeliveryPlan, Error>(Error::BadRequest),
        target.is_file ==> (match plan_of(
            match range_header {
                Some(h) => Some(h@),
                None => None,
            },
            target.size,
        ) {
            Some(p) => r == Ok::<DeliveryPlan, Error>(p),
            None => r == Err::<DeliveryPlan, Error>(Error::BadRequest),
        }),
        r matches Err(e) ==> e == Error::BadRequest,
        r matches Ok(plan) ==> {
            &&& target.is_file
            &&& plan_of(
                match range_header {
                    Some(h) => Some(h@),
                    None => None,
                },
                target.size,
            ) == Some(plan)
            &&& (plan matches DeliveryPlan::Partial(br) ==> br.wf() && br.total == target.size)
            &&& (range_header is None ==> plan is Full)
        },
{
    if !target.is_file {
        return Err(Error::BadRequest);
    }
    negotiate(range_header, target.size)
}

/// Resolves an encoded client path to a regular file and negotiates
/// the optional range header against its size. `BadRequest` when the
/// path fails to decode or escapes, names something that is not a
/// regular file, or the range is malformed or unsatisfiable;
/// `NotFound` when the target does not exist.
pub fn file_delivery(root: &Vec<u8>, path: &Vec<u8>, range_header: Option<&Vec<u8>>) -> (r: Result<
    (ResolvedPath, DeliveryPlan),
    Error,
>)
    ensures
        !utf8_ok(percent_decode(path@)) || escaping(percent_decode(path@)) ==> r == Err::<
            (ResolvedPath, DeliveryPlan),
            Error,
        >(Error::BadRequest),
        r matches Err(e) ==> e == Error::BadRequest || e == Error::NotFound,
        r matches Ok((p, plan)) ==> {
            &&& p.abs@ == joined(root@, percent_decode(path@))
            &&& contained(root@, p.abs@)
            &&& p.is_file
            &&& plan_of(
                match range_header {
                    Some(h) => Some(h@),
                    None => None,
                },
                p.size,
            ) == Some(plan)
            &&& (plan matches DeliveryPlan::Partial(br) ==> br.wf() && br.total == p.size)
            &&& (range_header is None ==> plan is Full)
        },
        r == Err::<(ResolvedPath, DeliveryPlan), Error>(Error::NotFound) ==> utf8_ok(
            percent_decode(path@),
        ) && !escaping(percent_decode(path@)),
{
    let target = match resolve(root, path) {
        Ok(t) => t,
        Err(e) => {
            return Err(e);
        },
    };
    let plan = match plan_for(&target, range_header) {
        Ok(p) => p,
        Err(e) => {
            return Err(e);
        },
    };
    Ok((target, plan))
}

/// Issues a share link for `path` with deadline `expire_at` and
/// returns its transport string
/// `hash=<signature>&expire=<expire_at>&path=<url-encoded path>`.
/// Nothing is stored: the link is a stateless capability.
pub fn generate_share_link(secret: &Vec<u8>, path: &Vec<u8>, expire_at: u64) -> (r: Vec<u8>)
    ensures
        r@ == query_of(path@, expire_at, signature_of(secret@, path@, expire_at)),
{
    let token = issue(secret, path, expire_at);
    to_query(&token)
}

/// Redeems a share link: re-verifies the signature and deadline, then
/// resolves the bound path and negotiates the optional range header.
/// An invalid or expired token is `BadRequest`, whichever of the two
/// checks failed; a valid token authorizes exactly this one delivery,
/// not listing or search.
pub fn share_delivery(
    secret: &Vec<u8>,
    root: &Vec<u8>,
    path: &Vec<u8>,
    expire_at: u64,
    signature: &Vec<u8>,
    now: u64,
    range_header: Option<&Vec<u8>>,
) -> (r: Result<(ResolvedPath, DeliveryPlan), Error>)
    ensures
        !token_valid(secret@, path@, expire_at, signature@, now) ==> r == Err::<
            (ResolvedPath, DeliveryPlan),
            Error,
        >(Error::BadRequest),
        now > expire_at ==> r == Err::<(ResolvedPath, DeliveryPlan), Error>(Error::BadRequest),
        r matches Err(e) ==> e == Error::BadRequest || e == Error::NotFound,
        r matches Ok((p, plan)) ==> {
            &&& token_valid(secret@, path@, expire_at, signature@, now)
            &&& p.abs@ == joined(root@, percent_decode(path@))
            &&& contained(root@, p.abs@)
            &&& p.is_file
            &&& plan_of(
                match range_header {
                    Some(h) => Some(h@),
                    None => None,
                },
                p.size,
            ) == Some(plan)
            &&& (plan matches DeliveryPlan::Partial(br) ==> br.wf() && br.total == p.size)
        },
        r == Err::<(ResolvedPath, DeliveryPlan), Error>(Error::NotFound) ==> token_valid(
            secret@,
            path@,
            expire_at,
            signature@,
            now,
        ) && utf8_ok(percent_decode(path@)) && !escaping(percent_decode(path@)),
{
    if !verify(secret, path, expire_at, signature, now) {
        return Err(Error::BadRequest);
    }
    file_delivery(root, path, range_header)
}

/// The directory a user's tree is rooted at: `<storage>/<username>`.
pub fn get_user_root_dir(storage: &Vec<u8>, username: &Vec<u8>) -> (r: Vec<u8>)
    ensures
        r@ == storage@ + seq![47u8] + username@,
{
    let mut out = clone_bytes(storage);
    out.push(47);
    crate::bytes::push_all(&mut out, username);
    proof {
        assert((storage@.push(47u8)) + username@ =~= storage@ + seq![47u8] + username@);
    }
    out
}

/// The directory a user's files live in: `<storage>/<username>/files`.
pub fn get_user_files_dir(storage: &Vec<u8>, username: &Vec<u8>) -> (r: Vec<u8>)
    ensures
        r@ == storage@ + seq![47u8] + username@ + seq![102u8, 105u8, 108u8, 101u8, 115u8].insert(
            0,
            47u8,
        ),
{
    let mut out = get_user_root_dir(storage, username);
    let suffix: Vec<u8> = vec![47u8, 102u8, 105u8, 108u8, 101u8, 115u8];
    crate::bytes::push_all(&mut out, &suffix);
    proof {
        assert(suffix@ =~= seq![102u8, 105u8, 108u8, 101u8, 115u8].insert(0, 47u8));
    }
    out
}

/// The directory a user's temporary files live in:
/// `<storage>/<username>/tmp`.
pub fn get_user_tmp_dir(storage: &Vec<u8>, username: &Vec<u8>) -> (r: Vec<u8>)
    ensures
        r@ == storage@ + seq![47u8] + username@ + seq![116u8, 109u8, 112u8].insert(0, 47u8),
{
    let mut out = get_user_root_dir(storage, username);
    let suffix: Vec<u8> = vec![47u8, 116u8, 109u8, 112u8];
    crate::bytes::push_all(&mut out, &suffix);
    proof {
        assert(suffix@ =~= seq![116u8, 109u8, 112u8].insert(0, 47u8));
    }
    out
}

/// The user's files directory with each requested path segment joined
/// below it by a separator.
pub open spec fn joined_segments(base: Seq<u8>, paths: Seq<Seq<u8>>) -> Seq<u8>
    decreases paths.len(),
{
    if paths.len() == 0 {
        base
    } else {
        joined_segments(base + seq![47u8] + paths[0], paths.drop_first())
    }
}

/// Joins the requested path segments below the user's files
/// directory.
pub fn get_required_dir(storage: &Vec<u8>, username: &Vec<u8>, paths: &Vec<Vec<u8>>) -> (r: Vec<
    u8,
>)
    ensures
        r@ == joined_segments(
            storage@ + seq![47u8] + username@ + seq![102u8, 105u8, 108u8, 101u8, 115u8].insert(
                0,
                47u8,
            ),
            paths@.map_values(|p: Vec<u8>| p@),
        ),
{
    let ghost segs = paths@.map_values(|p: Vec<u8>| p@);
    let mut out = get_user_files_dir(storage, username);
    let mut i: usize = 0;
    proof {
        assert(segs.skip(0) =~= segs);
    }
    while i < paths.len()
        invariant
            i <= paths@.len(),
            segs == paths@.map_values(|p: Vec<u8>| p@),
            joined_segments(out@, segs.skip(i as int)) == joined_segments(
                storage@ + seq![47u8] + username@ + seq![102u8, 105u8, 108u8, 101u8, 115u8].insert(
                    0,
                    47u8,
                ),
                segs,
            ),
        decreases paths@.len() - i,
    {
        let ghost outg = out@;
        let ghost rest = segs.skip(i as int);
        out.push(47);
        crate::bytes::push_all(&mut out, &paths[i]);
        proof {
            assert(rest.drop_first() =~= segs.skip(i + 1 as int));
            assert(rest[0] == segs[i as int]);
            assert(segs[i as int] == paths@[i as int]@);
            assert(out@ =~= outg + seq![47u8] + segs[i as int]);
        }
        i = i + 1;
    }
    proof {
        assert(segs.skip(segs.len() as int) =~= Seq::<Seq<u8>>::empty());
    }
    out
}

} // verus!
