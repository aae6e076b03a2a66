//! Recursive keyword search over a storage tree. An entry matches
//! when every keyword, case-insensitively, is a substring of its
//! name; a keyword opening with `.` is an extension filter that only
//! a file whose extension equals it exactly can satisfy. Unlike
//! enumeration, a search aborts on any unreadable subtree rather than
//! returning a silently partial result.

use vstd::prelude::*;
use crate::bytes::contains_bytes;
use crate::bytes::contains_seq;
use crate::bytes::eq_bytes;
use crate::bytes::lower_seq;
use crate::bytes::push_all;
use crate::bytes::split_bytes;
use crate::bytes::split_seq;
use crate::bytes::to_lower;
use crate::entry::entry_from;
use crate::entry::ext_of;
use crate::entry::models;
use crate::entry::EntryModel;
use crate::entry::FileEntry;
use crate::error::Error;
use crate::fswrap::walk_raw;
use crate::fswrap::WalkItem;
use crate::resolve::percent_decode;
use crate::resolve::url_decode;
use crate::resolve::utf8_ok;

verus! {

/// One keyword matches a name: lower-cased, it occurs in the
/// lower-cased name; and when it opens with a dot it is an extension
/// filter, which no directory satisfies and a file satisfies only
/// when its dotted lower-cased extension equals the keyword exactly.
pub open spec fn kw_match(name: Seq<u8>, is_dir: bool, kw: Seq<u8>) -> bool {
    let k = lower_seq(kw);
    &&& contains_seq(lower_seq(name), k)
    &&& (k.len() > 0 && k[0] == 46 ==> !is_dir && match ext_of(name) {
        Some(e) => seq![46u8] + lower_seq(e) == k,
        None => false,
    })
}

/// Every keyword matches the name.
pub open spec fn matches_all(name: Seq<u8>, is_dir: bool, kws: Seq<Seq<u8>>) -> bool {
    forall|i: int| 0 <= i < kws.len() ==> kw_match(name, is_dir, #[trigger] kws[i])
}

/// Whether an entry named `name` matches every keyword of the query.
pub fn contains_all_keywords(name: &Vec<u8>, is_dir: bool, keywords: &Vec<Vec<u8>>) -> (r: bool)
    ensures
        r == matches_all(name@, is_dir, keywords@.map_values(|k: Vec<u8>| k@)),
{
    let ghost kws = keywords@.map_values(|k: Vec<u8>| k@);
    let name_low = to_lower(name);
    let mut i: usize = 0;
    while i < keywords.len()
        invariant
            i <= keywords@.len(),
            kws == keywords@.map_values(|k: Vec<u8>| k@),
            name_low@ == lower_seq(name@),
            forall|j: int| 0 <= j < i ==> kw_match(name@, is_dir, #[trigger] kws[j]),
        decreases keywords@.len() - i,
    {
        proof {
            assert(kws[i as int] == keywords@[i as int]@);
        }
        let kw_low = to_lower(&keywords[i]);
        if !contains_bytes(&name_low, &kw_low) {
            proof {
                assert(!kw_match(name@, is_dir, kws[i as int]));
            }
            return false;
        }
        if kw_low.len() > 0 && kw_low[0] == 46 {
            if is_dir {
                proof {
                    assert(!kw_match(name@, is_dir, kws[i as int]));
                }
                return false;
            }
            match crate::entry::ext_from(name) {
                Option::Some(e) => {
                    let ext_low = to_lower(&e);
                    let mut dotted: Vec<u8> = Vec::new();
                    dotted.push(46);
                    push_all(&mut dotted, &ext_low);
                    proof {
                        assert(dotted@ =~= seq![46u8] + lower_seq(e@));
                    }
                    if !eq_bytes(&dotted, &kw_low) {
                        proof {
                            assert(!kw_match(name@, is_dir, kws[i as int]));
                        }
                        return false;
                    }
                },
                Option::None => {
                    proof {
                        assert(!kw_match(name@, is_dir, kws[i as int]));
                    }
                    return false;
                },
            }
        }
        proof {
            assert(kw_match(name@, is_dir, kws[i as int]));
        }
        i = i + 1;
    }
    true
}

/// Some walk item is a fault.
pub open spec fn has_fault(items: Seq<WalkItem>) -> bool {
    exists|j: int| 0 <= j < items.len() && #[trigger] items[j] is Fault
}

/// The models of the matching entries of a walk, in walk order.
pub open spec fn searched(items: Seq<WalkItem>, kws: Seq<Seq<u8>>, root: Seq<u8>) -> Seq<
    EntryModel,
>
    decreases items.len(),
{
    if items.len() == 0 {
        Seq::empty()
    } else {
        let rest = searched(items.drop_first(), kws, root);
        match items[0] {
            WalkItem::Entry(e) => if matches_all(e.name@, e.is_dir, kws) {
                seq![crate::entry::entry_model(e, root)] + rest
            } else {
                rest
            },
            WalkItem::Fault => rest,
        }
    }
}

/// Filters the items of a walk against the keywords. The whole search
/// fails with `IOError` exactly when any subtree was unreadable: a
/// silently partial result is never returned.
pub fn search_items(items: &Vec<WalkItem>, keywords: &Vec<Vec<u8>>, root: &Vec<u8>) -> (r: Result<
    Vec<FileEntry>,
    Error,
>)
    ensures
        r is Err <==> has_fault(items@),
        r matches Err(e) ==> e == Error::IOError,
        r matches Ok(v) ==> models(v@) == searched(
            items@,
            keywords@.map_values(|k: Vec<u8>| k@),
            root@,
        ),
{
    let ghost kws = keywords@.map_values(|k: Vec<u8>| k@);
    let mut out: Vec<FileEntry> = Vec::new();
    let mut i: usize = 0;
    proof {
        assert(items@.skip(0) =~= items@);
        assert(models(out@) + searched(items@, kws, root@) =~= searched(items@, kws, root@));
    }
    while i < items.len()
        invariant
            i <= items@.len(),
            kws == keywords@.map_values(|k: Vec<u8>| k@),
            searched(items@, kws, root@) =~= models(out@) + searched(
                items@.skip(i as int),
                kws,
                root@,
            ),
            forall|j: int| 0 <= j < i ==> !(#[trigger] items@[j] is Fault),
        decreases items@.len() - i,
    {
        let ghost rest = items@.skip(i as int);
        proof {
            assert(rest.drop_first() =~= items@.skip(i + 1 as int));
            assert(rest[0] == items@[i as int]);
        }
        match &items[i] {
            WalkItem::Entry(e) => {
                if contains_all_keywords(&e.name, e.is_dir, keywords) {
                    let ghost outg = out@;
                    out.push(entry_from(e, root));
                    proof {
                        assert(models(out@) =~= models(outg).push(
                            crate::entry::entry_model(*e, root@),
                        ));
                        assert(models(outg).push(crate::entry::entry_model(*e, root@)) + searched(
                            items@.skip(i + 1 as int),
                            kws,
                            root@,
                        ) =~= models(outg) + (seq![crate::entry::entry_model(*e, root@)]
                            + searched(items@.skip(i + 1 as int), kws, root@)));
                    }
                }
            },
            WalkItem::Fault => {
                proof {
                    assert(items@[i as int] is Fault);
                }
                return Err(Error::IOError);
            },
        }
        i = i + 1;
    }
    proof {
        assert(items@.skip(items@.len() as int) =~= Seq::<WalkItem>::empty());
        assert(models(out@) + Seq::<EntryModel>::empty() =~= models(out@));
    }
    Ok(out)
}

/// Splits a decoded query on `+` into its keywords.
pub fn split_keywords(decoded: &Vec<u8>) -> (r: Vec<Vec<u8>>)
    ensures
        r@.map_values(|k: Vec<u8>| k@) == split_seq(decoded@, 43),
{
    split_bytes(decoded, 43)
}

/// Searches the whole tree under `root` for the `+`-separated,
/// percent-encoded keyword query. `BadRequest` exactly when the query
/// fails to decode; `IOError` when any subtree was unreadable, in
/// which case no partial result is returned.
pub fn search_files(root: &Vec<u8>, query: &Vec<u8>) -> (r: Result<Vec<FileEntry>, Error>)
    ensures
        r == Err::<Vec<FileEntry>, Error>(Error::BadRequest) <==> !utf8_ok(percent_decode(query@)),
        r matches Err(e) ==> e == Error::BadRequest || e == Error::IOError,
        r matches Ok(v) ==> exists|items: Seq<WalkItem>|
            !has_fault(items) && models(v@) == searched(
                items,
                split_seq(percent_decode(query@), 43),
                root@,
            ),
{
    let decoded = match url_decode(query) {
        Option::None => {
            return Err(Error::BadRequest);
        },
        Option::Some(d) => d,
    };
    let keywords = split_keywords(&decoded);
    let items = walk_raw(root, 0, usize::MAX);
    match search_items(&items, &keywords, root) {
        Ok(v) => {
            proof {
                assert(!has_fault(items@) && models(v@) == searched(
                    items@,
                    split_seq(percent_decode(query@), 43),
                    root@,
                ));
            }
            Ok(v)
        },
        Err(e) => Err(e),
    }
}

} // verus!
