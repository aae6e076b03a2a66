//! Directory enumeration: the immediate children of a resolved
//! directory as structured entries. A child that cannot be statted is
//! excluded and the listing goes on; the order of the result is
//! whatever the filesystem chose, and the listing laws below say that
//! only the set of children matters.

use vstd::prelude::*;
use crate::entry::entry_from;
use crate::entry::entry_model;
use crate::entry::models;
use crate::entry::EntryModel;
use crate::entry::FileEntry;
use crate::error::Error;
use crate::fswrap::walk_raw;
use crate::fswrap::WalkItem;
use crate::resolve::ResolvedPath;

verus! {

/// The model a walk item contributes to a listing: its entry's model,
/// or nothing for a fault.
pub open spec fn item_model(it: WalkItem, root: Seq<u8>) -> Option<EntryModel> {
    match it {
        WalkItem::Entry(e) => Some(entry_model(e, root)),
        WalkItem::Fault => None,
    }
}

/// The entries of a walk, in walk order, faults excluded.
pub open spec fn listed(items: Seq<WalkItem>, root: Seq<u8>) -> Seq<EntryModel>
    decreases items.len(),
{
    if items.len() == 0 {
        Seq::empty()
    } else {
        let rest = listed(items.drop_first(), root);
        match item_model(items[0], root) {
            Some(m) => seq![m] + rest,
            None => rest,
        }
    }
}

/// A model is listed exactly when some walk item carries it.
pub proof fn lemma_listed_membership(items: Seq<WalkItem>, root: Seq<u8>, m: EntryModel)
    ensures
        listed(items, root).contains(m) <==> exists|j: int|
            0 <= j < items.len() && #[trigger] item_model(items[j], root) == Some(m),
    decreases items.len(),
{
    if items.len() == 0 {
    } else {
        let rest = items.drop_first();
        lemma_listed_membership(rest, root, m);
        let l = listed(items, root);
        let lr = listed(rest, root);
        assert(forall|j: int| 0 <= j < rest.len() ==> #[trigger] item_model(rest[j], root)
            == item_model(items[j + 1], root));
        match item_model(items[0], root) {
            Some(h) => {
                assert(l == seq![h] + lr);
                if l.contains(m) {
                    let k = choose|k: int| 0 <= k < l.len() && l[k] == m;
                    if k == 0 {
                        assert(item_model(items[0], root) == Some(m));
                    } else {
                        assert(lr[k - 1] == m);
                        assert(lr.contains(m));
                    }
                }
                if h == m {
                    assert(l[0] == m);
                    assert(l.contains(m));
                }
                if lr.contains(m) {
                    let k = choose|k: int| 0 <= k < lr.len() && lr[k] == m;
                    assert(l[k + 1] == m);
                    assert(l.contains(m));
                }
                if exists|j: int| 0 <= j < items.len() && #[trigger] item_model(items[j], root)
                    == Some(m) {
                    let j = choose|j: int|
                        0 <= j < items.len() && #[trigger] item_model(items[j], root) == Some(m);
                    if j > 0 {
                        assert(item_model(rest[j - 1], root) == Some(m));
                    }
                }
            },
            None => {
                assert(l == lr);
                if exists|j: int| 0 <= j < items.len() && #[trigger] item_model(items[j], root)
                    == Some(m) {
                    let j = choose|j: int|
                        0 <= j < items.len() && #[trigger] item_model(items[j], root) == Some(m);
                    assert(j > 0);
                    assert(item_model(rest[j - 1], root) == Some(m));
                }
                if lr.contains(m) {
                    let j = choose|j: int|
                        0 <= j < rest.len() && #[trigger] item_model(rest[j], root) == Some(m);
                    assert(item_model(items[j + 1], root) == Some(m));
                }
            },
        }
    }
}

/// Listing an unchanged directory is idempotent: two walks that yield
/// the same items, in whatever order and multiplicity, list the same
/// set of entries.
pub proof fn lemma_list_idempotent(a: Seq<WalkItem>, b: Seq<WalkItem>, root: Seq<u8>)
    requires
        forall|it: WalkItem| a.contains(it) <==> b.contains(it),
    ensures
        forall|m: EntryModel| listed(a, root).contains(m) <==> listed(b, root).contains(m),
{
    assert forall|m: EntryModel| listed(a, root).contains(m) <==> listed(b, root).contains(
        m,
    ) by {
        lemma_listed_membership(a, root, m);
        lemma_listed_membership(b, root, m);
        if listed(a, root).contains(m) {
            let j = choose|j: int| 0 <= j < a.len() && #[trigger] item_model(a[j], root) == Some(m);
            assert(a.contains(a[j]));
            assert(b.contains(a[j]));
            let k = choose|k: int| 0 <= k < b.len() && b[k] == a[j];
            assert(item_model(b[k], root) == Some(m));
        }
        if listed(b, root).contains(m) {
            let j = choose|j: int| 0 <= j < b.len() && #[trigger] item_model(b[j], root) == Some(m);
            assert(b.contains(b[j]));
            assert(a.contains(b[j]));
            let k = choose|k: int| 0 <= k < a.len() && a[k] == b[j];
            assert(item_model(a[k], root) == Some(m));
        }
    }
}

/// Turns the items of a walk into structured entries, excluding the
/// items that could not be statted.
pub fn list_items(items: &Vec<WalkItem>, root: &Vec<u8>) -> (r: Vec<FileEntry>)
    ensures
        models(r@) == listed(items@, root@),
{
    let mut out: Vec<FileEntry> = Vec::new();
    let mut i: usize = 0;
    proof {
        assert(items@.skip(0) =~= items@);
        assert(models(out@) + listed(items@, root@) =~= listed(items@, root@));
    }
    while i < items.len()
        invariant
            i <= items@.len(),
            listed(items@, root@) =~= models(out@) + listed(items@.skip(i as int), root@),
        decreases items@.len() - i,
    {
        let ghost rest = items@.skip(i as int);
        proof {
            assert(rest.drop_first() =~= items@.skip(i + 1 as int));
            assert(rest[0] == items@[i as int]);
        }
        match &items[i] {
            WalkItem::Entry(e) => {
                let ghost outg = out@;
                out.push(entry_from(e, root));
                proof {
                    assert(models(out@) =~= models(outg).push(entry_model(*e, root@)));
                    assert(models(outg).push(entry_model(*e, root@)) + listed(
                        items@.skip(i + 1 as int),
                        root@,
                    ) =~= models(outg) + (seq![entry_model(*e, root@)] + listed(
                        items@.skip(i + 1 as int),
                        root@,
                    )));
                }
            },
            WalkItem::Fault => {
            },
        }
        i = i + 1;
    }
    proof {
        assert(items@.skip(items@.len() as int) =~= Seq::<WalkItem>::empty());
        assert(models(out@) + Seq::<EntryModel>::empty() =~= models(out@));
    }
    out
}

/// Lists the immediate children of a resolved directory. `BadRequest`
/// exactly when the target is not a directory; a child that cannot be
/// statted is excluded rather than failing the listing.
pub fn list_dir(dir: &ResolvedPath, root: &Vec<u8>) -> (r: Result<Vec<FileEntry>, Error>)
    ensures
        r is Ok <==> dir.is_dir,
        r matches Err(e) ==> e == Error::BadRequest,
        r matches Ok(v) ==> exists|items: Seq<WalkItem>| models(v@) == listed(items, root@),
{
    if !dir.is_dir {
        return Err(Error::BadRequest);
    }
    let items = walk_raw(&dir.abs, 1, 1);
    let out = list_items(&items, root);
    proof {
        assert(models(out@) == listed(items@, root@));
    }
    Ok(out)
}

/// The full paths of a walk's entries, directories only when asked.
pub open spec fn child_paths_of(items: Seq<WalkItem>, only_dir: bool) -> Seq<Seq<u8>>
    decreases items.len(),
{
    if items.len() == 0 {
        Seq::empty()
    } else {
        let rest = child_paths_of(items.drop_first(), only_dir);
        match items[0] {
            WalkItem::Entry(e) => if !only_dir || e.is_dir {
                seq![e.path@] + rest
            } else {
                rest
            },
            WalkItem::Fault => rest,
        }
    }
}

/// Collects the full paths of walked entries, keeping only
/// directories when `only_dir` asks for that.
pub fn child_paths(items: &Vec<WalkItem>, only_dir: bool) -> (r: Vec<Vec<u8>>)
    ensures
        r@.map_values(|p: Vec<u8>| p@) == child_paths_of(items@, only_dir),
{
    let mut out: Vec<Vec<u8>> = Vec::new();
    let mut i: usize = 0;
    proof {
        assert(items@.skip(0) =~= items@);
        assert(out@.map_values(|p: Vec<u8>| p@) + child_paths_of(items@, only_dir)
            =~= child_paths_of(items@, only_dir));
    }
    while i < items.len()
        invariant
            i <= items@.len(),
            child_paths_of(items@, only_dir) =~= out@.map_values(|p: Vec<u8>| p@)
                + child_paths_of(items@.skip(i as int), only_dir),
        decreases items@.len() - i,
    {
        let ghost rest = items@.skip(i as int);
        proof {
            assert(rest.drop_first() =~= items@.skip(i + 1 as int));
            assert(rest[0] == items@[i as int]);
        }
        match &items[i] {
            WalkItem::Entry(e) => {
                if !only_dir || e.is_dir {
                    let ghost outg = out@;
                    out.push(crate::bytes::clone_bytes(&e.path));
                    proof {
                        assert(out@.map_values(|p: Vec<u8>| p@) =~= outg.map_values(
                            |p: Vec<u8>| p@,
                        ).push(e.path@));
                        assert(outg.map_values(|p: Vec<u8>| p@).push(e.path@) + child_paths_of(
                            items@.skip(i + 1 as int),
                            only_dir,
                        ) =~= outg.map_values(|p: Vec<u8>| p@) + (seq![e.path@] + child_paths_of(
                            items@.skip(i + 1 as int),
                            only_dir,
                        )));
                    }
                }
            },
            WalkItem::Fault => {
            },
        }
        i = i + 1;
    }
    proof {
        assert(items@.skip(items@.len() as int) =~= Seq::<WalkItem>::empty());
        assert(out@.map_values(|p: Vec<u8>| p@) + Seq::<Seq<u8>>::empty() =~= out@.map_values(
            |p: Vec<u8>| p@,
        ));
    }
    out
}

/// What the base path's stat decides for a listing: only a real
/// directory can be listed; anything else — missing, unreadable, a
/// regular file, or a symbolic link, which stats as neither file nor
/// directory — is a `BadRequest`.
pub open spec fn probe_verdict(items: Seq<WalkItem>) -> Result<(), Error> {
    if items.len() == 0 {
        Err(Error::BadRequest)
    } else {
        match items[0] {
            WalkItem::Entry(e) => if e.is_dir {
                Ok(())
            } else {
                Err(Error::BadRequest)
            },
            WalkItem::Fault => Err(Error::BadRequest),
        }
    }
}

/// Judges the stat outcome of a listing's base path.
pub fn probe_dir(items: &Vec<WalkItem>) -> (r: Result<(), Error>)
    ensures
        r == probe_verdict(items@),
{
    if items.len() == 0 {
        return Err(Error::BadRequest);
    }
    match &items[0] {
        WalkItem::Entry(e) => if e.is_dir {
            Ok(())
        } else {
            Err(Error::BadRequest)
        },
        WalkItem::Fault => Err(Error::BadRequest),
    }
}

/// Lists the children of `dir` as full paths, directories only when
/// `only_dir` asks; `BadRequest` when `dir` does not stat as a
/// directory (`probe_verdict`).
pub fn get_dir_content(dir: &Vec<u8>, only_dir: bool) -> (r: Result<Vec<Vec<u8>>, Error>)
    ensures
        r matches Err(e) ==> e == Error::BadRequest,
        r matches Ok(v) ==> exists|items: Seq<WalkItem>|
            v@.map_values(|p: Vec<u8>| p@) == child_paths_of(items, only_dir),
{
    let probe = walk_raw(dir, 0, 0);
    match probe_dir(&probe) {
        Err(e) => Err(e),
        Ok(_) => {
            let items = walk_raw(dir, 1, 1);
            let out = child_paths(&items, only_dir);
            proof {
                assert(out@.map_values(|p: Vec<u8>| p@) == child_paths_of(items@, only_dir));
            }
            Ok(out)
        },
    }
}

} // verus!
