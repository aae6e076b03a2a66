//! The structured entries that listings and searches return, and the
//! deterministic classification of a file as text or binary by its
//! extension alone (no file is ever opened to classify it).

use vstd::prelude::*;
use crate::bytes::clone_bytes;
use crate::bytes::eq_bytes;
use crate::bytes::is_prefix;
use crate::bytes::lower_seq;
use crate::bytes::push_all;
use crate::bytes::starts_with;
use crate::bytes::to_lower;
use crate::fswrap::RawEntry;
use crate::range::sub_bytes;

verus! {

/// What a listed or found entry is.
#[derive(Clone, Copy, Debug, PartialEq, Eq, Structural)]
pub enum FileKind {
    /// A directory.
    Directory,
    /// A regular file with a known text extension.
    Text,
    /// Any other regular file (or anything that is neither).
    Binary,
}

/// One entry of a listing or a search result, produced fresh from a
/// stat and never mutated afterwards.
#[derive(Debug)]
pub struct FileEntry {
    /// The bare file name.
    pub name: Vec<u8>,
    /// The path relative to the storage root.
    pub relative_path: Vec<u8>,
    /// Directory, text file or binary file.
    pub kind: FileKind,
    /// Size in bytes.
    pub size: u64,
    /// Modification time, seconds since the epoch.
    pub modified: u64,
}

/// The mathematical shape of a `FileEntry`.
pub ghost struct EntryModel {
    /// The bare file name.
    pub name: Seq<u8>,
    /// The path relative to the storage root.
    pub relative_path: Seq<u8>,
    /// Directory, text file or binary file.
    pub kind: FileKind,
    /// Size in bytes.
    pub size: u64,
    /// Modification time, seconds since the epoch.
    pub modified: u64,
}

impl View for FileEntry {
    type V = EntryModel;

    open spec fn view(&self) -> EntryModel {
        EntryModel {
            name: self.name@,
            relative_path: self.relative_path@,
            kind: self.kind,
            size: self.size,
            modified: self.modified,
        }
    }
}

/// The models of a sequence of entries.
pub open spec fn models(v: Seq<FileEntry>) -> Seq<EntryModel> {
    v.map_values(|e: FileEntry| e@)
}

/// Offset of the last `.` in `s`, or -1 when there is none.
pub open spec fn last_dot(s: Seq<u8>) -> int
    decreases s.len(),
{
    if s.len() == 0 {
        -1
    } else if s.last() == 46 {
        s.len() - 1
    } else {
        last_dot(s.drop_last())
    }
}

/// What `last_dot` returns: the last occurrence, or -1 when there is none.
pub proof fn lemma_last_dot(s: Seq<u8>)
    ensures
        last_dot(s) >= 0 ==> last_dot(s) < s.len() && s[last_dot(s)] == 46 && forall|j: int|
            last_dot(s) < j < s.len() ==> s[j] != 46,
        last_dot(s) < 0 ==> forall|j: int| 0 <= j < s.len() ==> s[j] != 46,
    decreases s.len(),
{
    if s.len() == 0 {
    } else if s.last() == 46 {
    } else {
        lemma_last_dot(s.drop_last());
        assert forall|j: int| 0 <= j < s.len() - 1 implies s[j] == s.drop_last()[j] by {}
    }
}

/// `.` last occurs in `s` at `i` exactly when `i` holds `.` and no
/// later offset does.
pub proof fn lemma_last_dot_at(s: Seq<u8>, i: int)
    requires
        0 <= i < s.len(),
        s[i] == 46,
        forall|j: int| i < j < s.len() ==> s[j] != 46,
    ensures
        last_dot(s) == i,
{
    lemma_last_dot(s);
    if last_dot(s) < 0 {
        assert(s[i] != 46);
    } else if last_dot(s) < i {
        assert(s[i] != 46);
    } else if last_dot(s) > i {
        assert(s[last_dot(s)] != 46);
    }
}

/// The extension of a file name: what follows the last `.`, provided
/// that dot is not the leading byte (a name that only opens with a dot
/// has no extension).
pub open spec fn ext_of(name: Seq<u8>) -> Option<Seq<u8>> {
    if last_dot(name) > 0 {
        Some(name.skip(last_dot(name) + 1))
    } else {
        None
    }
}

/// Extracts the extension of `name`, if any.
pub fn ext_from(name: &Vec<u8>) -> (r: Option<Vec<u8>>)
    ensures
        match r {
            Some(e) => ext_of(name@) == Some(e@),
            None => ext_of(name@) is None,
        },
{
    let n = name.len();
    let mut i: usize = n;
    while i > 0
        invariant
            i <= n,
            n == name@.len(),
            forall|j: int| i <= j < n ==> name@[j] != 46,
        decreases i,
    {
        if name[i - 1] == 46 {
            proof {
                lemma_last_dot_at(name@, i - 1);
            }
            if i == 1 {
                return None;
            }
            let e = sub_bytes(name, i, n);
            proof {
                assert(e@ =~= name@.skip(i as int));
            }
            return Some(e);
        }
        i = i - 1;
    }
    proof {
        lemma_last_dot(name@);
        if last_dot(name@) >= 0 {
            assert(name@[last_dot(name@)] != 46);
        }
    }
    None
}

/// The lower-case extensions treated as text.
pub open spec fn is_text_ext(e: Seq<u8>) -> bool {
    ||| e == seq![116u8, 120u8, 116u8]  // txt
    ||| e == seq![109u8, 100u8]  // md
    ||| e == seq![106u8, 115u8, 111u8, 110u8]  // json
    ||| e == seq![106u8, 115u8]  // js
    ||| e == seq![99u8, 115u8, 115u8]  // css
    ||| e == seq![104u8, 116u8, 109u8, 108u8]  // html
    ||| e == seq![120u8, 109u8, 108u8]  // xml
    ||| e == seq![121u8, 109u8, 108u8]  // yml
    ||| e == seq![116u8, 111u8, 109u8, 108u8]  // toml
    ||| e == seq![108u8, 111u8, 103u8]  // log
    ||| e == seq![99u8, 115u8, 118u8]  // csv
    ||| e == seq![115u8, 104u8]  // sh
    ||| e == seq![112u8, 121u8]  // py
    ||| e == seq![114u8, 115u8]  // rs
}

/// Whether the lower-case extension `e` is a text extension.
fn is_text_extension(e: &Vec<u8>) -> (r: bool)
    ensures
        r == is_text_ext(e@),
{
    let lits: Vec<Vec<u8>> = vec![
        vec![116u8, 120u8, 116u8],
        vec![109u8, 100u8],
        vec![106u8, 115u8, 111u8, 110u8],
        vec![106u8, 115u8],
        vec![99u8, 115u8, 115u8],
        vec![104u8, 116u8, 109u8, 108u8],
        vec![120u8, 109u8, 108u8],
        vec![121u8, 109u8, 108u8],
        vec![116u8, 111u8, 109u8, 108u8],
        vec![108u8, 111u8, 103u8],
        vec![99u8, 115u8, 118u8],
        vec![115u8, 104u8],
        vec![112u8, 121u8],
        vec![114u8, 115u8],
    ];
    let mut i: usize = 0;
    let mut hit = false;
    while i < lits.len()
        invariant
            i <= lits@.len(),
            lits@.len() == 14,
            lits@[0]@ == seq![116u8, 120u8, 116u8],
            lits@[1]@ == seq![109u8, 100u8],
            lits@[2]@ == seq![106u8, 115u8, 111u8, 110u8],
            lits@[3]@ == seq![106u8, 115u8],
            lits@[4]@ == seq![99u8, 115u8, 115u8],
            lits@[5]@ == seq![104u8, 116u8, 109u8, 108u8],
            lits@[6]@ == seq![120u8, 109u8, 108u8],
            lits@[7]@ == seq![121u8, 109u8, 108u8],
            lits@[8]@ == seq![116u8, 111u8, 109u8, 108u8],
            lits@[9]@ == seq![108u8, 111u8, 103u8],
            lits@[10]@ == seq![99u8, 115u8, 118u8],
            lits@[11]@ == seq![115u8, 104u8],
            lits@[12]@ == seq![112u8, 121u8],
            lits@[13]@ == seq![114u8, 115u8],
            hit ==> is_text_ext(e@),
            !hit ==> forall|j: int| 0 <= j < i ==> e@ != lits@[j]@,
        decreases lits@.len() - i,
    {
        if eq_bytes(e, &lits[i]) {
            hit = true;
        }
        i = i + 1;
    }
    proof {
        if !hit {
            assert(e@ != lits@[0]@);
            assert(e@ != lits@[1]@);
            assert(e@ != lits@[2]@);
            assert(e@ != lits@[3]@);
            assert(e@ != lits@[4]@);
            assert(e@ != lits@[5]@);
            assert(e@ != lits@[6]@);
            assert(e@ != lits@[7]@);
            assert(e@ != lits@[8]@);
            assert(e@ != lits@[9]@);
            assert(e@ != lits@[10]@);
            assert(e@ != lits@[11]@);
            assert(e@ != lits@[12]@);
            assert(e@ != lits@[13]@);
        }
    }
    hit
}

/// The kind of an entry: directories are directories, files with a
/// known text extension (compared case-insensitively) are text, and
/// everything else is binary.
pub open spec fn kind_of(name: Seq<u8>, is_dir: bool) -> FileKind {
    if is_dir {
        FileKind::Directory
    } else {
        match ext_of(name) {
            Some(e) => if is_text_ext(lower_seq(e)) {
                FileKind::Text
            } else {
                FileKind::Binary
            },
            None => FileKind::Binary,
        }
    }
}

/// Classifies an entry by name and kind flag alone.
pub fn classify(name: &Vec<u8>, is_dir: bool) -> (r: FileKind)
    ensures
        r == kind_of(name@, is_dir),
{
    if is_dir {
        return FileKind::Directory;
    }
    match ext_from(name) {
        Some(e) => {
            let low = to_lower(&e);
            if is_text_extension(&low) {
                FileKind::Text
            } else {
                FileKind::Binary
            }
        },
        None => FileKind::Binary,
    }
}

/// The path relative to `root`: `root/<rel>` loses the root and the
/// separator, the root itself becomes empty, and anything else (which
/// a well-formed walk never yields) is kept as it came.
pub open spec fn rel_of(root: Seq<u8>, path: Seq<u8>) -> Seq<u8> {
    if path.len() >= root.len() + 1 && is_prefix(path, root + seq![47u8]) {
        path.skip(root.len() + 1 as int)
    } else if path == root {
        Seq::empty()
    } else {
        path
    }
}

/// Strips the storage root from a walked path.
pub fn rel_from(path: &Vec<u8>, root: &Vec<u8>) -> (r: Vec<u8>)
    ensures
        r@ == rel_of(root@, path@),
{
    let mut rootslash: Vec<u8> = Vec::new();
    push_all(&mut rootslash, root);
    rootslash.push(47);
    proof {
        assert(rootslash@ =~= root@ + seq![47u8]);
    }
    if starts_with(path, &rootslash) {
        let rl = rootslash.len();
        let r = sub_bytes(path, rl, path.len());
        proof {
            assert(r@ =~= path@.skip(root@.len() + 1 as int));
        }
        r
    } else if eq_bytes(path, root) {
        Vec::new()
    } else {
        clone_bytes(path)
    }
}

/// The model of the entry a raw walked object turns into.
pub open spec fn entry_model(e: RawEntry, root: Seq<u8>) -> EntryModel {
    EntryModel {
        name: e.name@,
        relative_path: rel_of(root, e.path@),
        kind: kind_of(e.name@, e.is_dir),
        size: e.size,
        modified: e.modified,
    }
}

/// Builds the structured entry for a raw walked object.
pub fn entry_from(e: &RawEntry, root: &Vec<u8>) -> (r: FileEntry)
    ensures
        r@ == entry_model(*e, root@),
{
    FileEntry {
        name: clone_bytes(&e.name),
        relative_path: rel_from(&e.path, root),
        kind: classify(&e.name, e.is_dir),
        size: e.size,
        modified: e.modified,
    }
}

} // verus!
