//! The walker at the filesystem boundary. Everything the core learns
//! about the storage tree arrives here as plain values; what a walk
//! yields depends on the disk, so nothing is promised about it and all
//! logic downstream handles every outcome.

use vstd::prelude::*;

verus! {

/// One filesystem object as the walker reports it.
pub struct RawEntry {
    /// The full path the walker visited.
    pub path: Vec<u8>,
    /// The bare file name, the last path component.
    pub name: Vec<u8>,
    /// The object is a directory (symbolic links are neither this nor a file).
    pub is_dir: bool,
    /// The object is a regular file.
    pub is_file: bool,
    /// Size in bytes.
    pub size: u64,
    /// Modification time, seconds since the epoch; zero when unavailable.
    pub modified: u64,
}

/// One item of a tree walk: an entry, or a failure to read or stat one.
pub enum WalkItem {
    /// A successfully read and statted object.
    Entry(RawEntry),
    /// A subtree or entry that could not be read or statted.
    Fault,
}

#[verifier::external_type_specification]
#[verifier::external_body]
pub struct ExDirEntry(walkdir::DirEntry);

/// Relies on `walkdir::DirEntry`'s accessors (`file_name`, `path`,
/// `metadata`): copies name, path, kind, size and modification time
/// into plain values; a stat failure becomes a fault item.
#[verifier::external_body]
fn item_of(d: &walkdir::DirEntry) -> (r: WalkItem) {
    let md = match d.metadata() {
        Ok(md) => md,
        Err(_) => return WalkItem::Fault,
    };
    let modified = md.modified().ok().and_then(
        |t| t.duration_since(std::time::UNIX_EPOCH).ok(),
    ).map(|u| u.as_secs()).unwrap_or(0);
    WalkItem::Entry(RawEntry {
        path: d.path().to_string_lossy().into_owned().into_bytes(),
        name: d.file_name().to_string_lossy().into_owned().into_bytes(),
        is_dir: md.is_dir(),
        is_file: md.is_file(),
        size: md.len(),
        modified,
    })
}

/// Relies on `walkdir::WalkDir`: walks `root` between the two depths,
/// never following symbolic links (not even a link given as the root),
/// yielding entries in an order the filesystem chooses; unreadable
/// subtrees come through as fault items. What comes back depends on
/// the disk, so no outcome is promised.
#[verifier::external_body]
pub(crate) fn walk_raw(root: &Vec<u8>, lo: usize, hi: usize) -> (items: Vec<WalkItem>) {
    let path = String::from_utf8_lossy(root.as_slice()).into_owned();
    let walker = walkdir::WalkDir::new(&path)
        .follow_links(false)
        .follow_root_links(false)
        .min_depth(lo)
        .max_depth(hi);
    let mut items: Vec<WalkItem> = Vec::new();
    for e in walker {
        items.push(match e {
            Ok(d) => item_of(&d),
            Err(_) => WalkItem::Fault,
        });
    }
    items
}

} // verus!
