//! Parsing of mount-table listings: each line's last
//! whitespace-separated word is a mountpoint when it opens with `/`.
//! The command that produces the listing runs outside the library;
//! only its text is interpreted here.

use vstd::prelude::*;
use crate::bytes::is_prefix;
use crate::bytes::split_bytes;
use crate::bytes::split_seq;
use crate::bytes::starts_with;
use crate::range::sub_bytes;

verus! {

/// Whitespace inside a mount-table line.
pub open spec fn is_ws(b: u8) -> bool {
    b == 32 || b == 9 || b == 13
}

/// `s` without its trailing whitespace.
pub open spec fn trim_end(s: Seq<u8>) -> Seq<u8>
    decreases s.len(),
{
    if s.len() > 0 && is_ws(s.last()) {
        trim_end(s.drop_last())
    } else {
        s
    }
}

/// Offset of the last whitespace byte of `s`, or -1 when there is none.
pub open spec fn last_ws(s: Seq<u8>) -> int
    decreases s.len(),
{
    if s.len() == 0 {
        -1
    } else if is_ws(s.last()) {
        s.len() - 1
    } else {
        last_ws(s.drop_last())
    }
}

/// What `last_ws` returns: the last whitespace, or -1 when there is none.
pub proof fn lemma_last_ws(s: Seq<u8>)
    ensures
        last_ws(s) >= 0 ==> last_ws(s) < s.len() && is_ws(s[last_ws(s)]) && forall|j: int|
            last_ws(s) < j < s.len() ==> !is_ws(s[j]),
        last_ws(s) < 0 ==> last_ws(s) == -1 && forall|j: int| 0 <= j < s.len() ==> !is_ws(s[j]),
    decreases s.len(),
{
    if s.len() == 0 {
    } else if is_ws(s.last()) {
    } else {
        lemma_last_ws(s.drop_last());
        assert forall|j: int| 0 <= j < s.len() - 1 implies s[j] == s.drop_last()[j] by {}
    }
}

/// Whitespace last occurs in `s` at `i` exactly when `i` holds
/// whitespace and no later offset does.
pub proof fn lemma_last_ws_at(s: Seq<u8>, i: int)
    requires
        0 <= i < s.len(),
        is_ws(s[i]),
        forall|j: int| i < j < s.len() ==> !is_ws(s[j]),
    ensures
        last_ws(s) == i,
{
    lemma_last_ws(s);
    if last_ws(s) < 0 {
        assert(!is_ws(s[i]));
    } else if last_ws(s) < i {
        assert(!is_ws(s[i]));
    } else if last_ws(s) > i {
        assert(!is_ws(s[last_ws(s)]));
    }
}

/// The last whitespace-separated word of a line: what follows the
/// last whitespace once trailing whitespace is dropped; empty when
/// the line holds nothing else.
pub open spec fn last_word(line: Seq<u8>) -> Seq<u8> {
    let t = trim_end(line);
    t.skip(last_ws(t) + 1)
}

/// Extracts the last whitespace-separated word of `line`.
pub fn last_word_of(line: &Vec<u8>) -> (r: Vec<u8>)
    ensures
        r@ == last_word(line@),
{
    let n = line.len();
    let mut end: usize = n;
    proof {
        assert(line@.take(n as int) =~= line@);
    }
    while end > 0 && (line[end - 1] == 32 || line[end - 1] == 9 || line[end - 1] == 13)
        invariant
            end <= n,
            n == line@.len(),
            trim_end(line@) == trim_end(line@.take(end as int)),
        decreases end,
    {
        proof {
            assert(line@.take(end as int).last() == line@[end - 1]);
            assert(line@.take(end as int).drop_last() =~= line@.take(end - 1));
        }
        end = end - 1;
    }
    let ghost t = line@.take(end as int);
    proof {
        if end > 0 {
            assert(t.last() == line@[end - 1]);
            assert(!is_ws(t.last()));
        }
        assert(trim_end(t) == t);
        assert(trim_end(line@) == t);
    }
    let mut i: usize = end;
    while i > 0
        invariant
            i <= end <= n,
            n == line@.len(),
            t == line@.take(end as int),
            trim_end(line@) == t,
            forall|j: int| i <= j < end ==> !is_ws(#[trigger] t[j]),
        decreases i,
    {
        let b = line[i - 1];
        if b == 32 || b == 9 || b == 13 {
            proof {
                assert(t[i - 1] == line@[i - 1]);
                lemma_last_ws_at(t, i - 1);
            }
            let w = sub_bytes(line, i, end);
            proof {
                assert(w@ =~= t.skip(i as int));
            }
            return w;
        }
        i = i - 1;
    }
    proof {
        lemma_last_ws(t);
        if last_ws(t) >= 0 {
            assert(!is_ws(t[last_ws(t)]));
        }
        assert(last_ws(t) < 0);
    }
    let w = sub_bytes(line, 0, end);
    proof {
        assert(w@ =~= t.skip(0));
        assert(last_ws(t) == -1);
        assert(last_word(line@) == t.skip(0));
    }
    w
}

/// The bytes of the literal `/System`.
pub open spec fn system_prefix() -> Seq<u8> {
    seq![47u8, 83u8, 121u8, 115u8, 116u8, 101u8, 109u8]
}

/// A line reports a mountpoint when its last word opens with `/`, and
/// for the form that hides system volumes, does not open with
/// `/System`.
pub open spec fn is_mount_word(w: Seq<u8>, exclude_system: bool) -> bool {
    w.len() > 0 && w[0] == 47 && !(exclude_system && is_prefix(w, system_prefix()))
}

/// The mountpoints of a sequence of lines, in order.
pub open spec fn mounts_of_lines(lines: Seq<Seq<u8>>, exclude_system: bool) -> Seq<Seq<u8>>
    decreases lines.len(),
{
    if lines.len() == 0 {
        Seq::empty()
    } else {
        let rest = mounts_of_lines(lines.drop_first(), exclude_system);
        if is_mount_word(last_word(lines[0]), exclude_system) {
            seq![last_word(lines[0])] + rest
        } else {
            rest
        }
    }
}

/// The mountpoints a mount-table listing reports.
pub open spec fn mount_points(out: Seq<u8>, exclude_system: bool) -> Seq<Seq<u8>> {
    mounts_of_lines(split_seq(out, 10), exclude_system)
}

/// Parses a mount-table listing into its mountpoints: the last word
/// of each line that opens with `/`, excluding `/System` volumes when
/// asked to.
pub fn parse_volume_lines(out: &Vec<u8>, exclude_system: bool) -> (r: Vec<Vec<u8>>)
    ensures
        r@.map_values(|p: Vec<u8>| p@) == mount_points(out@, exclude_system),
{
    let lines = split_bytes(out, 10);
    let ghost lviews = lines@.map_values(|t: Vec<u8>| t@);
    let sys: Vec<u8> = vec![47u8, 83u8, 121u8, 115u8, 116u8, 101u8, 109u8];
    proof {
        assert(sys@ =~= system_prefix());
    }
    let mut found: Vec<Vec<u8>> = Vec::new();
    let mut i: usize = 0;
    proof {
        assert(lviews.skip(0) =~= lviews);
        assert(found@.map_values(|p: Vec<u8>| p@) + mounts_of_lines(lviews, exclude_system)
            =~= mounts_of_lines(lviews, exclude_system));
    }
    while i < lines.len()
        invariant
            i <= lines@.len(),
            sys@ == system_prefix(),
            lviews == lines@.map_values(|t: Vec<u8>| t@),
            mounts_of_lines(lviews, exclude_system) =~= found@.map_values(|p: Vec<u8>| p@)
                + mounts_of_lines(lviews.skip(i as int), exclude_system),
        decreases lines@.len() - i,
    {
        let ghost rest = lviews.skip(i as int);
        proof {
            assert(rest.drop_first() =~= lviews.skip(i + 1 as int));
            assert(rest[0] == lviews[i as int]);
            assert(lviews[i as int] == lines@[i as int]@);
        }
        let w = last_word_of(&lines[i]);
        let keep = w.len() > 0 && w[0] == 47 && !(exclude_system && starts_with(&w, &sys));
        proof {
            assert(keep == is_mount_word(last_word(lviews[i as int]), exclude_system));
        }
        if keep {
            let ghost foundg = found@;
            found.push(w);
            proof {
                assert(found@.map_values(|p: Vec<u8>| p@) =~= foundg.map_values(
                    |p: Vec<u8>| p@,
                ).push(last_word(lviews[i as int])));
                assert(foundg.map_values(|p: Vec<u8>| p@).push(last_word(lviews[i as int]))
                    + mounts_of_lines(lviews.skip(i + 1 as int), exclude_system) =~= foundg
                    .map_values(|p: Vec<u8>| p@) + (seq![last_word(lviews[i as int])]
                    + mounts_of_lines(lviews.skip(i + 1 as int), exclude_system)));
            }
        }
        i = i + 1;
    }
    proof {
        assert(lviews.skip(lviews.len() as int) =~= Seq::<Seq<u8>>::empty());
        assert(found@.map_values(|p: Vec<u8>| p@) + Seq::<Seq<u8>>::empty() =~= found@.map_values(
            |p: Vec<u8>| p@,
        ));
    }
    found
}

} // verus!
