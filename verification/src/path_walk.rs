//! Paths as the user writes them: splitting a path into its names, the
//! folders that a path walks through, and the path that a chain of folders
//! spells.
use vstd::prelude::*;

use crate::db::first_match;
use crate::model::{
    child_named, children_of, is_child_of, path_of, path_segment, FileMetaView, FileType,
};

verus! {

/// The names finished so far and the name being read, after reading `s`
/// and cutting at each `/`.
pub open spec fn split_state(s: Seq<char>) -> (Seq<Seq<char>>, Seq<char>)
    decreases s.len(),
{
    if s.len() == 0 {
        (Seq::empty(), Seq::empty())
    } else {
        let (done, cur) = split_state(s.drop_last());
        if s.last() == '/' {
            (
                if cur.len() > 0 {
                    done.push(cur)
                } else {
                    done
                },
                Seq::empty(),
            )
        } else {
            (done, cur.push(s.last()))
        }
    }
}

/// The non-empty names of `s` between its `/`s.
pub open spec fn path_components(s: Seq<char>) -> Seq<Seq<char>> {
    let (done, cur) = split_state(s);
    if cur.len() > 0 {
        done.push(cur)
    } else {
        done
    }
}

/// Each name of `s` is non-empty and holds no `/`.
pub proof fn lemma_split_state_names(s: Seq<char>)
    ensures
        forall|j: int|
            0 <= j < split_state(s).0.len() ==> !(#[trigger] split_state(s).0[j]).contains('/')
                && split_state(s).0[j].len() > 0,
        !split_state(s).1.contains('/'),
    decreases s.len(),
{
    if s.len() > 0 {
        lemma_split_state_names(s.drop_last());
        let (done, cur) = split_state(s.drop_last());
        if s.last() != '/' {
            assert forall|k: int| 0 <= k < cur.push(s.last()).len() implies cur.push(s.last())[k]
                != '/' by {
                if k < cur.len() {
                    assert(!cur.contains('/'));
                    assert(cur[k] != '/');
                }
            }
        }
    }
}

pub proof fn lemma_components_names(s: Seq<char>)
    ensures
        forall|j: int|
            0 <= j < path_components(s).len() ==> !(#[trigger] path_components(s)[j]).contains(
                '/',
            ),
{
    lemma_split_state_names(s);
}

/// The folders `comps[a..b]`, each followed by `/`.
pub open spec fn folder_segments(comps: Seq<Seq<char>>, a: int, b: int) -> Seq<char>
    decreases b - a,
{
    if b <= a {
        Seq::empty()
    } else {
        folder_segments(comps, a, b - 1) + comps[b - 1].push('/')
    }
}

pub proof fn lemma_folder_segments_split(comps: Seq<Seq<char>>, a: int, b: int, c: int)
    requires
        a <= b <= c,
    ensures
        folder_segments(comps, a, b) + folder_segments(comps, b, c) == folder_segments(comps, a, c),
    decreases c - b,
{
    if b == c {
        assert(folder_segments(comps, a, b) + Seq::<char>::empty() =~= folder_segments(comps, a, b));
    } else {
        lemma_folder_segments_split(comps, a, b, c - 1);
        assert(folder_segments(comps, a, b) + (folder_segments(comps, b, c - 1) + comps[c - 1].push(
            '/',
        )) =~= (folder_segments(comps, a, b) + folder_segments(comps, b, c - 1)) + comps[c
            - 1].push('/'));
    }
}

/// The path that `comps` names: all folders where `is_folder`, otherwise
/// folders then a document.
pub open spec fn full_path(comps: Seq<Seq<char>>, is_folder: bool) -> Seq<char> {
    if is_folder {
        folder_segments(comps, 0, comps.len() as int)
    } else {
        folder_segments(comps, 0, comps.len() - 1) + comps[comps.len() - 1]
    }
}

pub open spec fn is_folder_named(f: FileMetaView, name: Seq<char>) -> bool {
    f.name == name && f.file_type == FileType::Folder
}

/// Walking `comps[i..]` down from folder `cur`: `None` where the whole path
/// already exists, otherwise the first name that no folder on the way holds
/// and the folder under which it is to be made.
pub open spec fn walk(records: Seq<FileMetaView>, cur: u128, comps: Seq<Seq<char>>, i: int) -> Option<
    (int, u128),
>
    decreases comps.len() - i,
{
    if i < 0 || i >= comps.len() {
        None
    } else if i == comps.len() - 1 {
        if child_named(records, cur, comps[i]) {
            None
        } else {
            Some((i, cur))
        }
    } else {
        match first_match(children_of(records, cur), |f: FileMetaView| is_folder_named(f, comps[i])) {
            Some(c) => walk(records, c.id, comps, i + 1),
            None => Some((i, cur)),
        }
    }
}

/// What `first_match` finds stands in the sequence and satisfies the
/// predicate, and nothing before it does.
pub proof fn lemma_first_match(s: Seq<FileMetaView>, pred: spec_fn(FileMetaView) -> bool)
    ensures
        first_match(s, pred) matches Some(x) ==> s.contains(x) && pred(x),
        first_match(s, pred) is None ==> forall|j: int| 0 <= j < s.len() ==> !pred(#[trigger] s[j]),
    decreases s.len(),
{
    if s.len() > 0 {
        lemma_first_match(s.drop_first(), pred);
        if !pred(s[0]) {
            match first_match(s.drop_first(), pred) {
                Some(x) => {
                    let k = choose|k: int| 0 <= k < s.drop_first().len() && s.drop_first()[k] == x;
                    assert(s[k + 1] == x);
                },
                None => {},
            }
            assert forall|j: int| 0 <= j < s.len() && first_match(s, pred) is None implies !pred(
                #[trigger] s[j],
            ) by {
                if j > 0 {
                    assert(s[j] == s.drop_first()[j - 1]);
                }
            }
        } else {
            assert(s[0] == s[0]);
        }
    }
}

/// A folder met on a walk that began at a root folder named `comps[0]` has,
/// with any fuel that finds it, the path that the names so far spell.
pub proof fn lemma_walk_path(
    m: Map<u128, FileMetaView>,
    records: Seq<FileMetaView>,
    x: u128,
    c: FileMetaView,
    comps: Seq<Seq<char>>,
    j: int,
    g: nat,
)
    requires
        m.contains_key(x),
        forall|k: u128| #[trigger] m.contains_key(k) ==> m[k].id == k,
        forall|g2: nat| #[trigger]
            path_of(m, x, g2) is Some ==> path_of(m, x, g2) == Some(folder_segments(comps, 0, j)),
        children_of(records, x).contains(c),
        records.contains(c) ==> m.contains_key(c.id) && m[c.id] == c,
        c.name == comps[j],
        c.file_type == FileType::Folder,
        0 <= j,
        path_of(m, c.id, g) is Some,
    ensures
        path_of(m, c.id, g) == Some(folder_segments(comps, 0, j + 1)),
{
    let pred = |f: FileMetaView| is_child_of(f, x);
    records.lemma_filter_contains_rev(pred, c);
    let k = choose|k: int| 0 <= k < children_of(records, x).len() && children_of(records, x)[k] == c;
    records.lemma_filter_pred(pred, k);
    assert(is_child_of(c, x));
    assert(m[c.id].parent == x && m[c.id].parent != c.id);
    assert(path_of(m, x, (g - 1) as nat) is Some);
}

/// The non-empty names of `path` between its `/`s.
pub fn split_path(path: &str) -> (r: Vec<String>)
    ensures
        r@.map_values(|c: String| c@) == path_components(path@),
{
    let n = path.unicode_len();
    let mut done: Vec<String> = Vec::new();
    let mut start: usize = 0;
    let mut i: usize = 0;
    while i < n
        invariant
            n == path@.len(),
            start <= i <= n,
            (done@.map_values(|c: String| c@), path@.subrange(start as int, i as int)) == split_state(
                path@.take(i as int),
            ),
        decreases n - i,
    {
        let ghost before = done@.map_values(|c: String| c@);
        let ghost cur = path@.subrange(start as int, i as int);
        assert(path@.take(i + 1).drop_last() =~= path@.take(i as int));
        assert(path@.take(i + 1).last() == path@[i as int]);
        let ch = path.get_char(i);
        if ch == '/' {
            if i > start {
                let part = path.substring_char(start, i).to_owned();
                done.push(part);
                assert(done@.map_values(|c: String| c@) =~= before.push(cur));
            }
            start = i + 1;
            assert(path@.subrange(start as int, (i + 1) as int) =~= Seq::<char>::empty());
        } else {
            assert(path@.subrange(start as int, (i + 1) as int) =~= cur.push(ch));
        }
        i = i + 1;
    }
    assert(path@.take(n as int) =~= path@);
    let ghost before = done@.map_values(|c: String| c@);
    if n > start {
        let part = path.substring_char(start, n).to_owned();
        done.push(part);
        assert(done@.map_values(|c: String| c@) =~= before.push(path@.subrange(start as int, n as int)));
    }
    done
}

} // verus!
