//! Properties that span several operations of the library.
use vstd::prelude::*;

use crate::billing::{
    data_cap_of, BillingPlatform, GooglePlayAccountState, FREE_TIER_USAGE_SIZE, PREMIUM_TIER_USAGE_SIZE,
};
use crate::chat_poll::{is_new_message, new_messages, MessageView};
use crate::keyboard::{egui_key_of, key_of_code, lemma_key_code_roundtrip, EguiKey, NSKeys};
use crate::path_walk::{is_folder_named, lemma_first_match, path_components, walk};
use crate::db::{first_match, is_root, FileDb};
use crate::file_service::{at_path_type, holds_content, id_taken, made_at_path, path_plan, root_matches};
use crate::model::{
    change_is_empty, children_of, current_change, is_child_of, moved_change, renamed_change,
    store_change, ChangeView, FileMetaView, FileType,
};

verus! {

/// The change log records only non-empty changes, each under its file's id.
pub open spec fn change_log_ok(changes: Map<u128, ChangeView>) -> bool {
    forall|k: u128| #[trigger]
        changes.contains_key(k) ==> changes[k].id == k && !change_is_empty(changes[k])
}

/// Every update of the change log keeps it clean: writing a change for a
/// file, which drops the file's entry where the change records nothing, and
/// forgetting a file's entry both leave only non-empty changes, each under
/// its own file's id. The empty log of a new store is clean.
pub proof fn law_change_log_stays_clean(changes: Map<u128, ChangeView>, c: ChangeView, id: u128)
    requires
        change_log_ok(changes),
    ensures
        change_log_ok(store_change(changes, c)),
        change_log_ok(changes.remove(id)),
        change_log_ok(Map::<u128, ChangeView>::empty()),
{
}

/// Searching `a + b` finds what searching `a` finds, and otherwise what
/// searching `b` finds.
proof fn lemma_first_match_add(a: Seq<FileMetaView>, b: Seq<FileMetaView>, pred: spec_fn(FileMetaView) -> bool)
    ensures
        first_match(a + b, pred) == (if first_match(a, pred) is Some {
            first_match(a, pred)
        } else {
            first_match(b, pred)
        }),
    decreases a.len(),
{
    if a.len() == 0 {
        assert(a + b =~= b);
    } else {
        assert((a + b)[0] == a[0]);
        assert((a + b).drop_first() =~= a.drop_first() + b);
        lemma_first_match_add(a.drop_first(), b, pred);
    }
}

/// Filtering a sequence none of whose items passes gives nothing.
proof fn lemma_filter_none(s: Seq<FileMetaView>, q: spec_fn(FileMetaView) -> bool)
    requires
        forall|i: int| 0 <= i < s.len() ==> !q(#[trigger] s[i]),
    ensures
        s.filter(q).len() == 0,
{
    if s.filter(q).len() > 0 {
        let x = s.filter(q)[0];
        s.lemma_filter_pred(q, 0);
        assert(s.filter(q).contains(x));
        s.lemma_filter_contains_rev(q, x);
    }
}

/// Adding records behind the table does not change a walk through the old
/// folders: it reaches the folder where the old walk stopped.
proof fn lemma_walk_extend(
    r: Seq<FileMetaView>,
    fs: Seq<FileMetaView>,
    x: u128,
    cs: Seq<Seq<char>>,
    j: int,
    i0: int,
    c0: u128,
)
    requires
        walk(r, x, cs, j) == Some((i0, c0)),
        exists|k: int| 0 <= k < r.len() && r[k].id == x,
    ensures
        walk(r + fs, x, cs, j) == walk(r + fs, c0, cs, i0),
        walk(r, c0, cs, i0) == Some((i0, c0)),
        j <= i0,
        exists|k: int| 0 <= k < r.len() && r[k].id == c0,
    decreases cs.len() - j,
{
    if j < cs.len() - 1 {
        let pred = |f: FileMetaView| is_folder_named(f, cs[j]);
        match first_match(children_of(r, x), pred) {
            Some(c) => {
                lemma_first_match(children_of(r, x), pred);
                r.lemma_filter_contains_rev(|f: FileMetaView| is_child_of(f, x), c);
                let k = choose|k: int| 0 <= k < r.len() && r[k] == c;
                assert(r[k].id == c.id);
                Seq::filter_distributes_over_add(r, fs, |f: FileMetaView| is_child_of(f, x));
                lemma_first_match_add(children_of(r, x), children_of(fs, x), pred);
                lemma_walk_extend(r, fs, c.id, cs, j + 1, i0, c0);
            },
            None => {},
        }
    }
}

/// A walk from name `j` stops at name `j` or later.
proof fn lemma_walk_index(r: Seq<FileMetaView>, x: u128, cs: Seq<Seq<char>>, j: int)
    ensures
        walk(r, x, cs, j) matches Some((i, c)) ==> j <= i,
    decreases cs.len() - j,
{
    if 0 <= j < cs.len() - 1 {
        match first_match(children_of(r, x), |f: FileMetaView| is_folder_named(f, cs[j])) {
            Some(c) => {
                lemma_walk_index(r, c.id, cs, j + 1);
            },
            None => {},
        }
    }
}

/// Past the folder where the old walk stopped, the walk goes down the new
/// files to the last one, so the whole path exists.
#[verifier::spinoff_prover]
proof fn lemma_walk_new(
    r: Seq<FileMetaView>,
    fs: Seq<FileMetaView>,
    cs: Seq<Seq<char>>,
    is_folder: bool,
    i0: int,
    c0: u128,
    t: int,
)
    requires
        1 <= i0,
        i0 + fs.len() == cs.len(),
        0 <= t < fs.len(),
        walk(r, c0, cs, i0) == Some((i0, c0)),
        forall|u: int|
            #![trigger fs[u].parent]
            #![trigger fs[u].name]
            #![trigger fs[u].file_type]
            0 <= u < fs.len() ==> fs[u].name == cs[i0 + u] && fs[u].parent == (if u == 0 {
                c0
            } else {
                fs[u - 1].id
            }) && fs[u].file_type == at_path_type(cs, is_folder, i0 + u),
        forall|u: int, v: int| 0 <= u < fs.len() && 0 <= v < fs.len() && u != v ==> fs[u].id != fs[v].id,
        forall|u: int| 0 <= u < fs.len() ==> (#[trigger] fs[u]).id != c0,
        forall|u: int| 0 <= u < fs.len() ==> children_of(r, (#[trigger] fs[u]).id).len() == 0,
    ensures
        walk(r + fs, if t == 0 {
            c0
        } else {
            fs[t - 1].id
        }, cs, i0 + t) is None,
    decreases fs.len() - t,
{
    let n = r + fs;
    let p = if t == 0 {
        c0
    } else {
        fs[t - 1].id
    };
    let j = i0 + t;
    let ft = fs[t];
    assert(fs[t].parent == p);
    assert(n[r.len() + t] == ft);
    assert(is_child_of(ft, p));
    if j == cs.len() - 1 {
        assert(is_child_of(n[r.len() + t], p) && n[r.len() + t].name == cs[j]);
    } else {
        let pred = |f: FileMetaView| is_folder_named(f, cs[j]);
        let q = |f: FileMetaView| is_child_of(f, p);
        assert forall|u: int| 0 <= u < t implies !q(#[trigger] fs[u]) by {
            if u > 0 {
                assert(fs[u - 1].id != fs[t - 1].id);
            }
        }
        lemma_filter_head(fs, t, q);
        assert(ft.file_type == FileType::Folder);
        assert(pred(children_of(fs, p)[0]));
        assert(first_match(children_of(fs, p), pred) == Some(ft));
        if t > 0 {
            assert(children_of(r, fs[t - 1].id).len() == 0);
        } else {
            match first_match(children_of(r, c0), pred) {
                Some(c) => {
                    lemma_walk_index(r, c.id, cs, i0 + 1);
                },
                None => {},
            }
        }
        assert(first_match(children_of(r, p), pred) is None);
        Seq::filter_distributes_over_add(r, fs, q);
        lemma_first_match_add(children_of(r, p), children_of(fs, p), pred);
        assert(first_match(children_of(n, p), pred) == Some(ft));
        assert forall|u: int|
            #![trigger fs[u].parent]
            #![trigger fs[u].name]
            #![trigger fs[u].file_type]
            0 <= u < fs.len() implies fs[u].name == cs[i0 + u] && fs[u].parent == (if u == 0 {
                c0
            } else {
                fs[u - 1].id
            }) && fs[u].file_type == at_path_type(cs, is_folder, i0 + u) by {
            assert(fs[u].parent == (if u == 0 { c0 } else { fs[u - 1].id }));
        }
        lemma_walk_new(r, fs, cs, is_folder, i0, c0, t + 1);
    }
}

/// Where item `t` is the first that passes, it heads the filtered sequence.
proof fn lemma_filter_head(s: Seq<FileMetaView>, t: int, q: spec_fn(FileMetaView) -> bool)
    requires
        0 <= t < s.len(),
        forall|u: int| 0 <= u < t ==> !q(#[trigger] s[u]),
        q(s[t]),
    ensures
        s.filter(q).len() > 0,
        s.filter(q)[0] == s[t],
{
    assert(s =~= s.take(t) + s.skip(t));
    Seq::filter_distributes_over_add(s.take(t), s.skip(t), q);
    assert forall|u: int| 0 <= u < s.take(t).len() implies !q(#[trigger] s.take(t)[u]) by {
        assert(s.take(t)[u] == s[u]);
    }
    lemma_filter_none(s.take(t), q);
    let one = seq![s[t]];
    assert(s.skip(t) =~= one + s.skip(t + 1));
    Seq::filter_distributes_over_add(one, s.skip(t + 1), q);
    reveal_with_fuel(Seq::filter, 2);
    assert(one.drop_last() =~= Seq::<FileMetaView>::empty());
    assert(one.filter(q) =~= one);
    let x = one + s.skip(t + 1).filter(q);
    assert(x[0] == s[t]);
    assert(s.take(t).filter(q) + x =~= x);
}

/// Files added behind the table keep the root, which stands in the table.
proof fn lemma_root_kept(old: FileDb, new: FileDb, fs: Seq<FileMetaView>)
    requires
        new.records() == old.records() + fs,
        old.root() is Some,
    ensures
        new.root() == old.root(),
        exists|k: int| 0 <= k < old.records().len() && old.records()[k].id == old.root()->Some_0.id,
{
    let r = old.records();
    lemma_first_match(r, |f: FileMetaView| is_root(f));
    lemma_first_match_add(r, fs, |f: FileMetaView| is_root(f));
    let k = choose|k: int| 0 <= k < r.len() && r[k] == old.root()->Some_0;
    assert(r[k].id == old.root()->Some_0.id);
}

/// The files added behind the table have distinct ids, none that of a file
/// already there, and no file already there stands under one of them.
proof fn lemma_new_ids(old: FileDb, new: FileDb, fs: Seq<FileMetaView>, c0: u128)
    requires
        new.wf(),
        new.records() == old.records() + fs,
        exists|k: int| 0 <= k < old.records().len() && old.records()[k].id == c0,
        forall|t: int| 0 <= t < fs.len() ==> !id_taken(old, #[trigger] fs[t].id),
    ensures
        forall|u: int, v: int| 0 <= u < fs.len() && 0 <= v < fs.len() && u != v ==> fs[u].id != fs[v].id,
        forall|u: int| 0 <= u < fs.len() ==> (#[trigger] fs[u]).id != c0,
        forall|u: int| 0 <= u < fs.len() ==> children_of(old.records(), (#[trigger] fs[u]).id).len() == 0,
{
    let r = old.records();
    new.lemma_wf();
    assert forall|u: int, v: int| 0 <= u < fs.len() && 0 <= v < fs.len() && u != v implies fs[u].id != fs[v].id by {
        assert(new.records()[r.len() + u] == fs[u]);
        assert(new.records()[r.len() + v] == fs[v]);
    }
    let kc = choose|kc: int| 0 <= kc < r.len() && r[kc].id == c0;
    assert forall|u: int| 0 <= u < fs.len() implies (#[trigger] fs[u]).id != c0 by {
        assert(new.records()[r.len() + u] == fs[u]);
        assert(new.records()[kc] == r[kc]);
    }
    assert forall|u: int| 0 <= u < fs.len() implies children_of(r, (#[trigger] fs[u]).id).len() == 0 by {
        assert(!id_taken(old, fs[u].id));
    }
}

/// Once `create_at_path` has made a path, the path exists: the root still
/// carries its first name and walking it finds nothing missing, so a second
/// `create_at_path` of the same path is refused with `FileAlreadyExists`
/// and changes nothing.
pub proof fn law_created_path_exists(old: FileDb, new: FileDb, path: Seq<char>, fs: Seq<FileMetaView>)
    requires
        old.wf(),
        new.wf(),
        made_at_path(old, new, path, fs),
        root_matches(old, path_components(path)),
        path_components(path).len() > 1,
    ensures
        root_matches(new, path_components(path)),
        path_plan(new, path_components(path)) is None,
{
    let cs = path_components(path);
    let r = old.records();
    let (i0, c0) = path_plan(old, cs)->Some_0;
    let is_folder = crate::file_service::ends_in_slash(path);
    lemma_root_kept(old, new, fs);
    lemma_walk_extend(r, fs, old.root()->Some_0.id, cs, 1, i0, c0);
    lemma_new_ids(old, new, fs, c0);
    assert(crate::file_service::at_path_shape(cs, is_folder, i0, c0, fs));
    lemma_walk_new(r, fs, cs, is_folder, i0, c0, 0);
}

/// The change log after file `id` was renamed from `from` to `to`, as
/// `rename_file` records it.
pub open spec fn after_rename(
    changes: Map<u128, ChangeView>,
    id: u128,
    from: Seq<char>,
    to: Seq<char>,
) -> Map<u128, ChangeView> {
    store_change(changes, renamed_change(current_change(changes, id), from, to))
}

/// Renaming a file that had no recorded rename from `a` to `b` and on to
/// `c` records `a` as its old name each time; renaming it back to `a` then
/// leaves the change log as it was before the first rename.
pub proof fn law_rename_remembers_first_name(
    changes: Map<u128, ChangeView>,
    id: u128,
    a: Seq<char>,
    b: Seq<char>,
    c: Seq<char>,
)
    requires
        change_log_ok(changes),
        current_change(changes, id).renamed is None,
        a != b,
        b != c,
        a != c,
    ensures
        current_change(after_rename(changes, id, a, b), id).renamed == Some(a),
        current_change(after_rename(after_rename(changes, id, a, b), id, b, c), id).renamed == Some(
            a,
        ),
        after_rename(after_rename(after_rename(changes, id, a, b), id, b, c), id, c, a) == changes,
{
    let cur = current_change(changes, id);
    let r1 = renamed_change(cur, a, b);
    let c1 = after_rename(changes, id, a, b);
    assert(c1 == changes.insert(id, r1));
    assert(current_change(c1, id) == r1);
    let r2 = renamed_change(r1, b, c);
    assert(r2 == r1);
    let c2 = after_rename(c1, id, b, c);
    assert(c2 == c1.insert(id, r2));
    assert(current_change(c2, id) == r1);
    let r3 = renamed_change(r1, c, a);
    assert(r3 == cur);
    if change_is_empty(cur) {
        assert(!changes.contains_key(id));
        assert(c2.remove(id) =~= changes);
    } else {
        assert(changes.contains_key(id));
        assert(c2.insert(id, cur) =~= changes);
    }
}

/// The editor reads macOS virtual key codes as `Events.h` of the Carbon
/// framework numbers them: each code below names its key. In particular 123 is the left arrow and 124 the right one, and
/// 42 is the backslash and 44 the slash.
#[verifier::spinoff_prover]
#[verifier::rlimit(60)]
pub proof fn law_key_codes_follow_events_h()
    ensures
        key_of_code(0u16) == Some(NSKeys::A),
        key_of_code(1u16) == Some(NSKeys::S),
        key_of_code(2u16) == Some(NSKeys::D),
        key_of_code(3u16) == Some(NSKeys::F),
        key_of_code(4u16) == Some(NSKeys::H),
        key_of_code(5u16) == Some(NSKeys::G),
        key_of_code(6u16) == Some(NSKeys::Z),
        key_of_code(7u16) == Some(NSKeys::X),
        key_of_code(8u16) == Some(NSKeys::C),
        key_of_code(9u16) == Some(NSKeys::V),
        key_of_code(11u16) == Some(NSKeys::B),
        key_of_code(12u16) == Some(NSKeys::Q),
        key_of_code(13u16) == Some(NSKeys::W),
        key_of_code(14u16) == Some(NSKeys::E),
        key_of_code(15u16) == Some(NSKeys::R),
        key_of_code(16u16) == Some(NSKeys::Y),
        key_of_code(17u16) == Some(NSKeys::T),
        key_of_code(18u16) == Some(NSKeys::Num1),
        key_of_code(19u16) == Some(NSKeys::Num2),
        key_of_code(20u16) == Some(NSKeys::Num3),
        key_of_code(21u16) == Some(NSKeys::Num4),
        key_of_code(22u16) == Some(NSKeys::Num6),
        key_of_code(23u16) == Some(NSKeys::Num5),
        key_of_code(24u16) == Some(NSKeys::Equals),
        key_of_code(25u16) == Some(NSKeys::Num9),
        key_of_code(26u16) == Some(NSKeys::Num7),
        key_of_code(27u16) == Some(NSKeys::Minus),
        key_of_code(28u16) == Some(NSKeys::Num8),
        key_of_code(29u16) == Some(NSKeys::Num0),
        key_of_code(30u16) == Some(NSKeys::RightBracket),
        key_of_code(31u16) == Some(NSKeys::O),
        key_of_code(32u16) == Some(NSKeys::U),
        key_of_code(33u16) == Some(NSKeys::LeftBracket),
        key_of_code(34u16) == Some(NSKeys::I),
        key_of_code(35u16) == Some(NSKeys::P),
        key_of_code(36u16) == Some(NSKeys::Return),
        key_of_code(37u16) == Some(NSKeys::L),
        key_of_code(38u16) == Some(NSKeys::J),
        key_of_code(39u16) == Some(NSKeys::Apostrophe),
        key_of_code(40u16) == Some(NSKeys::K),
        key_of_code(41u16) == Some(NSKeys::Semicolon),
        key_of_code(42u16) == Some(NSKeys::Backslash),
        key_of_code(43u16) == Some(NSKeys::Comma),
        key_of_code(44u16) == Some(NSKeys::FrontSlash),
        key_of_code(45u16) == Some(NSKeys::N),
        key_of_code(46u16) == Some(NSKeys::M),
        key_of_code(47u16) == Some(NSKeys::Period),
        key_of_code(48u16) == Some(NSKeys::Tab),
        key_of_code(49u16) == Some(NSKeys::Space),
        key_of_code(50u16) == Some(NSKeys::BackApostrophe),
        key_of_code(51u16) == Some(NSKeys::Backspace),
        key_of_code(53u16) == Some(NSKeys::Escape),
        key_of_code(55u16) == Some(NSKeys::Command),
        key_of_code(56u16) == Some(NSKeys::Shift),
        key_of_code(57u16) == Some(NSKeys::CapsLock),
        key_of_code(58u16) == Some(NSKeys::Option),
        key_of_code(59u16) == Some(NSKeys::Control),
        key_of_code(123u16) == Some(NSKeys::Left),
        key_of_code(124u16) == Some(NSKeys::Right),
        key_of_code(125u16) == Some(NSKeys::Down),
        key_of_code(126u16) == Some(NSKeys::Up),
{
    lemma_key_code_roundtrip(NSKeys::A, 0u16);
    lemma_key_code_roundtrip(NSKeys::S, 1u16);
    lemma_key_code_roundtrip(NSKeys::D, 2u16);
    lemma_key_code_roundtrip(NSKeys::F, 3u16);
    lemma_key_code_roundtrip(NSKeys::H, 4u16);
    lemma_key_code_roundtrip(NSKeys::G, 5u16);
    lemma_key_code_roundtrip(NSKeys::Z, 6u16);
    lemma_key_code_roundtrip(NSKeys::X, 7u16);
    lemma_key_code_roundtrip(NSKeys::C, 8u16);
    lemma_key_code_roundtrip(NSKeys::V, 9u16);
    lemma_key_code_roundtrip(NSKeys::B, 11u16);
    lemma_key_code_roundtrip(NSKeys::Q, 12u16);
    lemma_key_code_roundtrip(NSKeys::W, 13u16);
    lemma_key_code_roundtrip(NSKeys::E, 14u16);
    lemma_key_code_roundtrip(NSKeys::R, 15u16);
    lemma_key_code_roundtrip(NSKeys::Y, 16u16);
    lemma_key_code_roundtrip(NSKeys::T, 17u16);
    lemma_key_code_roundtrip(NSKeys::Num1, 18u16);
    lemma_key_code_roundtrip(NSKeys::Num2, 19u16);
    lemma_key_code_roundtrip(NSKeys::Num3, 20u16);
    lemma_key_code_roundtrip(NSKeys::Num4, 21u16);
    lemma_key_code_roundtrip(NSKeys::Num6, 22u16);
    lemma_key_code_roundtrip(NSKeys::Num5, 23u16);
    lemma_key_code_roundtrip(NSKeys::Equals, 24u16);
    lemma_key_code_roundtrip(NSKeys::Num9, 25u16);
    lemma_key_code_roundtrip(NSKeys::Num7, 26u16);
    lemma_key_code_roundtrip(NSKeys::Minus, 27u16);
    lemma_key_code_roundtrip(NSKeys::Num8, 28u16);
    lemma_key_code_roundtrip(NSKeys::Num0, 29u16);
    lemma_key_code_roundtrip(NSKeys::RightBracket, 30u16);
    lemma_key_code_roundtrip(NSKeys::O, 31u16);
    lemma_key_code_roundtrip(NSKeys::U, 32u16);
    lemma_key_code_roundtrip(NSKeys::LeftBracket, 33u16);
    lemma_key_code_roundtrip(NSKeys::I, 34u16);
    lemma_key_code_roundtrip(NSKeys::P, 35u16);
    lemma_key_code_roundtrip(NSKeys::Return, 36u16);
    lemma_key_code_roundtrip(NSKeys::L, 37u16);
    lemma_key_code_roundtrip(NSKeys::J, 38u16);
    lemma_key_code_roundtrip(NSKeys::Apostrophe, 39u16);
    lemma_key_code_roundtrip(NSKeys::K, 40u16);
    lemma_key_code_roundtrip(NSKeys::Semicolon, 41u16);
    lemma_key_code_roundtrip(NSKeys::Backslash, 42u16);
    lemma_key_code_roundtrip(NSKeys::Comma, 43u16);
    lemma_key_code_roundtrip(NSKeys::FrontSlash, 44u16);
    lemma_key_code_roundtrip(NSKeys::N, 45u16);
    lemma_key_code_roundtrip(NSKeys::M, 46u16);
    lemma_key_code_roundtrip(NSKeys::Period, 47u16);
    lemma_key_code_roundtrip(NSKeys::Tab, 48u16);
    lemma_key_code_roundtrip(NSKeys::Space, 49u16);
    lemma_key_code_roundtrip(NSKeys::BackApostrophe, 50u16);
    lemma_key_code_roundtrip(NSKeys::Backspace, 51u16);
    lemma_key_code_roundtrip(NSKeys::Escape, 53u16);
    lemma_key_code_roundtrip(NSKeys::Command, 55u16);
    lemma_key_code_roundtrip(NSKeys::Shift, 56u16);
    lemma_key_code_roundtrip(NSKeys::CapsLock, 57u16);
    lemma_key_code_roundtrip(NSKeys::Option, 58u16);
    lemma_key_code_roundtrip(NSKeys::Control, 59u16);
    lemma_key_code_roundtrip(NSKeys::Left, 123u16);
    lemma_key_code_roundtrip(NSKeys::Right, 124u16);
    lemma_key_code_roundtrip(NSKeys::Down, 125u16);
    lemma_key_code_roundtrip(NSKeys::Up, 126u16);
}

/// No code outside the table of `law_key_codes_follow_events_h` names a key.
pub proof fn law_other_key_codes_name_no_key(code: u16)
    requires
        key_of_code(code) is Some,
    ensures
        code == 0u16 || code == 1u16 || code == 2u16 || code == 3u16 || code == 4u16 || code == 5u16 || code == 6u16 || code == 7u16 || code == 8u16 || code == 9u16 || code == 11u16 || code == 12u16 || code == 13u16 || code == 14u16 || code == 15u16 || code == 16u16 || code == 17u16 || code == 18u16 || code == 19u16 || code == 20u16 || code == 21u16 || code == 22u16 || code == 23u16 || code == 24u16 || code == 25u16 || code == 26u16 || code == 27u16 || code == 28u16 || code == 29u16 || code == 30u16 || code == 31u16 || code == 32u16 || code == 33u16 || code == 34u16 || code == 35u16 || code == 36u16 || code == 37u16 || code == 38u16 || code == 39u16 || code == 40u16 || code == 41u16 || code == 42u16 || code == 43u16 || code == 44u16 || code == 45u16 || code == 46u16 || code == 47u16 || code == 48u16 || code == 49u16 || code == 50u16 || code == 51u16 || code == 53u16 || code == 55u16 || code == 56u16 || code == 57u16 || code == 58u16 || code == 59u16 || code == 123u16 || code == 124u16 || code == 125u16 || code == 126u16,
{
    lemma_key_code_roundtrip(key_of_code(code)->Some_0, code);
}

/// Each key press reaches the editor as the egui key of the same name:
/// letters and digits as themselves, Return as Enter, the arrows as the
/// arrows of the same direction, Backspace as Backspace (the character
/// before the cursor) and Delete as Delete (the one after it); punctuation
/// and modifier keys give no key event. Composed with the code table, each
/// key code gives the event of the key that `Events.h` names.
pub proof fn law_key_events_match_their_keys()
    ensures
        egui_key_of(NSKeys::A) == Some(EguiKey::A),
        egui_key_of(NSKeys::S) == Some(EguiKey::S),
        egui_key_of(NSKeys::D) == Some(EguiKey::D),
        egui_key_of(NSKeys::F) == Some(EguiKey::F),
        egui_key_of(NSKeys::H) == Some(EguiKey::H),
        egui_key_of(NSKeys::G) == Some(EguiKey::G),
        egui_key_of(NSKeys::Z) == Some(EguiKey::Z),
        egui_key_of(NSKeys::X) == Some(EguiKey::X),
        egui_key_of(NSKeys::C) == Some(EguiKey::C),
        egui_key_of(NSKeys::V) == Some(EguiKey::V),
        egui_key_of(NSKeys::B) == Some(EguiKey::B),
        egui_key_of(NSKeys::Q) == Some(EguiKey::Q),
        egui_key_of(NSKeys::W) == Some(EguiKey::W),
        egui_key_of(NSKeys::E) == Some(EguiKey::E),
        egui_key_of(NSKeys::R) == Some(EguiKey::R),
        egui_key_of(NSKeys::Y) == Some(EguiKey::Y),
        egui_key_of(NSKeys::T) == Some(EguiKey::T),
        egui_key_of(NSKeys::Num1) == Some(EguiKey::Num1),
        egui_key_of(NSKeys::Num2) == Some(EguiKey::Num2),
        egui_key_of(NSKeys::Num3) == Some(EguiKey::Num3),
        egui_key_of(NSKeys::Num4) == Some(EguiKey::Num4),
        egui_key_of(NSKeys::Num6) == Some(EguiKey::Num6),
        egui_key_of(NSKeys::Num5) == Some(EguiKey::Num5),
        egui_key_of(NSKeys::Equals) is None,
        egui_key_of(NSKeys::Num9) == Some(EguiKey::Num9),
        egui_key_of(NSKeys::Num7) == Some(EguiKey::Num7),
        egui_key_of(NSKeys::Minus) is None,
        egui_key_of(NSKeys::Num8) == Some(EguiKey::Num8),
        egui_key_of(NSKeys::Num0) == Some(EguiKey::Num0),
        egui_key_of(NSKeys::RightBracket) is None,
        egui_key_of(NSKeys::O) == Some(EguiKey::O),
        egui_key_of(NSKeys::U) == Some(EguiKey::U),
        egui_key_of(NSKeys::LeftBracket) is None,
        egui_key_of(NSKeys::I) == Some(EguiKey::I),
        egui_key_of(NSKeys::P) == Some(EguiKey::P),
        egui_key_of(NSKeys::Return) == Some(EguiKey::Enter),
        egui_key_of(NSKeys::L) == Some(EguiKey::L),
        egui_key_of(NSKeys::J) == Some(EguiKey::J),
        egui_key_of(NSKeys::Apostrophe) is None,
        egui_key_of(NSKeys::K) == Some(EguiKey::K),
        egui_key_of(NSKeys::Semicolon) is None,
        egui_key_of(NSKeys::Backslash) is None,
        egui_key_of(NSKeys::Comma) is None,
        egui_key_of(NSKeys::FrontSlash) is None,
        egui_key_of(NSKeys::N) == Some(EguiKey::N),
        egui_key_of(NSKeys::M) == Some(EguiKey::M),
        egui_key_of(NSKeys::Period) is None,
        egui_key_of(NSKeys::Tab) == Some(EguiKey::Tab),
        egui_key_of(NSKeys::Space) == Some(EguiKey::Space),
        egui_key_of(NSKeys::BackApostrophe) is None,
        egui_key_of(NSKeys::Backspace) == Some(EguiKey::Backspace),
        egui_key_of(NSKeys::Escape) == Some(EguiKey::Escape),
        egui_key_of(NSKeys::Command) is None,
        egui_key_of(NSKeys::Shift) is None,
        egui_key_of(NSKeys::CapsLock) is None,
        egui_key_of(NSKeys::Option) is None,
        egui_key_of(NSKeys::Control) is None,
        egui_key_of(NSKeys::Left) == Some(EguiKey::ArrowLeft),
        egui_key_of(NSKeys::Right) == Some(EguiKey::ArrowRight),
        egui_key_of(NSKeys::Down) == Some(EguiKey::ArrowDown),
        egui_key_of(NSKeys::Up) == Some(EguiKey::ArrowUp),
        egui_key_of(NSKeys::Delete) == Some(EguiKey::Delete),
        egui_key_of(key_of_code(0u16)->Some_0) == Some(EguiKey::A),
        egui_key_of(key_of_code(1u16)->Some_0) == Some(EguiKey::S),
        egui_key_of(key_of_code(2u16)->Some_0) == Some(EguiKey::D),
        egui_key_of(key_of_code(3u16)->Some_0) == Some(EguiKey::F),
        egui_key_of(key_of_code(4u16)->Some_0) == Some(EguiKey::H),
        egui_key_of(key_of_code(5u16)->Some_0) == Some(EguiKey::G),
        egui_key_of(key_of_code(6u16)->Some_0) == Some(EguiKey::Z),
        egui_key_of(key_of_code(7u16)->Some_0) == Some(EguiKey::X),
        egui_key_of(key_of_code(8u16)->Some_0) == Some(EguiKey::C),
        egui_key_of(key_of_code(9u16)->Some_0) == Some(EguiKey::V),
        egui_key_of(key_of_code(11u16)->Some_0) == Some(EguiKey::B),
        egui_key_of(key_of_code(12u16)->Some_0) == Some(EguiKey::Q),
        egui_key_of(key_of_code(13u16)->Some_0) == Some(EguiKey::W),
        egui_key_of(key_of_code(14u16)->Some_0) == Some(EguiKey::E),
        egui_key_of(key_of_code(15u16)->Some_0) == Some(EguiKey::R),
        egui_key_of(key_of_code(16u16)->Some_0) == Some(EguiKey::Y),
        egui_key_of(key_of_code(17u16)->Some_0) == Some(EguiKey::T),
        egui_key_of(key_of_code(18u16)->Some_0) == Some(EguiKey::Num1),
        egui_key_of(key_of_code(19u16)->Some_0) == Some(EguiKey::Num2),
        egui_key_of(key_of_code(20u16)->Some_0) == Some(EguiKey::Num3),
        egui_key_of(key_of_code(21u16)->Some_0) == Some(EguiKey::Num4),
        egui_key_of(key_of_code(22u16)->Some_0) == Some(EguiKey::Num6),
        egui_key_of(key_of_code(23u16)->Some_0) == Some(EguiKey::Num5),
        egui_key_of(key_of_code(25u16)->Some_0) == Some(EguiKey::Num9),
        egui_key_of(key_of_code(26u16)->Some_0) == Some(EguiKey::Num7),
        egui_key_of(key_of_code(28u16)->Some_0) == Some(EguiKey::Num8),
        egui_key_of(key_of_code(29u16)->Some_0) == Some(EguiKey::Num0),
        egui_key_of(key_of_code(31u16)->Some_0) == Some(EguiKey::O),
        egui_key_of(key_of_code(32u16)->Some_0) == Some(EguiKey::U),
        egui_key_of(key_of_code(34u16)->Some_0) == Some(EguiKey::I),
        egui_key_of(key_of_code(35u16)->Some_0) == Some(EguiKey::P),
        egui_key_of(key_of_code(36u16)->Some_0) == Some(EguiKey::Enter),
        egui_key_of(key_of_code(37u16)->Some_0) == Some(EguiKey::L),
        egui_key_of(key_of_code(38u16)->Some_0) == Some(EguiKey::J),
        egui_key_of(key_of_code(40u16)->Some_0) == Some(EguiKey::K),
        egui_key_of(key_of_code(45u16)->Some_0) == Some(EguiKey::N),
        egui_key_of(key_of_code(46u16)->Some_0) == Some(EguiKey::M),
        egui_key_of(key_of_code(48u16)->Some_0) == Some(EguiKey::Tab),
        egui_key_of(key_of_code(49u16)->Some_0) == Some(EguiKey::Space),
        egui_key_of(key_of_code(51u16)->Some_0) == Some(EguiKey::Backspace),
        egui_key_of(key_of_code(53u16)->Some_0) == Some(EguiKey::Escape),
        egui_key_of(key_of_code(123u16)->Some_0) == Some(EguiKey::ArrowLeft),
        egui_key_of(key_of_code(124u16)->Some_0) == Some(EguiKey::ArrowRight),
        egui_key_of(key_of_code(125u16)->Some_0) == Some(EguiKey::ArrowDown),
        egui_key_of(key_of_code(126u16)->Some_0) == Some(EguiKey::ArrowUp),
{
    law_key_codes_follow_events_h();
}

/// Storage follows payment: an account without a billing platform gets the
/// free cap; a Stripe subscription gets the premium cap; a Google Play
/// subscription gets the premium cap in every state but on hold (active,
/// canceled but not yet expired, and in its grace period alike), and the
/// free cap on hold. A subscription that `new_play_sub` records, active,
/// therefore gets the premium cap.
pub proof fn law_data_cap_follows_payment(platform: Option<BillingPlatform>)
    ensures
        platform is None ==> data_cap_of(platform) == FREE_TIER_USAGE_SIZE,
        platform matches Some(BillingPlatform::Stripe(_)) ==> data_cap_of(platform)
            == PREMIUM_TIER_USAGE_SIZE,
        platform matches Some(BillingPlatform::GooglePlay(info)) ==> (data_cap_of(platform)
            == PREMIUM_TIER_USAGE_SIZE <==> info.account_state != GooglePlayAccountState::OnHold),
        platform matches Some(BillingPlatform::GooglePlay(info)) ==> (data_cap_of(platform)
            == FREE_TIER_USAGE_SIZE <==> info.account_state == GooglePlayAccountState::OnHold),
        platform matches Some(BillingPlatform::GooglePlay(info)) ==> (info.account_state
            == GooglePlayAccountState::Active ==> data_cap_of(platform) == PREMIUM_TIER_USAGE_SIZE),
        FREE_TIER_USAGE_SIZE < PREMIUM_TIER_USAGE_SIZE,
{
}

/// Renaming a file from `a` to `b` and back to `a` leaves its metadata and
/// the change log as they were, where the log did not remember `a` or `b`
/// as its old name.
pub proof fn law_rename_back_restores(
    m: Map<u128, FileMetaView>,
    changes: Map<u128, ChangeView>,
    id: u128,
    a: Seq<char>,
    b: Seq<char>,
)
    requires
        m.contains_key(id),
        m[id].name == a,
        a != b,
        change_log_ok(changes),
        current_change(changes, id).renamed != Some(a),
        current_change(changes, id).renamed != Some(b),
    ensures
        m.insert(id, FileMetaView { name: b, ..m[id] }).insert(
            id,
            FileMetaView { name: a, ..m.insert(id, FileMetaView { name: b, ..m[id] })[id] },
        ) == m,
        store_change(
            store_change(changes, renamed_change(current_change(changes, id), a, b)),
            renamed_change(
                current_change(
                    store_change(changes, renamed_change(current_change(changes, id), a, b)),
                    id,
                ),
                b,
                a,
            ),
        ) == changes,
{
    let m1 = m.insert(id, FileMetaView { name: b, ..m[id] });
    assert(m1.insert(id, FileMetaView { name: a, ..m1[id] }) =~= m);
    let cur = current_change(changes, id);
    let r1 = renamed_change(cur, a, b);
    assert(r1.renamed is Some);
    let c1 = store_change(changes, r1);
    assert(c1 == changes.insert(id, r1));
    assert(current_change(c1, id) == r1);
    let r2 = renamed_change(r1, b, a);
    assert(r2 == cur);
    if change_is_empty(cur) {
        assert(!changes.contains_key(id));
        assert(c1.remove(id) =~= changes);
    } else {
        assert(changes.contains_key(id));
        assert(c1.insert(id, cur) =~= changes);
    }
}

/// Moving a file from folder `p` to folder `q` and back to `p` leaves its
/// metadata and the change log as they were, where the log did not remember
/// `p` or `q` as its old parent.
pub proof fn law_move_back_restores(
    m: Map<u128, FileMetaView>,
    changes: Map<u128, ChangeView>,
    id: u128,
    p: u128,
    q: u128,
)
    requires
        m.contains_key(id),
        m[id].parent == p,
        p != q,
        change_log_ok(changes),
        current_change(changes, id).moved != Some(p),
        current_change(changes, id).moved != Some(q),
    ensures
        m.insert(id, FileMetaView { parent: q, ..m[id] }).insert(
            id,
            FileMetaView { parent: p, ..m.insert(id, FileMetaView { parent: q, ..m[id] })[id] },
        ) == m,
        store_change(
            store_change(changes, moved_change(current_change(changes, id), p, q)),
            moved_change(
                current_change(
                    store_change(changes, moved_change(current_change(changes, id), p, q)),
                    id,
                ),
                q,
                p,
            ),
        ) == changes,
{
    let m1 = m.insert(id, FileMetaView { parent: q, ..m[id] });
    assert(m1.insert(id, FileMetaView { parent: p, ..m1[id] }) =~= m);
    let cur = current_change(changes, id);
    let r1 = moved_change(cur, p, q);
    assert(r1.moved is Some);
    let c1 = store_change(changes, r1);
    assert(c1 == changes.insert(id, r1));
    assert(current_change(c1, id) == r1);
    let r2 = moved_change(r1, q, p);
    assert(r2 == cur);
    if change_is_empty(cur) {
        assert(!changes.contains_key(id));
        assert(c1.remove(id) =~= changes);
    } else {
        assert(changes.contains_key(id));
        assert(c1.insert(id, cur) =~= changes);
    }
}

/// Changing a file's metadata but not its key, as renaming and moving do,
/// keeps the content of every document.
pub proof fn law_metadata_change_keeps_content(
    a: FileDb,
    b: FileDb,
    id: u128,
    v: FileMetaView,
    x: u128,
    s: Seq<char>,
)
    requires
        a.metadata().contains_key(id),
        v.access_key == a.metadata()[id].access_key,
        b.metadata() == a.metadata().insert(id, v),
        b.documents() == a.documents(),
        holds_content(a, x, s),
    ensures
        holds_content(b, x, s),
{
}

/// Adding a new file keeps the content of every document that was there.
pub proof fn law_new_file_keeps_content(
    a: FileDb,
    b: FileDb,
    f: FileMetaView,
    x: u128,
    s: Seq<char>,
)
    requires
        !a.metadata().contains_key(f.id),
        b.metadata() == a.metadata().insert(f.id, f),
        b.documents() == a.documents() || b.documents() == a.documents().insert(
            f.id,
            b.documents()[f.id],
        ),
        holds_content(a, x, s),
    ensures
        holds_content(b, x, s),
{
    assert(x != f.id);
}

/// The poller hands on exactly the messages that came strictly after the
/// last one it processed and that the agent did not write, in their order:
/// a message at or before `last_ts`, or one from the agent, is never handed
/// on, and every other one is.
pub proof fn law_new_messages_are_for_the_agent(
    messages: Seq<MessageView>,
    last_ts: i64,
    agent_name: Seq<char>,
)
    ensures
        forall|i: int|
            0 <= i < new_messages(messages, last_ts, agent_name).len() ==> (#[trigger] new_messages(
                messages,
                last_ts,
                agent_name,
            )[i]).ts > last_ts && new_messages(messages, last_ts, agent_name)[i].from != agent_name
                && messages.contains(new_messages(messages, last_ts, agent_name)[i]),
        forall|i: int|
            0 <= i < messages.len() && (#[trigger] messages[i]).ts > last_ts && messages[i].from
                != agent_name ==> new_messages(messages, last_ts, agent_name).contains(messages[i]),
        new_messages(messages, last_ts, agent_name).len() <= messages.len(),
{
    let pred = |m: MessageView| is_new_message(m, last_ts, agent_name);
    assert forall|i: int| 0 <= i < new_messages(messages, last_ts, agent_name).len() implies (
    #[trigger] new_messages(messages, last_ts, agent_name)[i]).ts > last_ts && new_messages(
        messages,
        last_ts,
        agent_name,
    )[i].from != agent_name && messages.contains(new_messages(messages, last_ts, agent_name)[i]) by {
        messages.lemma_filter_pred(pred, i);
        assert(messages.filter(pred).contains(messages.filter(pred)[i]));
        messages.lemma_filter_contains_rev(pred, messages.filter(pred)[i]);
    }
    assert forall|i: int|
        0 <= i < messages.len() && (#[trigger] messages[i]).ts > last_ts && messages[i].from
            != agent_name implies new_messages(messages, last_ts, agent_name).contains(messages[i]) by {
        messages.lemma_filter_contains(pred, i);
    }
    messages.lemma_filter_len(pred);
}

} // verus!
