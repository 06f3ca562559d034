//! Tables of records that are found again by a 128-bit id.
//!
//! A table is a `Vec` in which no two records share an id; its abstract view
//! is the map from each id to the view of the record that carries it.
use vstd::prelude::*;

verus! {

/// A record that carries a 128-bit id.
pub trait Keyed: View + Sized {
    spec fn key_of(v: Self::V) -> u128;

    fn key(&self) -> (k: u128)
        ensures
            k == Self::key_of(self@),
    ;
}

/// The views of a table's records, in table order.
pub open spec fn views<T: Keyed>(s: Seq<T>) -> Seq<T::V> {
    s.map_values(|x: T| x@)
}

pub open spec fn has_key<T: Keyed>(s: Seq<T>, k: u128) -> bool {
    exists|i: int| 0 <= i < s.len() && #[trigger] T::key_of(s[i]@) == k
}

pub open spec fn keys_unique<T: Keyed>(s: Seq<T>) -> bool {
    forall|i: int, j: int|
        0 <= i < s.len() && 0 <= j < s.len() && i != j ==> #[trigger] T::key_of(s[i]@)
            != #[trigger] T::key_of(s[j]@)
}

pub open spec fn key_index<T: Keyed>(s: Seq<T>, k: u128) -> int {
    choose|i: int| 0 <= i < s.len() && #[trigger] T::key_of(s[i]@) == k
}

/// The map from each id of the table to the view of its record.
pub open spec fn keyed_view<T: Keyed>(s: Seq<T>) -> Map<u128, T::V> {
    Map::new(|k: u128| has_key(s, k), |k: u128| s[key_index(s, k)]@)
}

pub proof fn lemma_key_index<T: Keyed>(s: Seq<T>, i: int)
    requires
        keys_unique(s),
        0 <= i < s.len(),
    ensures
        has_key(s, T::key_of(s[i]@)),
        key_index(s, T::key_of(s[i]@)) == i,
        keyed_view(s).contains_key(T::key_of(s[i]@)),
        keyed_view(s)[T::key_of(s[i]@)] == s[i]@,
{
    let k = T::key_of(s[i]@);
    assert(has_key(s, k));
    let j = key_index(s, k);
    assert(0 <= j < s.len() && T::key_of(s[j]@) == k);
}

/// Where the record with id `k` stands in the table, if anywhere.
pub fn find_key<T: Keyed>(v: &Vec<T>, k: u128) -> (r: Option<usize>)
    ensures
        r is None <==> !has_key(v@, k),
        r matches Some(i) ==> i < v@.len() && T::key_of(v@[i as int]@) == k,
        r matches Some(i) ==> forall|j: int| 0 <= j < i ==> T::key_of(#[trigger] v@[j]@) != k,
{
    let mut i: usize = 0;
    while i < v.len()
        invariant
            i <= v@.len(),
            forall|j: int| 0 <= j < i ==> T::key_of(#[trigger] v@[j]@) != k,
        decreases v@.len() - i,
    {
        if v[i].key() == k {
            return Some(i);
        }
        i = i + 1;
    }
    None
}

/// Writes `x` into the table: it replaces the record with the same id, or is
/// added at the end.
pub fn upsert<T: Keyed>(v: &mut Vec<T>, x: T)
    requires
        keys_unique(old(v)@),
    ensures
        keys_unique(final(v)@),
        keyed_view(final(v)@) == keyed_view(old(v)@).insert(T::key_of(x@), x@),
        has_key(old(v)@, T::key_of(x@)) ==> final(v)@ == old(v)@.update(
            key_index(old(v)@, T::key_of(x@)),
            x,
        ),
        !has_key(old(v)@, T::key_of(x@)) ==> final(v)@ == old(v)@.push(x),
{
    let k = x.key();
    let ghost old_s = v@;
    let ghost xv = x@;
    match find_key(v, k) {
        Some(i) => {
            proof {
                lemma_key_index(old_s, i as int);
            }
            v.set(i, x);
            let ghost new_s = v@;
            assert(new_s == old_s.update(i as int, x));
            assert forall|a: int, b: int|
                0 <= a < new_s.len() && 0 <= b < new_s.len() && a != b implies #[trigger] T::key_of(
                new_s[a]@,
            ) != #[trigger] T::key_of(new_s[b]@) by {
                if a == i {
                    assert(T::key_of(old_s[b]@) != T::key_of(old_s[a]@));
                } else if b == i {
                    assert(T::key_of(old_s[b]@) != T::key_of(old_s[a]@));
                } else {
                    assert(T::key_of(old_s[a]@) != T::key_of(old_s[b]@));
                }
            }
            assert forall|kk: u128| has_key(new_s, kk) == (has_key(old_s, kk) || kk == k) by {
                if has_key(old_s, kk) {
                    let j = choose|j: int| 0 <= j < old_s.len() && #[trigger] T::key_of(old_s[j]@) == kk;
                    if j == i {
                        assert(T::key_of(new_s[j]@) == k);
                    } else {
                        assert(T::key_of(new_s[j]@) == kk);
                    }
                }
                if has_key(new_s, kk) {
                    let j = choose|j: int| 0 <= j < new_s.len() && #[trigger] T::key_of(new_s[j]@) == kk;
                    if j != i {
                        assert(T::key_of(old_s[j]@) == kk);
                    }
                }
            }
            assert forall|kk: u128| #[trigger] has_key(new_s, kk) implies new_s[key_index(new_s, kk)]@
                == keyed_view(old_s).insert(k, xv)[kk] by {
                let j = choose|j: int| 0 <= j < new_s.len() && #[trigger] T::key_of(new_s[j]@) == kk;
                lemma_key_index(new_s, j);
                if j != i {
                    lemma_key_index(old_s, j);
                }
            }
            assert(keyed_view(new_s) =~= keyed_view(old_s).insert(k, xv));
        },
        None => {
            v.push(x);
            let ghost new_s = v@;
            assert(new_s == old_s.push(x));
            assert forall|a: int, b: int|
                0 <= a < new_s.len() && 0 <= b < new_s.len() && a != b implies #[trigger] T::key_of(
                new_s[a]@,
            ) != #[trigger] T::key_of(new_s[b]@) by {
                if a == old_s.len() {
                    assert(T::key_of(old_s[b]@) != k);
                } else if b == old_s.len() {
                    assert(T::key_of(old_s[a]@) != k);
                } else {
                    assert(new_s[a] == old_s[a] && new_s[b] == old_s[b]);
                }
            }
            assert forall|kk: u128| has_key(new_s, kk) == (has_key(old_s, kk) || kk == k) by {
                if has_key(old_s, kk) {
                    let j = choose|j: int| 0 <= j < old_s.len() && #[trigger] T::key_of(old_s[j]@) == kk;
                    assert(new_s[j] == old_s[j]);
                }
                if kk == k {
                    assert(T::key_of(new_s[old_s.len() as int]@) == k);
                }
                if has_key(new_s, kk) {
                    let j = choose|j: int| 0 <= j < new_s.len() && #[trigger] T::key_of(new_s[j]@) == kk;
                    if j < old_s.len() {
                        assert(new_s[j] == old_s[j]);
                    }
                }
            }
            assert forall|kk: u128| #[trigger] has_key(new_s, kk) implies new_s[key_index(new_s, kk)]@
                == keyed_view(old_s).insert(k, xv)[kk] by {
                let j = choose|j: int| 0 <= j < new_s.len() && #[trigger] T::key_of(new_s[j]@) == kk;
                lemma_key_index(new_s, j);
                if j < old_s.len() {
                    assert(new_s[j] == old_s[j]);
                    lemma_key_index(old_s, j);
                }
            }
            assert(keyed_view(new_s) =~= keyed_view(old_s).insert(k, xv));
        },
    }
}

/// Takes the record with id `k` out of the table, if it is there.
pub fn remove_key<T: Keyed>(v: &mut Vec<T>, k: u128)
    requires
        keys_unique(old(v)@),
    ensures
        keys_unique(final(v)@),
        keyed_view(final(v)@) == keyed_view(old(v)@).remove(k),
{
    let ghost old_s = v@;
    match find_key(v, k) {
        None => {
            assert(keyed_view(old_s).remove(k) =~= keyed_view(old_s));
        },
        Some(i) => {
            proof {
                lemma_key_index(old_s, i as int);
            }
            v.remove(i);
            let ghost new_s = v@;
            assert(new_s == old_s.remove(i as int));
            assert forall|j: int| 0 <= j < new_s.len() implies #[trigger] new_s[j] == (if j < i {
                old_s[j]
            } else {
                old_s[j + 1]
            }) by {}
            assert forall|a: int, b: int|
                0 <= a < new_s.len() && 0 <= b < new_s.len() && a != b implies #[trigger] T::key_of(
                new_s[a]@,
            ) != #[trigger] T::key_of(new_s[b]@) by {
                let oa = if a < i { a } else { a + 1 };
                let ob = if b < i { b } else { b + 1 };
                assert(new_s[a] == old_s[oa] && new_s[b] == old_s[ob]);
                assert(T::key_of(old_s[oa]@) != T::key_of(old_s[ob]@));
            }
            assert forall|kk: u128| has_key(new_s, kk) == (has_key(old_s, kk) && kk != k) by {
                if has_key(old_s, kk) && kk != k {
                    let j = choose|j: int| 0 <= j < old_s.len() && #[trigger] T::key_of(old_s[j]@) == kk;
                    assert(j != i);
                    let nj = if j < i { j } else { j - 1 };
                    assert(new_s[nj] == old_s[j]);
                }
                if has_key(new_s, kk) {
                    let j = choose|j: int| 0 <= j < new_s.len() && #[trigger] T::key_of(new_s[j]@) == kk;
                    let oj = if j < i { j } else { j + 1 };
                    assert(new_s[j] == old_s[oj]);
                    assert(oj != i);
                    assert(T::key_of(old_s[oj]@) != T::key_of(old_s[i as int]@));
                }
            }
            assert forall|kk: u128| #[trigger] has_key(new_s, kk) implies new_s[key_index(new_s, kk)]@
                == keyed_view(old_s)[kk] by {
                let j = choose|j: int| 0 <= j < new_s.len() && #[trigger] T::key_of(new_s[j]@) == kk;
                lemma_key_index(new_s, j);
                let oj = if j < i { j } else { j + 1 };
                assert(new_s[j] == old_s[oj]);
                lemma_key_index(old_s, oj);
            }
            assert(keyed_view(new_s) =~= keyed_view(old_s).remove(k));
        },
    }
}

} // verus!
