//! Stable merge sort of entries, each carried with its folded name.

use vstd::prelude::*;
use crate::collation::{lowercase, to_lowercase};
use crate::models::{EntryView, FileEntry};
use crate::state::sorting::{
    in_order, is_ordered, is_stable_ordering, key_precedes, keyed, lemma_in_order_cases,
    lemma_in_order_transitive, lemma_precedes_then_in_order, precedes, SortKey,
};

verus! {

/// An entry together with its folded name, by which it is compared.
struct Keyed {
    folded: String,
    entry: FileEntry,
}

/// The entries of `keyed`, in their order.
spec fn entries_of(keyed: Seq<Keyed>) -> Seq<EntryView> {
    keyed.map_values(|item: Keyed| item.entry@)
}

/// Each item holds the folded name of its own entry.
spec fn well_keyed(keyed: Seq<Keyed>) -> bool {
    forall|i: int|
        0 <= i < keyed.len() ==> (#[trigger] keyed[i]).folded@ == lowercase(keyed[i].entry@.name)
}

/// `merged` holds, in order, the first `i` entries of `left` and the first
/// `j` of `right`, each side in its own order and `left` first among ties;
/// what is next on either side may follow all of `merged`.
spec fn merging(
    left: Seq<EntryView>,
    right: Seq<EntryView>,
    merged: Seq<EntryView>,
    i: int,
    j: int,
) -> bool {
    &&& 0 <= i <= left.len()
    &&& 0 <= j <= right.len()
    &&& merged.len() == i + j
    &&& merged.to_multiset() == left.take(i).to_multiset().add(right.take(j).to_multiset())
    &&& is_ordered(merged)
    &&& forall|key: SortKey| #[trigger]
        merged.filter(keyed(key)) == left.take(i).filter(keyed(key)) + right.take(j).filter(
            keyed(key),
        )
    &&& i < left.len() ==> forall|u: int|
        0 <= u < merged.len() ==> in_order(#[trigger] merged[u], left[i])
    &&& j < right.len() ==> forall|u: int|
        0 <= u < merged.len() ==> in_order(#[trigger] merged[u], right[j])
    &&& i < left.len() ==> forall|t: int| 0 <= t < j ==> precedes(#[trigger] right[t], left[i])
}

/// A merge begins with nothing taken.
proof fn lemma_merge_begins(left: Seq<EntryView>, right: Seq<EntryView>)
    ensures
        merging(left, right, Seq::empty(), 0, 0),
{
    broadcast use {vstd::seq_lib::to_multiset_len, vstd::multiset::group_multiset_axioms};

    let none = Seq::<EntryView>::empty();
    assert(left.take(0) =~= none);
    assert(right.take(0) =~= none);
    assert(none.to_multiset().len() == 0);
    assert(none.to_multiset() =~= none.to_multiset().add(none.to_multiset()));
    assert forall|key: SortKey| #[trigger]
        none.filter(keyed(key)) == none.filter(keyed(key)) + none.filter(keyed(key)) by {
        reveal(Seq::filter);
        assert(none.filter(keyed(key)) =~= none);
        assert(none + none =~= none);
    }
}

/// Taking the next entry of `left`, which may stand before the next of
/// `right`, keeps the merge in order.
proof fn lemma_merge_takes_left(
    left: Seq<EntryView>,
    right: Seq<EntryView>,
    merged: Seq<EntryView>,
    i: int,
    j: int,
)
    requires
        is_ordered(left),
        merging(left, right, merged, i, j),
        i < left.len(),
        j < right.len() ==> in_order(left[i], right[j]),
    ensures
        merging(left, right, merged.push(left[i]), i + 1, j),
{
    broadcast use {
        vstd::seq_lib::to_multiset_build,
        Seq::lemma_filter_push,
        vstd::multiset::group_multiset_axioms,
    };

    let entry = left[i];
    let after = merged.push(entry);
    assert(left.take(i + 1) =~= left.take(i).push(entry));
    assert(after.to_multiset() =~= left.take(i + 1).to_multiset().add(
        right.take(j).to_multiset(),
    ));
    assert forall|key: SortKey| #[trigger]
        after.filter(keyed(key)) == left.take(i + 1).filter(keyed(key)) + right.take(j).filter(
            keyed(key),
        ) by {
        let class = keyed(key);
        assert(merged.filter(class) == left.take(i).filter(class) + right.take(j).filter(class));
        if class(entry) {
            let others = right.take(j);
            assert(others.all(|e: EntryView| !class(e))) by {
                assert forall|t: int| 0 <= t < others.len() implies !class(
                    #[trigger] others[t],
                ) by {
                    assert(precedes(right[t], entry));
                    lemma_in_order_cases(entry, right[t]);
                }
            }
            others.lemma_all_neg_filter_empty(class);
            assert(others.filter(class) =~= Seq::empty());
            assert(after.filter(class) =~= left.take(i + 1).filter(class) + others.filter(class));
        }
    }
    if i + 1 < left.len() {
        assert(in_order(left[i], left[i + 1]));
        assert forall|u: int| 0 <= u < after.len() implies in_order(
            #[trigger] after[u],
            left[i + 1],
        ) by {
            if u < merged.len() {
                lemma_in_order_transitive(merged[u], left[i], left[i + 1]);
            }
        }
        assert forall|t: int| 0 <= t < j implies precedes(#[trigger] right[t], left[i + 1]) by {
            lemma_precedes_then_in_order(right[t], left[i], left[i + 1]);
        }
    }
}

/// Taking the next entry of `right`, which must stand before the next of
/// `left`, keeps the merge in order.
proof fn lemma_merge_takes_right(
    left: Seq<EntryView>,
    right: Seq<EntryView>,
    merged: Seq<EntryView>,
    i: int,
    j: int,
)
    requires
        is_ordered(right),
        merging(left, right, merged, i, j),
        j < right.len(),
        i < left.len() ==> precedes(right[j], left[i]),
    ensures
        merging(left, right, merged.push(right[j]), i, j + 1),
{
    broadcast use {
        vstd::seq_lib::to_multiset_build,
        Seq::lemma_filter_push,
        vstd::multiset::group_multiset_axioms,
    };

    let entry = right[j];
    let after = merged.push(entry);
    assert(right.take(j + 1) =~= right.take(j).push(entry));
    assert(after.to_multiset() =~= left.take(i).to_multiset().add(
        right.take(j + 1).to_multiset(),
    ));
    assert forall|key: SortKey| #[trigger]
        after.filter(keyed(key)) == left.take(i).filter(keyed(key)) + right.take(j + 1).filter(
            keyed(key),
        ) by {
        let class = keyed(key);
        assert(merged.filter(class) == left.take(i).filter(class) + right.take(j).filter(class));
        assert(after.filter(class) =~= left.take(i).filter(class) + right.take(j + 1).filter(
            class,
        ));
    }
    if i < left.len() {
        lemma_in_order_cases(entry, left[i]);
    }
    if j + 1 < right.len() {
        assert(in_order(right[j], right[j + 1]));
        assert forall|u: int| 0 <= u < after.len() implies in_order(
            #[trigger] after[u],
            right[j + 1],
        ) by {
            if u < merged.len() {
                lemma_in_order_transitive(merged[u], right[j], right[j + 1]);
            }
        }
    }
}

/// A merge that has taken all of both sides is a stable ordering of the
/// one followed by the other.
proof fn lemma_merge_complete(left: Seq<EntryView>, right: Seq<EntryView>, merged: Seq<EntryView>)
    requires
        merging(left, right, merged, left.len() as int, right.len() as int),
    ensures
        is_stable_ordering(left + right, merged),
{
    broadcast use {vstd::seq_lib::lemma_multiset_commutative, Seq::filter_distributes_over_add};

    assert(left.take(left.len() as int) =~= left);
    assert(right.take(right.len() as int) =~= right);
}

/// The stable orderings of two listings, merged, give the stable ordering
/// of the one listing followed by the other.
proof fn lemma_stable_ordering_of_halves(
    left: Seq<EntryView>,
    right: Seq<EntryView>,
    left_sorted: Seq<EntryView>,
    right_sorted: Seq<EntryView>,
    merged: Seq<EntryView>,
)
    requires
        is_stable_ordering(left, left_sorted),
        is_stable_ordering(right, right_sorted),
        is_stable_ordering(left_sorted + right_sorted, merged),
    ensures
        is_stable_ordering(left + right, merged),
{
    broadcast use {vstd::seq_lib::lemma_multiset_commutative, Seq::filter_distributes_over_add};

    assert forall|key: SortKey| #[trigger]
        merged.filter(keyed(key)) == (left + right).filter(keyed(key)) by {
        let class = keyed(key);
        assert(merged.filter(class) == (left_sorted + right_sorted).filter(class));
        assert(left_sorted.filter(class) == left.filter(class));
        assert(right_sorted.filter(class) == right.filter(class));
    }
}

/// The items of `items`, last first.
fn reversed<T>(items: Vec<T>) -> (turned: Vec<T>)
    ensures
        turned@ == items@.reverse(),
{
    let ghost all = items@;
    let mut rest = items;
    let mut turned: Vec<T> = Vec::new();
    assert(rest@ =~= all.take(rest.len() as int));
    assert(turned@ =~= all.skip(rest.len() as int).reverse());
    loop
        invariant
            all == items@,
            rest@ == all.take(rest.len() as int),
            rest.len() <= all.len(),
            turned@ == all.skip(rest.len() as int).reverse(),
        decreases rest.len(),
    {
        let ghost n = rest.len() as int;
        match rest.pop() {
            Some(item) => {
                turned.push(item);
                assert(turned@ =~= all.skip(n - 1).reverse());
                assert(rest@ =~= all.take(n - 1));
            },
            None => {
                assert(all.skip(0) =~= all);
                return turned;
            },
        }
    }
}

/// Whether the entry of `a` must stand before the entry of `b`.
fn keyed_precedes(a: &Keyed, b: &Keyed) -> (r: bool)
    requires
        a.folded@ == lowercase(a.entry@.name),
        b.folded@ == lowercase(b.entry@.name),
    ensures
        r == precedes(a.entry@, b.entry@),
{
    key_precedes(a.entry.is_dir, a.folded.as_str(), b.entry.is_dir, b.folded.as_str())
}

/// Merges two ordered listings into one; among entries that tie, those of
/// `left` come first.
fn merge(left: Vec<Keyed>, right: Vec<Keyed>) -> (merged: Vec<Keyed>)
    requires
        well_keyed(left@),
        well_keyed(right@),
        is_ordered(entries_of(left@)),
        is_ordered(entries_of(right@)),
    ensures
        well_keyed(merged@),
        is_stable_ordering(entries_of(left@) + entries_of(right@), entries_of(merged@)),
{
    let ghost a = left@;
    let ghost b = right@;
    let mut lefts = reversed(left);
    let mut rights = reversed(right);
    let mut x = lefts.pop();
    let mut y = rights.pop();
    let mut merged: Vec<Keyed> = Vec::new();
    let ghost mut i: int = 0;
    let ghost mut j: int = 0;
    proof {
        assert(a.len() > 0 ==> a.reverse().drop_last() =~= a.skip(1).reverse());
        assert(b.len() > 0 ==> b.reverse().drop_last() =~= b.skip(1).reverse());
        assert(entries_of(merged@) =~= Seq::empty());
        lemma_merge_begins(entries_of(a), entries_of(b));
    }
    while x.is_some() || y.is_some()
        invariant
            well_keyed(a),
            well_keyed(b),
            is_ordered(entries_of(a)),
            is_ordered(entries_of(b)),
            0 <= i <= a.len(),
            0 <= j <= b.len(),
            x == (if i < a.len() { Some(a[i]) } else { None }),
            y == (if j < b.len() { Some(b[j]) } else { None }),
            lefts@ == (if i < a.len() { a.skip(i + 1).reverse() } else { Seq::empty() }),
            rights@ == (if j < b.len() { b.skip(j + 1).reverse() } else { Seq::empty() }),
            well_keyed(merged@),
            merging(entries_of(a), entries_of(b), entries_of(merged@), i, j),
        decreases a.len() - i + b.len() - j,
    {
        let ghost before = entries_of(merged@);
        let from_right = match (&x, &y) {
            (Some(l), Some(r)) => keyed_precedes(r, l),
            (None, _) => true,
            (_, None) => false,
        };
        if from_right {
            let item = y.unwrap();
            proof {
                if i < a.len() {
                    assert(precedes(entries_of(b)[j], entries_of(a)[i]));
                }
                lemma_merge_takes_right(entries_of(a), entries_of(b), before, i, j);
                assert(entries_of(merged@.push(item)) =~= before.push(entries_of(b)[j]));
                assert(j + 1 < b.len() ==> b.skip(j + 1).reverse().drop_last() =~= b.skip(
                    j + 2,
                ).reverse());
                j = j + 1;
            }
            merged.push(item);
            y = rights.pop();
        } else {
            let item = x.unwrap();
            proof {
                if j < b.len() {
                    lemma_in_order_cases(entries_of(a)[i], entries_of(b)[j]);
                }
                lemma_merge_takes_left(entries_of(a), entries_of(b), before, i, j);
                assert(entries_of(merged@.push(item)) =~= before.push(entries_of(a)[i]));
                assert(i + 1 < a.len() ==> a.skip(i + 1).reverse().drop_last() =~= a.skip(
                    i + 2,
                ).reverse());
                i = i + 1;
            }
            merged.push(item);
            x = lefts.pop();
        }
    }
    proof {
        lemma_merge_complete(entries_of(a), entries_of(b), entries_of(merged@));
    }
    merged
}

/// Sorts `keyed` stably by merging its sorted halves.
fn merge_sort(keyed: Vec<Keyed>) -> (sorted: Vec<Keyed>)
    requires
        well_keyed(keyed@),
    ensures
        well_keyed(sorted@),
        is_stable_ordering(entries_of(keyed@), entries_of(sorted@)),
    decreases keyed.len(),
{
    let ghost all = keyed@;
    if keyed.len() <= 1 {
        proof {
            lemma_short_listing_is_sorted(entries_of(all));
        }
        return keyed;
    }
    let mut left = keyed;
    let right = left.split_off(left.len() / 2);
    let ghost first = left@;
    let ghost second = right@;
    assert(entries_of(all) =~= entries_of(first) + entries_of(second));
    let left = merge_sort(left);
    let right = merge_sort(right);
    let merged = merge(left, right);
    proof {
        lemma_stable_ordering_of_halves(
            entries_of(first),
            entries_of(second),
            entries_of(left@),
            entries_of(right@),
            entries_of(merged@),
        );
    }
    merged
}

/// A listing of at most one entry is its own stable ordering.
proof fn lemma_short_listing_is_sorted(entries: Seq<EntryView>)
    requires
        entries.len() <= 1,
    ensures
        is_stable_ordering(entries, entries),
{
}

/// Each entry of `entries` with its folded name, in their order.
fn with_keys(entries: Vec<FileEntry>) -> (keyed: Vec<Keyed>)
    ensures
        well_keyed(keyed@),
        entries_of(keyed@) == entries.deep_view(),
{
    let ghost all = entries@;
    let ghost views = entries.deep_view();
    let mut rest = reversed(entries);
    let mut keyed: Vec<Keyed> = Vec::new();
    assert(all.skip(0) =~= all);
    assert(entries_of(keyed@) =~= views.take(0));
    loop
        invariant
            views == entries.deep_view(),
            keyed.len() <= all.len(),
            views.len() == all.len(),
            forall|i: int| 0 <= i < all.len() ==> views[i] == (#[trigger] all[i])@,
            rest@ == all.skip(keyed.len() as int).reverse(),
            well_keyed(keyed@),
            entries_of(keyed@) == views.take(keyed.len() as int),
        decreases all.len() - keyed.len(),
    {
        let ghost n = keyed.len() as int;
        assert(rest@.len() == all.len() - n);
        match rest.pop() {
            Some(entry) => {
                let folded = to_lowercase(entry.name.as_str());
                proof {
                    assert(entry == all[n]);
                    assert(all.skip(n).reverse().drop_last() =~= all.skip(n + 1).reverse());
                }
                keyed.push(Keyed { folded, entry });
                assert(entries_of(keyed@) =~= views.take(n + 1));
            },
            None => {
                assert(views.take(n) =~= views);
                return keyed;
            },
        }
    }
}

/// The entries of `keyed`, in their order, without their folded names.
fn without_keys(keyed: Vec<Keyed>) -> (entries: Vec<FileEntry>)
    ensures
        entries.deep_view() == entries_of(keyed@),
{
    let ghost all = keyed@;
    let mut rest = reversed(keyed);
    let mut entries: Vec<FileEntry> = Vec::new();
    assert(all.skip(0) =~= all);
    assert(entries.deep_view() =~= entries_of(all).take(0));
    loop
        invariant
            all == keyed@,
            entries.len() <= all.len(),
            rest@ == all.skip(entries.len() as int).reverse(),
            entries.deep_view() == entries_of(all).take(entries.len() as int),
        decreases all.len() - entries.len(),
    {
        let ghost n = entries.len() as int;
        assert(rest@.len() == all.len() - n);
        match rest.pop() {
            Some(item) => {
                proof {
                    assert(item == all[n]);
                    assert(all.skip(n).reverse().drop_last() =~= all.skip(n + 1).reverse());
                }
                entries.push(item.entry);
                assert(entries.deep_view() =~= entries_of(all).take(n + 1));
            },
            None => {
                assert(entries_of(all).take(n) =~= entries_of(all));
                return entries;
            },
        }
    }
}

/// The entries of `entries` in their stable ordering.
pub(crate) fn sorted_stably(entries: Vec<FileEntry>) -> (sorted: Vec<FileEntry>)
    ensures
        is_stable_ordering(entries.deep_view(), sorted.deep_view()),
{
    without_keys(merge_sort(with_keys(entries)))
}

} // verus!
