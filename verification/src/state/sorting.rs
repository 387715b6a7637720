//! The order in which the entries of a directory are shown.
//!
//! Directories stand before files. Within each kind the entries stand by
//! name, compared without regard to case; entries that tie keep the order in
//! which they came.

use vstd::prelude::*;
use crate::collation::{
    lemma_text_lt_total, lemma_text_lt_transitive, lowercase, text_le, text_lt, text_precedes,
};
use crate::models::{EntryView, FileEntry};
use crate::state::merging::sorted_stably;

verus! {

/// What an entry is ordered by: its kind, and its name folded to lower case.
pub struct SortKey {
    pub is_dir: bool,
    pub folded: Seq<char>,
}

/// The key of an entry.
pub open spec fn sort_key(entry: EntryView) -> SortKey {
    SortKey { is_dir: entry.is_dir, folded: lowercase(entry.name) }
}

/// `a` stands strictly before `b`: a directory before a file, and within a
/// kind the lesser folded name first.
pub open spec fn key_lt(a: SortKey, b: SortKey) -> bool {
    if a.is_dir == b.is_dir {
        text_lt(a.folded, b.folded)
    } else {
        a.is_dir
    }
}

/// Entry `a` must stand before entry `b`.
pub open spec fn precedes(a: EntryView, b: EntryView) -> bool {
    key_lt(sort_key(a), sort_key(b))
}

/// Entry `a` may stand before entry `b`: a directory before a file, and
/// within a kind the names non-decreasing, compared without regard to case.
pub open spec fn in_order(a: EntryView, b: EntryView) -> bool {
    if a.is_dir == b.is_dir {
        text_le(lowercase(a.name), lowercase(b.name))
    } else {
        a.is_dir
    }
}

/// Every entry may stand before each one that follows it.
pub open spec fn is_ordered(entries: Seq<EntryView>) -> bool {
    forall|i: int, j: int| 0 <= i < j < entries.len() ==> in_order(entries[i], entries[j])
}

/// The entries whose key is `key`.
pub open spec fn keyed(key: SortKey) -> spec_fn(EntryView) -> bool {
    |entry: EntryView| sort_key(entry) == key
}

/// `output` is `input` sorted stably: the same entries, in order, and those
/// with one key in the order in which `input` has them.
pub open spec fn is_stable_ordering(input: Seq<EntryView>, output: Seq<EntryView>) -> bool {
    &&& output.len() == input.len()
    &&& output.to_multiset() == input.to_multiset()
    &&& is_ordered(output)
    &&& forall|key: SortKey| #[trigger] output.filter(keyed(key)) == input.filter(keyed(key))
}

/// Of two keys, one stands before the other, or they are equal.
pub proof fn lemma_key_lt_total(a: SortKey, b: SortKey)
    ensures
        key_lt(a, b) || a == b || key_lt(b, a),
{
    lemma_text_lt_total(a.folded, b.folded);
}

/// The order of keys is transitive.
pub proof fn lemma_key_lt_transitive(a: SortKey, b: SortKey, c: SortKey)
    requires
        key_lt(a, b),
        key_lt(b, c),
    ensures
        key_lt(a, c),
{
    if a.is_dir == b.is_dir && b.is_dir == c.is_dir {
        lemma_text_lt_transitive(a.folded, b.folded, c.folded);
    }
}

/// An entry that may stand before another does so because it must, or
/// because the two tie; and no entry must stand before itself.
pub proof fn lemma_in_order_cases(a: EntryView, b: EntryView)
    ensures
        in_order(a, b) <==> !precedes(b, a),
        in_order(a, b) <==> (precedes(a, b) || sort_key(a) == sort_key(b)),
{
    lemma_key_lt_total(sort_key(a), sort_key(b));
    if precedes(a, b) && precedes(b, a) {
        lemma_key_lt_transitive(sort_key(a), sort_key(b), sort_key(a));
    }
}

/// What must stand before an entry must stand before all that may follow it.
pub proof fn lemma_precedes_then_in_order(a: EntryView, b: EntryView, c: EntryView)
    requires
        precedes(a, b),
        in_order(b, c),
    ensures
        precedes(a, c),
{
    lemma_in_order_cases(b, c);
    if precedes(b, c) {
        lemma_key_lt_transitive(sort_key(a), sort_key(b), sort_key(c));
    }
}

/// "May stand before" is transitive.
pub proof fn lemma_in_order_transitive(a: EntryView, b: EntryView, c: EntryView)
    requires
        in_order(a, b),
        in_order(b, c),
    ensures
        in_order(a, c),
{
    lemma_in_order_cases(a, b);
    lemma_in_order_cases(b, c);
    lemma_in_order_cases(a, c);
    if precedes(a, b) {
        lemma_precedes_then_in_order(a, b, c);
    } else if precedes(b, c) {
        assert(precedes(a, c));
    }
}

/// In an ordered listing no file stands before a directory, and entries of
/// one kind stand by folded name, the lesser first.
pub proof fn lemma_ordered_by_kind_then_name(entries: Seq<EntryView>, i: int, j: int)
    requires
        is_ordered(entries),
        0 <= i < j < entries.len(),
    ensures
        entries[j].is_dir ==> entries[i].is_dir,
        entries[i].is_dir == entries[j].is_dir ==> !text_lt(
            lowercase(entries[j].name),
            lowercase(entries[i].name),
        ),
{
    assert(in_order(entries[i], entries[j]));
}

/// A stable ordering holds every entry of its input.
pub proof fn lemma_stable_ordering_keeps_entries(
    input: Seq<EntryView>,
    output: Seq<EntryView>,
    entry: EntryView,
)
    requires
        is_stable_ordering(input, output),
    ensures
        input.contains(entry) <==> output.contains(entry),
{
    broadcast use vstd::seq_lib::to_multiset_contains;

    assert(input.to_multiset().count(entry) == output.to_multiset().count(entry));
}

/// The last of an ordered listing, if any, is also the last of those that
/// share its key; without it the listing is still ordered.
proof fn lemma_last_of_ordered(entries: Seq<EntryView>, key: SortKey)
    requires
        entries.len() > 0,
    ensures
        is_ordered(entries) ==> is_ordered(entries.drop_last()),
        entries.filter(keyed(key)) == (if sort_key(entries.last()) == key {
            entries.drop_last().filter(keyed(key)).push(entries.last())
        } else {
            entries.drop_last().filter(keyed(key))
        }),
{
    reveal(Seq::filter);
    if is_ordered(entries) {
        let rest = entries.drop_last();
        assert forall|i: int, j: int| 0 <= i < j < rest.len() implies in_order(
            rest[i],
            rest[j],
        ) by {
            assert(in_order(entries[i], entries[j]));
        }
    }
}

/// A listing has one stable ordering only.
pub proof fn lemma_stable_ordering_is_unique(
    input: Seq<EntryView>,
    first: Seq<EntryView>,
    second: Seq<EntryView>,
)
    requires
        is_stable_ordering(input, first),
        is_stable_ordering(input, second),
    ensures
        first == second,
{
    lemma_ordered_with_same_classes_equal(first, second);
}

/// Two ordered listings of one length that agree on the entries of each key,
/// in their order, are equal.
proof fn lemma_ordered_with_same_classes_equal(first: Seq<EntryView>, second: Seq<EntryView>)
    requires
        first.len() == second.len(),
        is_ordered(first),
        is_ordered(second),
        forall|key: SortKey| #[trigger] first.filter(keyed(key)) == second.filter(keyed(key)),
    ensures
        first == second,
    decreases first.len(),
{
    if first.len() == 0 {
        assert(first =~= second);
    } else {
        let a = first.last();
        let b = second.last();
        let ka = sort_key(a);
        let kb = sort_key(b);
        // Each last entry occurs in the other listing, so neither key is
        // beyond the other.
        lemma_last_of_ordered(first, ka);
        lemma_last_of_ordered(second, ka);
        lemma_last_of_ordered(first, kb);
        lemma_last_of_ordered(second, kb);
        assert(first.filter(keyed(ka)) == second.filter(keyed(ka)));
        assert(first.filter(keyed(kb)) == second.filter(keyed(kb)));
        assert(ka == kb) by {
            lemma_class_member_in_listing(second, ka, a);
            lemma_class_member_in_listing(first, kb, b);
            let i = choose|i: int| 0 <= i < second.len() && second[i] == a;
            let j = choose|j: int| 0 <= j < first.len() && first[j] == b;
            if i < second.len() - 1 {
                assert(in_order(second[i], second[second.len() - 1]));
            }
            if j < first.len() - 1 {
                assert(in_order(first[j], first[first.len() - 1]));
            }
            lemma_in_order_cases(a, b);
            lemma_in_order_cases(b, a);
        }
        assert(a == b) by {
            assert(first.filter(keyed(ka)).last() == a);
            assert(second.filter(keyed(ka)).last() == b);
        }
        let rest_first = first.drop_last();
        let rest_second = second.drop_last();
        assert forall|key: SortKey| #[trigger]
            rest_first.filter(keyed(key)) == rest_second.filter(keyed(key)) by {
            lemma_last_of_ordered(first, key);
            lemma_last_of_ordered(second, key);
            assert(first.filter(keyed(key)) == second.filter(keyed(key)));
            if sort_key(a) == key {
                let x = rest_first.filter(keyed(key));
                let y = rest_second.filter(keyed(key));
                assert(x.push(a) == y.push(a));
                assert(x =~= x.push(a).drop_last());
                assert(y =~= y.push(a).drop_last());
            }
        }
        lemma_ordered_with_same_classes_equal(rest_first, rest_second);
        assert(first =~= rest_first.push(a));
        assert(second =~= rest_second.push(b));
    }
}

/// An entry among those of a listing that have `key` is in the listing.
proof fn lemma_class_member_in_listing(entries: Seq<EntryView>, key: SortKey, entry: EntryView)
    requires
        entries.filter(keyed(key)).contains(entry),
    ensures
        entries.contains(entry),
{
    broadcast use Seq::lemma_filter_contains_rev;

}

/// Whether an entry of the first kind and folded name stands strictly before
/// one of the second.
pub fn key_precedes(a_is_dir: bool, a_folded: &str, b_is_dir: bool, b_folded: &str) -> (r: bool)
    ensures
        r == key_lt(
            (SortKey { is_dir: a_is_dir, folded: a_folded@ }),
            (SortKey { is_dir: b_is_dir, folded: b_folded@ }),
        ),
{
    if a_is_dir == b_is_dir {
        text_precedes(a_folded, b_folded)
    } else {
        a_is_dir
    }
}

/// Sorts `entries`: directories before files, within each kind by name
/// without regard to case, ties in the order in which they came.
pub fn sort_entries(entries: &mut Vec<FileEntry>)
    ensures
        is_stable_ordering(old(entries).deep_view(), final(entries).deep_view()),
{
    let mut taken: Vec<FileEntry> = Vec::new();
    taken.append(entries);
    assert(taken.deep_view() =~= old(entries).deep_view());
    *entries = sorted_stably(taken);
}

} // verus!
