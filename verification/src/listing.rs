//! The listing of a directory: which of its children are markdown files, and
//! in what order they are shown.

use vstd::prelude::*;
use vstd::seq_lib::seq_to_set_is_finite;
use vstd::set_lib::{lemma_int_range, lemma_subset_equality, set_int_range};
use crate::document::{ChildView, DirChild, DirectoryEntry, EntryView};
use crate::path::{display_name, display_name_of, has_markdown_extension, is_markdown_name};
use crate::text::{
    chars_of, lemma_lex_lt_irreflexive, lemma_lex_lt_total, lemma_lex_lt_transitive, lex_less,
    lex_lt,
};

verus! {

/// The lower-case form of a text, as the standard library's
/// `str::to_lowercase` gives it.
pub uninterp spec fn lowercase(text: Seq<char>) -> Seq<char>;

/// Calls `str::to_lowercase`, which maps each character to its lower-case
/// form by the Unicode tables and allocates the result. Nothing is proved of
/// it: the contract only gives the result its name.
#[verifier::external_body]
fn to_lowercase(text: &str) -> (lowered: String)
    ensures
        lowered@ == lowercase(text@),
{
    text.to_lowercase()
}

/// Whether a child is listed: a regular file whose name carries a markdown
/// extension.
pub open spec fn is_listed(child: ChildView) -> bool {
    child.is_file && is_markdown_name(display_name(child.path))
}

/// The entry that a listed child is shown as.
pub open spec fn entry_of(child: ChildView) -> EntryView {
    EntryView { name: display_name(child.path), path: child.path }
}

/// The entries of the listed children, in the order in which the children
/// were enumerated.
pub open spec fn markdown_entries(children: Seq<ChildView>) -> Seq<EntryView> {
    children.filter(|child: ChildView| is_listed(child)).map_values(
        |child: ChildView| entry_of(child),
    )
}

/// The key that an entry is ordered by: its name in lower case.
pub open spec fn sort_key(entry: EntryView) -> Seq<char> {
    lowercase(entry.name)
}

/// Whether the item at index `a` stands before the item at index `b`: its key
/// comes first, or the keys are equal and it was enumerated first.
pub open spec fn precedes(keys: Seq<Seq<char>>, a: int, b: int) -> bool {
    lex_lt(keys[a], keys[b]) || (keys[a] == keys[b] && a < b)
}

/// Whether `order` lists the indices of `keys`, each before all that it
/// precedes.
pub open spec fn is_key_order(keys: Seq<Seq<char>>, order: Seq<int>) -> bool {
    &&& order.len() == keys.len()
    &&& forall|i: int| 0 <= i < order.len() ==> 0 <= #[trigger] order[i] < keys.len()
    &&& forall|i: int, j: int|
        #![trigger order[i], order[j]]
        0 <= i < j < order.len() ==> precedes(keys, order[i], order[j])
}

/// The order of the indices of `keys`. There is exactly one: see
/// `lemma_key_order_exists` and `lemma_key_order_unique`.
pub open spec fn key_order_of(keys: Seq<Seq<char>>) -> Seq<int> {
    choose|order: Seq<int>| is_key_order(keys, order)
}

/// The items of `items` sorted by their keys, items with equal keys in the
/// order in which they stand in `items`.
pub open spec fn arranged<T>(items: Seq<T>, keys: Seq<Seq<char>>) -> Seq<T> {
    key_order_of(keys).map_values(|i: int| items[i])
}

/// The keys of keyed items.
pub open spec fn keys_in(items: Seq<(Seq<char>, EntryView)>) -> Seq<Seq<char>> {
    items.map_values(|item: (Seq<char>, EntryView)| item.0)
}

/// The entries of keyed items.
pub open spec fn entries_in(items: Seq<(Seq<char>, EntryView)>) -> Seq<EntryView> {
    items.map_values(|item: (Seq<char>, EntryView)| item.1)
}

/// The listing of a directory with the children `children`: the entries of
/// its markdown files, sorted by name without regard to case, equal names in
/// the order of enumeration.
pub open spec fn listing_of(children: Seq<ChildView>) -> Seq<EntryView> {
    let entries = markdown_entries(children);
    arranged(entries, entries.map_values(|entry: EntryView| sort_key(entry)))
}

/// Nothing stands before itself.
pub proof fn lemma_precedes_irreflexive(keys: Seq<Seq<char>>, a: int)
    ensures
        !precedes(keys, a, a),
{
    lemma_lex_lt_irreflexive(keys[a]);
}

/// Standing before is transitive.
pub proof fn lemma_precedes_transitive(keys: Seq<Seq<char>>, a: int, b: int, c: int)
    requires
        precedes(keys, a, b),
        precedes(keys, b, c),
    ensures
        precedes(keys, a, c),
{
    if lex_lt(keys[a], keys[b]) && lex_lt(keys[b], keys[c]) {
        lemma_lex_lt_transitive(keys[a], keys[b], keys[c]);
    }
}

/// Of two different indices one stands before the other.
pub proof fn lemma_precedes_total(keys: Seq<Seq<char>>, a: int, b: int)
    ensures
        a == b || precedes(keys, a, b) || precedes(keys, b, a),
{
    lemma_lex_lt_total(keys[a], keys[b]);
}

/// An order of the indices of `keys` holds every index, and none twice.
pub proof fn lemma_key_order_is_permutation(keys: Seq<Seq<char>>, order: Seq<int>)
    requires
        is_key_order(keys, order),
    ensures
        order.no_duplicates(),
        forall|index: int| 0 <= index < keys.len() ==> order.contains(index),
{
    assert forall|i: int, j: int|
        0 <= i < order.len() && 0 <= j < order.len() && i != j implies order[i] != order[j] by {
        lemma_precedes_irreflexive(keys, order[i]);
        if i < j {
            assert(precedes(keys, order[i], order[j]));
        } else {
            assert(precedes(keys, order[j], order[i]));
        }
    }
    let all = set_int_range(0, keys.len() as int);
    order.unique_seq_to_set();
    seq_to_set_is_finite(order);
    lemma_int_range(0, keys.len() as int);
    assert forall|index: int| order.to_set().contains(index) implies all.contains(index) by {
        let i = choose|i: int| 0 <= i < order.len() && order[i] == index;
        assert(0 <= order[i] < keys.len());
    }
    lemma_subset_equality(order.to_set(), all);
    assert forall|index: int| 0 <= index < keys.len() implies order.contains(index) by {
        assert(all.contains(index));
    }
}

/// Two orders of the indices of the same keys are one: by which child comes
/// first among equal keys, the result of sorting is settled too.
pub proof fn lemma_key_order_unique(keys: Seq<Seq<char>>, first: Seq<int>, second: Seq<int>)
    requires
        is_key_order(keys, first),
        is_key_order(keys, second),
    ensures
        first == second,
{
    lemma_key_orders_agree(keys, first, second, keys.len() as int);
    assert(first =~= second);
}

proof fn lemma_key_orders_agree(keys: Seq<Seq<char>>, first: Seq<int>, second: Seq<int>, upto: int)
    requires
        is_key_order(keys, first),
        is_key_order(keys, second),
        0 <= upto <= keys.len(),
    ensures
        forall|i: int| 0 <= i < upto ==> first[i] == second[i],
    decreases upto,
{
    if upto > 0 {
        let at = upto - 1;
        lemma_key_orders_agree(keys, first, second, at);
        let a = first[at];
        let b = second[at];
        if a != b {
            lemma_precedes_total(keys, a, b);
            lemma_precedes_irreflexive(keys, a);
            lemma_precedes_irreflexive(keys, b);
            if precedes(keys, a, b) {
                lemma_key_order_is_permutation(keys, second);
                assert(second.contains(a));
                let j = choose|j: int| 0 <= j < second.len() && second[j] == a;
                if j < at {
                    assert(precedes(keys, first[j], first[at]));
                } else {
                    assert(precedes(keys, second[at], second[j]));
                    lemma_precedes_transitive(keys, a, b, a);
                }
            } else {
                lemma_key_order_is_permutation(keys, first);
                assert(first.contains(b));
                let j = choose|j: int| 0 <= j < first.len() && first[j] == b;
                if j < at {
                    assert(precedes(keys, second[j], second[at]));
                } else {
                    assert(precedes(keys, first[at], first[j]));
                    lemma_precedes_transitive(keys, b, a, b);
                }
            }
        }
    }
}

/// Where the last of `keys` goes among the indices before it: behind every
/// index whose key does not come after its own.
pub open spec fn slot_of_last(keys: Seq<Seq<char>>, order: Seq<int>) -> int
    decreases order.len(),
{
    if order.len() > 0 && lex_lt(keys.last(), keys[order.last()]) {
        slot_of_last(keys, order.drop_last())
    } else {
        order.len() as int
    }
}

proof fn lemma_slot_of_last(keys: Seq<Seq<char>>, order: Seq<int>)
    ensures
        0 <= slot_of_last(keys, order) <= order.len(),
        forall|j: int|
            slot_of_last(keys, order) <= j < order.len() ==> lex_lt(
                keys.last(),
                keys[#[trigger] order[j]],
            ),
        slot_of_last(keys, order) > 0 ==> !lex_lt(
            keys.last(),
            keys[order[slot_of_last(keys, order) - 1]],
        ),
    decreases order.len(),
{
    if order.len() > 0 && lex_lt(keys.last(), keys[order.last()]) {
        lemma_slot_of_last(keys, order.drop_last());
        let at = slot_of_last(keys, order);
        assert forall|j: int| at <= j < order.len() implies lex_lt(
            keys.last(),
            keys[#[trigger] order[j]],
        ) by {
            if j < order.len() - 1 {
                assert(order.drop_last()[j] == order[j]);
            }
        }
    }
}

/// Every sequence of keys has an order of its indices.
pub proof fn lemma_key_order_exists(keys: Seq<Seq<char>>)
    ensures
        is_key_order(keys, key_order_of(keys)),
    decreases keys.len(),
{
    if keys.len() == 0 {
        assert(is_key_order(keys, Seq::<int>::empty()));
    } else {
        let last = keys.len() - 1;
        let shorter = keys.drop_last();
        lemma_key_order_exists(shorter);
        let before = key_order_of(shorter);
        assert forall|a: int, b: int| 0 <= a < last && 0 <= b < last implies precedes(shorter, a, b)
            == precedes(keys, a, b) by {}
        let at = slot_of_last(keys, before);
        lemma_slot_of_last(keys, before);
        let order = before.insert(at, last);
        if at > 0 {
            let left = before[at - 1];
            lemma_precedes_total(keys, left, last);
            assert forall|j: int| 0 <= j < at implies precedes(
                keys,
                #[trigger] before[j],
                last,
            ) by {
                if j < at - 1 {
                    assert(precedes(shorter, before[j], before[at - 1]));
                    lemma_precedes_transitive(keys, before[j], left, last);
                }
            }
        }
        assert forall|i: int, j: int| 0 <= i < j < order.len() implies precedes(
            keys,
            order[i],
            order[j],
        ) by {
            if j < at {
                assert(precedes(shorter, before[i], before[j]));
            } else if j == at {
                assert(precedes(keys, before[i], last));
            } else if i < at {
                assert(precedes(shorter, before[i], before[j - 1]));
            } else if i == at {
                assert(lex_lt(keys[last], keys[before[j - 1]]));
            } else {
                assert(precedes(shorter, before[i - 1], before[j - 1]));
            }
        }
        assert forall|i: int| 0 <= i < order.len() implies 0 <= #[trigger] order[i]
            < keys.len() by {
            if i < at {
                assert(0 <= before[i] < last);
            } else if i > at {
                assert(0 <= before[i - 1] < last);
            }
        }
        assert(is_key_order(keys, order));
    }
}

/// Whether `entry` is the entry of the child at index `k`, a listed one.
pub open spec fn is_entry_of_child(children: Seq<ChildView>, k: int, entry: EntryView) -> bool {
    0 <= k < children.len() && is_listed(children[k]) && entry == entry_of(children[k])
}

/// Each entry of a directory stands for one of its children, a regular file
/// with a markdown extension.
pub proof fn lemma_entry_is_of_a_markdown_file(children: Seq<ChildView>, i: int)
    requires
        0 <= i < markdown_entries(children).len(),
    ensures
        exists|k: int| #[trigger] is_entry_of_child(children, k, markdown_entries(children)[i]),
{
    let listed = |child: ChildView| is_listed(child);
    let kept = children.filter(listed);
    children.lemma_filter_pred(listed, i);
    assert(kept.contains(kept[i]));
    children.lemma_filter_contains_rev(listed, kept[i]);
    let k = choose|k: int| 0 <= k < children.len() && children[k] == kept[i];
    assert(is_entry_of_child(children, k, markdown_entries(children)[i]));
}

/// Each child that is a regular file with a markdown extension has its entry.
pub proof fn lemma_markdown_file_has_its_entry(children: Seq<ChildView>, k: int)
    requires
        0 <= k < children.len(),
        is_listed(children[k]),
    ensures
        markdown_entries(children).contains(entry_of(children[k])),
{
    let listed = |child: ChildView| is_listed(child);
    let kept = children.filter(listed);
    children.lemma_filter_contains(listed, k);
    let i = choose|i: int| 0 <= i < kept.len() && kept[i] == children[k];
    assert(markdown_entries(children)[i] == entry_of(children[k]));
}

/// A listing holds the entries of the directory, each once, in the order of
/// their keys: no entry stands before one whose key comes first, and of two
/// entries with equal keys the one enumerated first stands first.
pub proof fn lemma_listing_is_ordered(children: Seq<ChildView>)
    ensures
        ({
            let entries = markdown_entries(children);
            let keys = entries.map_values(|entry: EntryView| sort_key(entry));
            let order = key_order_of(keys);
            let listing = listing_of(children);
            &&& listing.len() == entries.len()
            &&& order.len() == entries.len()
            &&& order.no_duplicates()
            &&& forall|i: int| 0 <= i < entries.len() ==> order.contains(i)
            &&& forall|i: int|
                0 <= i < listing.len() ==> 0 <= order[i] < entries.len() && #[trigger] listing[i]
                    == entries[order[i]]
            &&& forall|i: int, j: int|
                #![trigger listing[i], listing[j]]
                0 <= i < j < listing.len() ==> !lex_lt(sort_key(listing[j]), sort_key(listing[i]))
            &&& forall|i: int, j: int|
                #![trigger order[i], order[j]]
                0 <= i < j < listing.len() && sort_key(listing[i]) == sort_key(listing[j])
                    ==> order[i] < order[j]
        }),
{
    let entries = markdown_entries(children);
    let keys = entries.map_values(|entry: EntryView| sort_key(entry));
    let order = key_order_of(keys);
    let listing = listing_of(children);
    lemma_key_order_exists(keys);
    lemma_key_order_is_permutation(keys, order);
    assert forall|i: int, j: int| 0 <= i < j < listing.len() implies !lex_lt(
        sort_key(listing[j]),
        sort_key(listing[i]),
    ) && (sort_key(listing[i]) == sort_key(listing[j]) ==> order[i] < order[j]) by {
        assert(precedes(keys, order[i], order[j]));
        lemma_lex_lt_irreflexive(keys[order[i]]);
        if lex_lt(keys[order[j]], keys[order[i]]) && lex_lt(keys[order[i]], keys[order[j]]) {
            lemma_lex_lt_transitive(keys[order[i]], keys[order[j]], keys[order[i]]);
        }
    }
}

/// A listing holds what the directory's entries hold: nothing is lost and
/// nothing is added by putting them in order.
pub proof fn lemma_listing_holds_the_entries(children: Seq<ChildView>, entry: EntryView)
    ensures
        listing_of(children).contains(entry) <==> markdown_entries(children).contains(entry),
{
    let entries = markdown_entries(children);
    let keys = entries.map_values(|entry: EntryView| sort_key(entry));
    let order = key_order_of(keys);
    let listing = listing_of(children);
    lemma_key_order_exists(keys);
    lemma_key_order_is_permutation(keys, order);
    if listing.contains(entry) {
        let i = choose|i: int| 0 <= i < listing.len() && listing[i] == entry;
        assert(0 <= order[i] < entries.len());
        assert(entries[order[i]] == entry);
    }
    if entries.contains(entry) {
        let k = choose|k: int| 0 <= k < entries.len() && entries[k] == entry;
        assert(order.contains(k));
        let i = choose|i: int| 0 <= i < order.len() && order[i] == k;
        assert(listing[i] == entry);
    }
}

/// The keys held by `keys`, as values of specifications.
pub open spec fn key_views(keys: Seq<Vec<char>>) -> Seq<Seq<char>> {
    keys.map_values(|key: Vec<char>| key@)
}

/// The indices of `keys` in the order of their keys, equal keys by index.
fn key_order(keys: &Vec<Vec<char>>) -> (order: Vec<usize>)
    ensures
        is_key_order(key_views(keys@), order@.map_values(|i: usize| i as int)),
{
    let ghost ks = key_views(keys@);
    let mut order: Vec<usize> = Vec::new();
    let mut next: usize = 0;
    while next < keys.len()
        invariant
            ks == key_views(keys@),
            next <= keys.len(),
            order.len() == next,
            forall|i: int| 0 <= i < order.len() ==> #[trigger] order@[i] < next,
            forall|i: int, j: int|
                #![trigger order@[i], order@[j]]
                0 <= i < j < order.len() ==> precedes(ks, order@[i] as int, order@[j] as int),
        decreases keys.len() - next,
    {
        let mut at: usize = order.len();
        while at > 0 && lex_less(&keys[next], &keys[order[at - 1]])
            invariant
                ks == key_views(keys@),
                at <= order.len(),
                order.len() == next,
                next < keys.len(),
                forall|i: int| 0 <= i < order.len() ==> #[trigger] order@[i] < next,
                forall|j: int|
                    at <= j < order.len() ==> lex_lt(
                        ks[next as int],
                        ks[#[trigger] order@[j] as int],
                    ),
            decreases at,
        {
            at -= 1;
        }
        let ghost before = order@;
        proof {
            if at > 0 {
                let last = before[at - 1] as int;
                lemma_precedes_total(ks, last, next as int);
                assert forall|j: int| 0 <= j < at implies precedes(
                    ks,
                    #[trigger] before[j] as int,
                    next as int,
                ) by {
                    if j < at - 1 {
                        assert(precedes(ks, before[j] as int, before[at - 1] as int));
                        lemma_precedes_transitive(ks, before[j] as int, last, next as int);
                    }
                }
            }
        }
        order.insert(at, next);
        proof {
            assert forall|i: int, j: int| 0 <= i < j < order.len() implies precedes(
                ks,
                order@[i] as int,
                order@[j] as int,
            ) by {
                if j < at {
                    assert(precedes(ks, before[i] as int, before[j] as int));
                } else if j == at {
                    assert(precedes(ks, before[i] as int, next as int));
                } else if i < at {
                    assert(precedes(ks, before[i] as int, before[j - 1] as int));
                } else if i == at {
                    assert(lex_lt(ks[next as int], ks[before[j - 1] as int]));
                } else {
                    assert(precedes(ks, before[i - 1] as int, before[j - 1] as int));
                }
            }
            assert forall|i: int| 0 <= i < order.len() implies #[trigger] order@[i] < next + 1 by {
                if i < at {
                    assert(before[i] < next);
                } else if i > at {
                    assert(before[i - 1] < next);
                }
            }
        }
        next += 1;
    }
    order
}

/// The entries of `items` sorted by the keys that they come with, in the
/// lexicographic order of the keys' characters. Entries with equal keys stay
/// in the order in which they stand in `items`.
pub fn sort_by_key(items: &Vec<(String, DirectoryEntry)>) -> (sorted: Vec<DirectoryEntry>)
    ensures
        sorted.deep_view() == arranged(entries_in(items.deep_view()), keys_in(items.deep_view())),
{
    let mut keys: Vec<Vec<char>> = Vec::new();
    let mut i: usize = 0;
    while i < items.len()
        invariant
            i <= items.len(),
            keys.len() == i,
            forall|k: int| 0 <= k < i ==> (#[trigger] keys@[k])@ == items@[k].0@,
        decreases items.len() - i,
    {
        keys.push(chars_of(items[i].0.as_str()));
        i += 1;
    }
    assert(key_views(keys@) =~= keys_in(items.deep_view()));
    let order = key_order(&keys);
    let ghost places = order@.map_values(|i: usize| i as int);
    assert forall|j: int| 0 <= j < order.len() implies 0 <= #[trigger] order@[j] < items.len() by {
        assert(places[j] == order@[j]);
    }
    let mut sorted: Vec<DirectoryEntry> = Vec::new();
    let mut k: usize = 0;
    while k < order.len()
        invariant
            k <= order.len(),
            order.len() == items.len(),
            sorted.len() == k,
            forall|j: int| 0 <= j < order.len() ==> 0 <= #[trigger] order@[j] < items.len(),
            forall|j: int| 0 <= j < k ==> (#[trigger] sorted@[j])@ == items@[order@[j] as int].1@,
        decreases order.len() - k,
    {
        let entry = &items[order[k]].1;
        sorted.push(DirectoryEntry { name: entry.name.clone(), path: entry.path.clone() });
        k += 1;
    }
    proof {
        let entries = entries_in(items.deep_view());
        let keys = keys_in(items.deep_view());
        lemma_key_order_unique(keys, places, key_order_of(keys));
        assert(sorted.deep_view() =~= places.map_values(|i: int| entries[i]));
    }
    sorted
}

/// The listing of a directory whose direct children are `children`, in the
/// order in which the file system enumerated them. That order bears on the
/// result only where two names are equal but for case.
pub fn list_markdown_files(children: &Vec<DirChild>) -> (listing: Vec<DirectoryEntry>)
    ensures
        listing.deep_view() == listing_of(children.deep_view()),
{
    let mut keyed: Vec<(String, DirectoryEntry)> = Vec::new();
    let mut i: usize = 0;
    assert(children.deep_view().take(0) =~= Seq::<ChildView>::empty());
    assert(entries_in(keyed.deep_view()) =~= Seq::<EntryView>::empty());
    assert(keys_in(keyed.deep_view()) =~= Seq::<Seq<char>>::empty());
    proof {
        lemma_markdown_entries_empty();
    }
    while i < children.len()
        invariant
            i <= children.len(),
            entries_in(keyed.deep_view()) == markdown_entries(children.deep_view().take(i as int)),
            keys_in(keyed.deep_view()) == entries_in(keyed.deep_view()).map_values(
                |entry: EntryView| sort_key(entry),
            ),
        decreases children.len() - i,
    {
        let child = &children[i];
        let ghost seen = children.deep_view().take(i as int);
        let ghost before = keyed.deep_view();
        proof {
            lemma_markdown_entries_push(seen, child@);
            assert(seen.push(child@) =~= children.deep_view().take(i + 1));
        }
        if child.is_file {
            let name = display_name_of(child.path.as_str());
            if has_markdown_extension(name.as_str()) {
                let key = to_lowercase(name.as_str());
                keyed.push((key, DirectoryEntry { name, path: child.path.clone() }));
                proof {
                    let item = (sort_key(entry_of(child@)), entry_of(child@));
                    assert(keyed.deep_view() =~= before.push(item));
                    assert(entries_in(before.push(item)) =~= entries_in(before).push(item.1));
                    assert(keys_in(before.push(item)) =~= keys_in(before).push(item.0));
                    assert(entries_in(before).push(item.1).map_values(
                        |entry: EntryView| sort_key(entry),
                    ) =~= entries_in(before).map_values(|entry: EntryView| sort_key(entry)).push(
                        item.0,
                    ));
                }
            }
        }
        i += 1;
    }
    assert(children.deep_view().take(children.len() as int) =~= children.deep_view());
    sort_by_key(&keyed)
}

/// A directory without children has no entries.
pub proof fn lemma_markdown_entries_empty()
    ensures
        markdown_entries(Seq::empty()) == Seq::<EntryView>::empty(),
{
    reveal(Seq::filter);
    assert(markdown_entries(Seq::empty()) =~= Seq::<EntryView>::empty());
}

/// One more child adds its entry at the end if it is listed, and nothing if
/// it is not.
pub proof fn lemma_markdown_entries_push(children: Seq<ChildView>, child: ChildView)
    ensures
        markdown_entries(children.push(child)) == if is_listed(child) {
            markdown_entries(children).push(entry_of(child))
        } else {
            markdown_entries(children)
        },
{
    let listed = |child: ChildView| is_listed(child);
    children.lemma_filter_push(child, listed);
    if is_listed(child) {
        assert(children.filter(listed).push(child).map_values(|child: ChildView| entry_of(child))
            =~= children.filter(listed).map_values(|child: ChildView| entry_of(child)).push(
            entry_of(child),
        ));
    }
}

} // verus!
