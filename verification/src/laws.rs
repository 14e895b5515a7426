//! Laws of the filter and synchronization operations, stated over the same
//! spec functions the operations' contracts use.

use crate::state::filter_spec;
use crate::state::reconcile_view;
use crate::state::source_value;
use crate::state::sources_spec;
use crate::state::sync_spec;
use crate::state::sync_step;
use crate::state::SourceItemView;
use crate::strings::contains_seq;
use crate::strings::decimal_of;
use crate::strings::lemma_decimal_injective;
use vstd::prelude::*;

verus! {

/// No two rows share an identifier.
pub open spec fn distinct_values(items: Seq<SourceItemView>) -> bool {
    forall|i: int, j: int| 0 <= i < j < items.len() ==> items[i].value != items[j].value
}

/// Every row's checked flag already mirrors membership of its identifier in
/// the selection set.
pub open spec fn reconciled(items: Seq<SourceItemView>, selected: Seq<Seq<char>>) -> bool {
    forall|i: int|
        0 <= i < items.len() ==> (#[trigger] items[i]).checked == selected.contains(items[i].value)
}

/// The empty pattern occurs in every text.
pub proof fn lemma_contains_empty(text: Seq<char>)
    ensures
        contains_seq(text, Seq::<char>::empty()),
{
    assert(text.subrange(0, 0 + Seq::<char>::empty().len() as int) =~= Seq::<char>::empty());
}

/// Every row of the filtered view has a text that contains the search string
/// and a checked flag that mirrors membership of its identifier in the
/// selection set.
pub proof fn lemma_filter_elements(
    raw: Seq<SourceItemView>,
    search: Seq<char>,
    selected: Seq<Seq<char>>,
)
    ensures
        forall|i: int|
            0 <= i < filter_spec(raw, search, selected).len() ==> contains_seq(
                (#[trigger] filter_spec(raw, search, selected)[i]).text,
                search,
            ),
        reconciled(filter_spec(raw, search, selected), selected),
    decreases raw.len(),
{
    if raw.len() > 0 {
        lemma_filter_elements(raw.drop_last(), search, selected);
        let rest = filter_spec(raw.drop_last(), search, selected);
        let f = filter_spec(raw, search, selected);
        if contains_seq(raw.last().text, search) {
            assert(f == rest.push(reconcile_view(raw.last(), selected)));
            assert(forall|i: int| 0 <= i < rest.len() ==> f[i] == rest[i]);
            assert(f[f.len() - 1] == reconcile_view(raw.last(), selected));
        }
    }
}

/// Filtering keeps the master list's relative order: the filtered view is
/// exactly the order-preserving subsequence selection (`Seq::filter`) of the
/// reconciled master list by substring containment.
pub proof fn lemma_filter_preserves_order(
    raw: Seq<SourceItemView>,
    search: Seq<char>,
    selected: Seq<Seq<char>>,
)
    ensures
        filter_spec(raw, search, selected) == raw.map_values(
            |it: SourceItemView| reconcile_view(it, selected),
        ).filter(|it: SourceItemView| contains_seq(it.text, search)),
    decreases raw.len(),
{
    reveal(Seq::filter);
    let recon = |it: SourceItemView| reconcile_view(it, selected);
    let pred = |it: SourceItemView| contains_seq(it.text, search);
    if raw.len() == 0 {
        assert(raw.map_values(recon) =~= Seq::<SourceItemView>::empty());
        assert(filter_spec(raw, search, selected) =~= raw.map_values(recon).filter(pred));
    } else {
        lemma_filter_preserves_order(raw.drop_last(), search, selected);
        let m = raw.map_values(recon);
        assert(m.drop_last() =~= raw.drop_last().map_values(recon));
        assert(m.last() == recon(raw.last()));
        assert(pred(m.last()) == contains_seq(raw.last().text, search));
    }
}

/// Filtering by the empty search string returns every item of the master
/// list, in order, with each checked flag re-derived from the selection set.
pub proof fn lemma_filter_empty_search(raw: Seq<SourceItemView>, selected: Seq<Seq<char>>)
    ensures
        filter_spec(raw, Seq::<char>::empty(), selected) == raw.map_values(
            |it: SourceItemView| reconcile_view(it, selected),
        ),
    decreases raw.len(),
{
    if raw.len() == 0 {
        assert(filter_spec(raw, Seq::<char>::empty(), selected) =~= raw.map_values(
            |it: SourceItemView| reconcile_view(it, selected),
        ));
    } else {
        lemma_filter_empty_search(raw.drop_last(), selected);
        lemma_contains_empty(raw.last().text);
        assert(raw.map_values(|it: SourceItemView| reconcile_view(it, selected)) =~= raw.drop_last(
        ).map_values(|it: SourceItemView| reconcile_view(it, selected)).push(
            reconcile_view(raw.last(), selected),
        ));
    }
}

/// On a master list whose checked flags already mirror the selection set,
/// filtering by the empty search string returns the master list unchanged.
pub proof fn lemma_filter_empty_search_reconciled(
    raw: Seq<SourceItemView>,
    selected: Seq<Seq<char>>,
)
    requires
        reconciled(raw, selected),
    ensures
        filter_spec(raw, Seq::<char>::empty(), selected) == raw,
{
    lemma_filter_empty_search(raw, selected);
    assert(raw.map_values(|it: SourceItemView| reconcile_view(it, selected)) =~= raw);
}

/// A list all of whose rows match the search string and mirror the selection
/// set passes through the filter unchanged.
pub proof fn lemma_filter_all_pass(
    items: Seq<SourceItemView>,
    search: Seq<char>,
    selected: Seq<Seq<char>>,
)
    requires
        forall|i: int|
            0 <= i < items.len() ==> contains_seq((#[trigger] items[i]).text, search),
        reconciled(items, selected),
    ensures
        filter_spec(items, search, selected) == items,
    decreases items.len(),
{
    if items.len() > 0 {
        assert(contains_seq(items[items.len() - 1].text, search));
        lemma_filter_all_pass(items.drop_last(), search, selected);
        assert(reconcile_view(items.last(), selected) == items.last());
        assert(items.drop_last().push(items.last()) =~= items);
    }
}

/// Idempotence: filtering an already-filtered list again, by the same search
/// string and selection set, changes nothing.
pub proof fn lemma_filter_idempotent(
    raw: Seq<SourceItemView>,
    search: Seq<char>,
    selected: Seq<Seq<char>>,
)
    ensures
        filter_spec(filter_spec(raw, search, selected), search, selected) == filter_spec(
            raw,
            search,
            selected,
        ),
{
    lemma_filter_elements(raw, search, selected);
    lemma_filter_all_pass(filter_spec(raw, search, selected), search, selected);
}

/// Every identifier in the filtered view comes from the master list.
pub proof fn lemma_filter_values_from_raw(
    raw: Seq<SourceItemView>,
    search: Seq<char>,
    selected: Seq<Seq<char>>,
    i: int,
)
    requires
        0 <= i < filter_spec(raw, search, selected).len(),
    ensures
        exists|j: int|
            0 <= j < raw.len() && (#[trigger] raw[j]).value == filter_spec(
                raw,
                search,
                selected,
            )[i].value,
    decreases raw.len(),
{
    let f = filter_spec(raw, search, selected);
    let rest = filter_spec(raw.drop_last(), search, selected);
    if i < rest.len() {
        lemma_filter_values_from_raw(raw.drop_last(), search, selected, i);
        let j = choose|j: int| 0 <= j < raw.drop_last().len() && raw.drop_last()[j].value == rest[i].value;
        assert(raw[j].value == f[i].value);
    } else {
        assert(f[i] == reconcile_view(raw.last(), selected));
        assert(raw[raw.len() - 1].value == f[i].value);
    }
}

/// Filtering a master list with pairwise-distinct identifiers yields a
/// filtered view with pairwise-distinct identifiers.
pub proof fn lemma_filter_distinct(
    raw: Seq<SourceItemView>,
    search: Seq<char>,
    selected: Seq<Seq<char>>,
)
    requires
        distinct_values(raw),
    ensures
        distinct_values(filter_spec(raw, search, selected)),
    decreases raw.len(),
{
    if raw.len() > 0 {
        lemma_filter_distinct(raw.drop_last(), search, selected);
        let rest = filter_spec(raw.drop_last(), search, selected);
        let f = filter_spec(raw, search, selected);
        if contains_seq(raw.last().text, search) {
            assert forall|i: int| 0 <= i < rest.len() implies rest[i].value != raw.last().value by {
                lemma_filter_values_from_raw(raw.drop_last(), search, selected, i);
                let j = choose|j: int|
                    0 <= j < raw.drop_last().len() && raw.drop_last()[j].value == rest[i].value;
                assert(raw[j].value != raw[raw.len() - 1].value);
            }
            assert forall|i: int, j: int| 0 <= i < j < f.len() implies f[i].value != f[j].value by {
                if j < rest.len() {
                    assert(f[i] == rest[i] && f[j] == rest[j]);
                } else {
                    assert(f[i] == rest[i]);
                    assert(f[j] == reconcile_view(raw.last(), selected));
                }
            }
        }
    }
}

/// The synthetic master list carries pairwise-distinct identifiers, so the
/// synchronization laws apply to every filtered view derived from it.
pub proof fn lemma_sources_distinct(n: nat)
    ensures
        distinct_values(sources_spec(n)),
{
    let items = sources_spec(n);
    assert forall|i: int, j: int| 0 <= i < j < items.len() implies items[i].value
        != items[j].value by {
        assert(items[i].value == source_value((i + 1) as nat));
        assert(items[j].value == source_value((j + 1) as nat));
        if items[i].value == items[j].value {
            assert(decimal_of((i + 1) as nat) =~= source_value((i + 1) as nat).subrange(
                7,
                source_value((i + 1) as nat).len() as int,
            ));
            assert(decimal_of((j + 1) as nat) =~= source_value((j + 1) as nat).subrange(
                7,
                source_value((j + 1) as nat).len() as int,
            ));
            lemma_decimal_injective((i + 1) as nat, (j + 1) as nat);
        }
    }
}

/// Membership in a pushed sequence: the pushed element, or an element that
/// was already there.
proof fn lemma_push_membership(s: Seq<Seq<char>>, x: Seq<char>, v: Seq<char>)
    ensures
        s.push(x).contains(v) == (s.contains(v) || v == x),
{
    if s.contains(v) {
        let w = choose|w: int| 0 <= w < s.len() && s[w] == v;
        assert(s.push(x)[w] == v);
    }
    if v == x {
        assert(s.push(x)[s.len() as int] == v);
    }
    if s.push(x).contains(v) && v != x {
        let w = choose|w: int| 0 <= w < s.push(x).len() && s.push(x)[w] == v;
        assert(s[w] == v);
    }
}

/// Membership after removing the first occurrence of `u`: unchanged for any
/// other value; gone for `u` itself when the sequence had no duplicates.
proof fn lemma_remove_value_membership(s: Seq<Seq<char>>, u: Seq<char>, v: Seq<char>)
    requires
        s.no_duplicates(),
    ensures
        v != u ==> s.remove_value(u).contains(v) == s.contains(v),
        v == u ==> !s.remove_value(u).contains(v),
{
    s.index_of_first_ensures(u);
    match s.index_of_first(u) {
        Some(k) => {
            let r = s.remove(k);
            assert forall|w: int| 0 <= w < r.len() implies r[w] == (if w < k {
                s[w]
            } else {
                s[w + 1]
            }) by {}
            if v == u {
                if r.contains(v) {
                    let w = choose|w: int| 0 <= w < r.len() && r[w] == v;
                    if w < k {
                        assert(s[w] == u);
                    } else {
                        assert(s[w + 1] == u);
                    }
                }
            } else {
                if s.contains(v) {
                    let w = choose|w: int| 0 <= w < s.len() && s[w] == v;
                    if w < k {
                        assert(r[w] == v);
                    } else {
                        assert(w != k);
                        assert(r[w - 1] == v);
                    }
                }
                if r.contains(v) {
                    let w = choose|w: int| 0 <= w < r.len() && r[w] == v;
                    if w < k {
                        assert(s[w] == v);
                    } else {
                        assert(s[w + 1] == v);
                    }
                }
            }
        },
        None => {},
    }
}

/// Removing the first occurrence of a value keeps the sequence free of
/// duplicates.
proof fn lemma_remove_value_no_dup(s: Seq<Seq<char>>, u: Seq<char>)
    requires
        s.no_duplicates(),
    ensures
        s.remove_value(u).no_duplicates(),
{
    s.index_of_first_ensures(u);
    match s.index_of_first(u) {
        Some(k) => {
            let r = s.remove(k);
            assert forall|i: int, j: int| 0 <= i < j < r.len() implies r[i] != r[j] by {
                let si: int = if i < k {
                    i
                } else {
                    i + 1
                };
                let sj: int = if j < k {
                    j
                } else {
                    j + 1
                };
                assert(r[i] == s[si] && r[j] == s[sj]);
            }
        },
        None => {},
    }
}

/// One synchronization step keeps the selection set free of duplicates.
pub proof fn lemma_sync_step_no_dup(selected: Seq<Seq<char>>, item: SourceItemView)
    requires
        selected.no_duplicates(),
    ensures
        sync_step(selected, item).no_duplicates(),
{
    if item.checked {
        if !selected.contains(item.value) {
            let p = selected.push(item.value);
            assert forall|i: int, j: int| 0 <= i < j < p.len() implies p[i] != p[j] by {
                if j < selected.len() {
                    assert(p[i] == selected[i] && p[j] == selected[j]);
                } else {
                    assert(p[j] == item.value && p[i] == selected[i]);
                }
            }
        }
    } else {
        lemma_remove_value_no_dup(selected, item.value);
    }
}

/// After one synchronization step for `item`, membership of `item.value` in
/// the selection set equals `item.checked`; membership of every other value
/// is untouched.
pub proof fn lemma_sync_step_membership(
    selected: Seq<Seq<char>>,
    item: SourceItemView,
    v: Seq<char>,
)
    requires
        selected.no_duplicates(),
    ensures
        sync_step(selected, item).contains(v) == (if v == item.value {
            item.checked
        } else {
            selected.contains(v)
        }),
{
    if item.checked {
        if !selected.contains(item.value) {
            lemma_push_membership(selected, item.value, v);
        }
    } else {
        lemma_remove_value_membership(selected, item.value, v);
    }
}

/// Synchronizing rows none of which carries identifier `v` does not change
/// membership of `v` in the selection set.
pub proof fn lemma_sync_unrelated(
    selected: Seq<Seq<char>>,
    items: Seq<SourceItemView>,
    v: Seq<char>,
)
    requires
        selected.no_duplicates(),
        forall|j: int| 0 <= j < items.len() ==> (#[trigger] items[j]).value != v,
    ensures
        sync_spec(selected, items).contains(v) == selected.contains(v),
        sync_spec(selected, items).no_duplicates(),
    decreases items.len(),
{
    if items.len() > 0 {
        lemma_sync_step_membership(selected, items.first(), v);
        lemma_sync_step_no_dup(selected, items.first());
        lemma_sync_unrelated(sync_step(selected, items.first()), items.drop_first(), v);
    }
}

/// Synchronization keeps the selection set free of duplicates.
pub proof fn lemma_sync_preserves_no_dup(selected: Seq<Seq<char>>, items: Seq<SourceItemView>)
    requires
        selected.no_duplicates(),
    ensures
        sync_spec(selected, items).no_duplicates(),
    decreases items.len(),
{
    if items.len() > 0 {
        lemma_sync_step_no_dup(selected, items.first());
        lemma_sync_preserves_no_dup(sync_step(selected, items.first()), items.drop_first());
    }
}

/// After synchronization, membership of a row's identifier in the selection
/// set equals that row's checked flag, for every row of the view — provided
/// the selection set holds no duplicates and the rows' identifiers are
/// pairwise distinct.
pub proof fn lemma_sync_matches_view(
    selected: Seq<Seq<char>>,
    items: Seq<SourceItemView>,
    i: int,
)
    requires
        selected.no_duplicates(),
        distinct_values(items),
        0 <= i < items.len(),
    ensures
        sync_spec(selected, items).contains(items[i].value) == items[i].checked,
    decreases items.len(),
{
    let sel1 = sync_step(selected, items.first());
    lemma_sync_step_no_dup(selected, items.first());
    if i == 0 {
        lemma_sync_step_membership(selected, items.first(), items[0].value);
        assert(forall|j: int|
            0 <= j < items.drop_first().len() ==> (#[trigger] items.drop_first()[j]).value
                != items[0].value);
        lemma_sync_unrelated(sel1, items.drop_first(), items[0].value);
    } else {
        assert(distinct_values(items.drop_first()));
        lemma_sync_matches_view(sel1, items.drop_first(), i - 1);
        assert(items.drop_first()[i - 1] == items[i]);
    }
}

} // verus!
