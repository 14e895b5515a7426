//! The application state: a master list of source items, a search string,
//! the filtered view derived from the master list, and the selection set of
//! item identifiers. The two mutating operations — `filter` and
//! `on_toggle_source` — are specified exactly over mathematical views.

use crate::strings::contains_seq;
use crate::strings::decimal_of;
use crate::strings::push_decimal;
use crate::strings::str_contains;
use vstd::prelude::*;
use vstd::string::StringExecFns;

verus! {

/// One row of the list: a checked flag, a display text, and a stable
/// identifier distinct from the display text.
#[derive(Clone, Debug)]
pub struct SourceItem {
    pub checked: bool,
    pub text: String,
    pub value: String,
}

/// Mathematical view of a `SourceItem`: the strings as character sequences.
pub ghost struct SourceItemView {
    pub checked: bool,
    pub text: Seq<char>,
    pub value: Seq<char>,
}

impl View for SourceItem {
    type V = SourceItemView;

    open spec fn view(&self) -> SourceItemView {
        SourceItemView { checked: self.checked, text: self.text@, value: self.value@ }
    }
}

impl DeepView for SourceItem {
    type V = SourceItemView;

    open spec fn deep_view(&self) -> SourceItemView {
        self.view()
    }
}

/// `item` with its checked flag re-derived from the selection set:
/// checked exactly when the item's identifier is a member.
pub open spec fn reconcile_view(item: SourceItemView, selected: Seq<Seq<char>>) -> SourceItemView {
    SourceItemView { checked: selected.contains(item.value), text: item.text, value: item.value }
}

/// The filtered view of `raw` under search string `search` and selection set
/// `selected`: exactly the items whose text contains `search`, in the order
/// they have in `raw`, each with its checked flag re-derived from `selected`.
pub open spec fn filter_spec(
    raw: Seq<SourceItemView>,
    search: Seq<char>,
    selected: Seq<Seq<char>>,
) -> Seq<SourceItemView>
    decreases raw.len(),
{
    if raw.len() == 0 {
        Seq::empty()
    } else {
        let rest = filter_spec(raw.drop_last(), search, selected);
        if contains_seq(raw.last().text, search) {
            rest.push(reconcile_view(raw.last(), selected))
        } else {
            rest
        }
    }
}

/// The selection set after one row has been synchronized: a checked row's
/// identifier is appended unless already present; an unchecked row's
/// identifier loses its first occurrence if present.
pub open spec fn sync_step(selected: Seq<Seq<char>>, item: SourceItemView) -> Seq<Seq<char>> {
    if item.checked {
        if selected.contains(item.value) {
            selected
        } else {
            selected.push(item.value)
        }
    } else {
        selected.remove_value(item.value)
    }
}

/// The selection set after every row of `items` has been synchronized, in
/// order.
pub open spec fn sync_spec(selected: Seq<Seq<char>>, items: Seq<SourceItemView>) -> Seq<Seq<char>>
    decreases items.len(),
{
    if items.len() == 0 {
        selected
    } else {
        sync_spec(sync_step(selected, items.first()), items.drop_first())
    }
}

/// Synchronizing `items.push(item)` is synchronizing `items`, then one more
/// step for `item`.
pub proof fn lemma_sync_spec_snoc(
    selected: Seq<Seq<char>>,
    items: Seq<SourceItemView>,
    item: SourceItemView,
)
    ensures
        sync_spec(selected, items.push(item)) == sync_step(sync_spec(selected, items), item),
    decreases items.len(),
{
    let p = items.push(item);
    if items.len() == 0 {
        assert(p.first() == item);
        assert(p.drop_first().len() == 0);
        assert(sync_spec(selected, p) == sync_spec(sync_step(selected, item), p.drop_first()));
        assert(sync_spec(sync_step(selected, item), p.drop_first()) == sync_step(selected, item));
        assert(sync_spec(selected, items) == selected);
    } else {
        assert(p.first() == items.first());
        assert(p.drop_first() =~= items.drop_first().push(item));
        lemma_sync_spec_snoc(sync_step(selected, items.first()), items.drop_first(), item);
        assert(sync_spec(selected, p) == sync_spec(sync_step(selected, p.first()), p.drop_first()));
        assert(sync_spec(selected, items) == sync_spec(
            sync_step(selected, items.first()),
            items.drop_first(),
        ));
    }
}

/// Removes the first occurrence of `v` from the selection set, if any.
pub fn remove_selected(selected: &mut Vec<String>, v: &String) -> (removed: bool)
    ensures
        final(selected).deep_view() == old(selected).deep_view().remove_value(v@),
        removed == old(selected).deep_view().contains(v@),
{
    let n = selected.len();
    let mut j: usize = 0;
    while j < n
        invariant
            n == selected.len(),
            j <= n,
            *selected == *old(selected),
            forall|k: int| 0 <= k < j ==> selected.deep_view()[k] != v@,
        decreases n - j,
    {
        if selected[j].eq(v) {
            proof {
                let pre = selected.deep_view();
                assert(pre[j as int] == v@);
                pre.index_of_first_ensures(v@);
                assert(pre.index_of_first(v@) == Some(j as int));
            }
            selected.remove(j);
            proof {
                assert(selected.deep_view() =~= old(selected).deep_view().remove(j as int));
            }
            return true;
        }
        j += 1;
    }
    proof {
        let pre = selected.deep_view();
        pre.index_of_first_ensures(v@);
        if pre.contains(v@) {
            let w = choose|w: int| 0 <= w < pre.len() && pre[w] == v@;
            assert(pre[w] != v@);
        }
    }
    false
}

/// The application state bound to the widgets.
#[derive(Clone, Debug)]
pub struct AppState {
    pub checked: bool,
    pub on: bool,
    pub stepper_value: i64,
    pub selected: Vec<String>,
    pub search: String,
    pub raw_sources: Vec<SourceItem>,
    pub filtered_sources: Vec<SourceItem>,
}

/// How `filter` changes the state: the filtered view is rebuilt from the
/// master list, the search string, and the selection set; every other field
/// keeps its value.
pub open spec fn filter_rel(pre: AppState, post: AppState) -> bool {
    &&& post.filtered_sources.deep_view() == filter_spec(
        pre.raw_sources.deep_view(),
        pre.search@,
        pre.selected.deep_view(),
    )
    &&& post.checked == pre.checked
    &&& post.on == pre.on
    &&& post.stepper_value == pre.stepper_value
    &&& post.selected == pre.selected
    &&& post.search == pre.search
    &&& post.raw_sources == pre.raw_sources
}

/// How `on_toggle_source` changes the state: the selection set is
/// synchronized from the filtered view; every other field keeps its value.
pub open spec fn sync_rel(pre: AppState, post: AppState) -> bool {
    &&& post.selected.deep_view() == sync_spec(
        pre.selected.deep_view(),
        pre.filtered_sources.deep_view(),
    )
    &&& post.checked == pre.checked
    &&& post.on == pre.on
    &&& post.stepper_value == pre.stepper_value
    &&& post.search == pre.search
    &&& post.raw_sources == pre.raw_sources
    &&& post.filtered_sources == pre.filtered_sources
}

/// Membership of `v` in the selection set, by linear scan.
pub fn selected_contains(selected: &Vec<String>, v: &String) -> (r: bool)
    ensures
        r == selected.deep_view().contains(v@),
{
    let n = selected.len();
    let mut i: usize = 0;
    while i < n
        invariant
            n == selected.len(),
            i <= n,
            forall|k: int| 0 <= k < i ==> selected.deep_view()[k] != v@,
        decreases n - i,
    {
        if selected[i].eq(v) {
            proof {
                assert(selected.deep_view()[i as int] == v@);
            }
            return true;
        }
        i += 1;
    }
    false
}

impl AppState {
    /// The search string is non-empty.
    pub fn has_filter(&mut self) -> (r: bool)
        ensures
            *final(self) == *old(self),
            r == (old(self).search@.len() != 0),
    {
        self.search.as_str().unicode_len() > 0
    }

    /// Rebuilds the filtered view from the master list: keeps exactly the
    /// items whose text contains the current search string (all of them when
    /// it is empty), in master-list order, and re-derives each kept item's
    /// checked flag from the selection set. No other field changes.
    pub fn filter(&mut self)
        ensures
            filter_rel(*old(self), *final(self)),
    {
        let ghost raw_view = self.raw_sources.deep_view();
        let ghost search_view = self.search@;
        let ghost sel_view = self.selected.deep_view();
        let n = self.raw_sources.len();
        let mut out: Vec<SourceItem> = Vec::new();
        let mut i: usize = 0;
        while i < n
            invariant
                n == self.raw_sources.len(),
                i <= n,
                raw_view == self.raw_sources.deep_view(),
                search_view == self.search@,
                sel_view == self.selected.deep_view(),
                out.deep_view() == filter_spec(raw_view.take(i as int), search_view, sel_view),
            decreases n - i,
        {
            let keep = str_contains(self.raw_sources[i].text.as_str(), self.search.as_str());
            if keep {
                let checked = selected_contains(&self.selected, &self.raw_sources[i].value);
                let item = SourceItem {
                    checked,
                    text: self.raw_sources[i].text.clone(),
                    value: self.raw_sources[i].value.clone(),
                };
                out.push(item);
            }
            proof {
                assert(raw_view.take(i + 1).drop_last() =~= raw_view.take(i as int));
                assert(raw_view.take(i + 1).last() == raw_view[i as int]);
                assert(out.deep_view() =~= filter_spec(
                    raw_view.take(i + 1),
                    search_view,
                    sel_view,
                ));
            }
            i += 1;
        }
        proof {
            assert(raw_view.take(n as int) =~= raw_view);
        }
        self.filtered_sources = out;
    }

    /// Synchronizes the selection set from the filtered view: walks the
    /// filtered rows in order; a checked row's identifier is appended to the
    /// selection set unless already present, an unchecked row's identifier is
    /// removed from it if present. The flag a toggle handler would pass is
    /// ignored: the rows' own checked flags decide. No other field changes.
    pub fn on_toggle_source(&mut self, _checked: bool)
        ensures
            sync_rel(*old(self), *final(self)),
    {
        let ghost sel0 = self.selected.deep_view();
        let ghost items = self.filtered_sources.deep_view();
        let n = self.filtered_sources.len();
        let mut i: usize = 0;
        while i < n
            invariant
                n == self.filtered_sources.len(),
                i <= n,
                items == self.filtered_sources.deep_view(),
                self.selected.deep_view() == sync_spec(sel0, items.take(i as int)),
                self.checked == old(self).checked,
                self.on == old(self).on,
                self.stepper_value == old(self).stepper_value,
                self.search == old(self).search,
                self.raw_sources == old(self).raw_sources,
                self.filtered_sources == old(self).filtered_sources,
            decreases n - i,
        {
            let ghost sel_before = self.selected.deep_view();
            let row_checked = self.filtered_sources[i].checked;
            let value = self.filtered_sources[i].value.clone();
            proof {
                assert(value@ == items[i as int].value);
            }
            if row_checked {
                if !selected_contains(&self.selected, &value) {
                    self.selected.push(value);
                    proof {
                        assert(self.selected.deep_view() =~= sel_before.push(
                            items[i as int].value,
                        ));
                    }
                }
            } else {
                remove_selected(&mut self.selected, &value);
            }
            proof {
                assert(self.selected.deep_view() == sync_step(sel_before, items[i as int]));
                assert(items.take(i + 1) =~= items.take(i as int).push(items[i as int]));
                lemma_sync_spec_snoc(sel0, items.take(i as int), items[i as int]);
            }
            i += 1;
        }
        proof {
            assert(items.take(n as int) =~= items);
        }
    }
}

/// Display text of the synthetic source item numbered `i`: "source ", then
/// the decimal rendering of `i`.
pub open spec fn source_text(i: nat) -> Seq<char> {
    seq!['s', 'o', 'u', 'r', 'c', 'e', ' '] + decimal_of(i)
}

/// Identifier of the synthetic source item numbered `i`: "source-", then the
/// decimal rendering of `i`.
pub open spec fn source_value(i: nat) -> Seq<char> {
    seq!['s', 'o', 'u', 'r', 'c', 'e', '-'] + decimal_of(i)
}

/// The synthetic master list of `n` items, numbered 1 through `n`, none of
/// them checked.
pub open spec fn sources_spec(n: nat) -> Seq<SourceItemView> {
    Seq::new(
        n,
        |i: int|
            SourceItemView {
                checked: false,
                text: source_text((i + 1) as nat),
                value: source_value((i + 1) as nat),
            },
    )
}

fn make_source_text(i: u32) -> (r: String)
    ensures
        r@ == source_text(i as nat),
{
    let mut s = String::from_str("source ");
    proof {
        reveal_strlit("source ");
        assert(s@ =~= seq!['s', 'o', 'u', 'r', 'c', 'e', ' ']);
    }
    push_decimal(&mut s, i);
    s
}

fn make_source_value(i: u32) -> (r: String)
    ensures
        r@ == source_value(i as nat),
{
    let mut s = String::from_str("source-");
    proof {
        reveal_strlit("source-");
        assert(s@ =~= seq!['s', 'o', 'u', 'r', 'c', 'e', '-']);
    }
    push_decimal(&mut s, i);
    s
}

/// Builds the synthetic master list of `n` unchecked items numbered 1
/// through `n`.
pub fn make_sources(n: u32) -> (v: Vec<SourceItem>)
    ensures
        v.deep_view() == sources_spec(n as nat),
{
    let mut v: Vec<SourceItem> = Vec::new();
    let mut idx: u32 = 0;
    while idx < n
        invariant
            idx <= n,
            v@.len() == idx,
            forall|j: int|
                0 <= j < idx ==> (#[trigger] v@[j])@ == (SourceItemView {
                    checked: false,
                    text: source_text((j + 1) as nat),
                    value: source_value((j + 1) as nat),
                }),
        decreases n - idx,
    {
        let text = make_source_text(idx + 1);
        let value = make_source_value(idx + 1);
        v.push(SourceItem { checked: false, text, value });
        idx += 1;
    }
    proof {
        assert(v.deep_view() =~= sources_spec(n as nat));
    }
    v
}

impl AppState {
    /// The startup state: the synthetic master list of `n` items, the given
    /// selection set, an empty search string, and the filtered view already
    /// derived from them (with an empty search it lists every item, each
    /// checked flag mirroring selection-set membership).
    pub fn new(n: u32, selected: Vec<String>) -> (s: AppState)
        ensures
            s.checked == false,
            s.on == true,
            s.stepper_value == 1,
            s.search@ == Seq::<char>::empty(),
            s.selected == selected,
            s.raw_sources.deep_view() == sources_spec(n as nat),
            s.filtered_sources.deep_view() == filter_spec(
                sources_spec(n as nat),
                Seq::<char>::empty(),
                selected.deep_view(),
            ),
    {
        let raw = make_sources(n);
        let mut s = AppState {
            checked: false,
            on: true,
            stepper_value: 1,
            selected,
            search: String::new(),
            raw_sources: raw,
            filtered_sources: Vec::new(),
        };
        s.filter();
        s
    }
}

} // verus!
