use vstd::prelude::*;

use crate::item::{ItemState, ItemView};
use crate::tab_details::views;

verus! {

/// The action that opens or cycles the switcher; with `select_last` the
/// selection starts on the last (least recently used) entry.
#[derive(Clone, Copy, PartialEq, Eq, Structural, Debug, Default)]
pub struct Toggle {
    pub select_last: bool,
}

/// One row of the switcher: an open item with its position in the pane, its
/// label detail level, and whether it is a preview tab.
#[derive(Clone, Copy, PartialEq, Eq, Structural, Debug)]
pub struct TabMatch {
    pub item_index: usize,
    pub item_id: u64,
    pub detail: usize,
    pub preview: bool,
}

/// The first position of `id` in the activation history (meaningful when it
/// occurs, and then unique).
pub open spec fn first_occurrence(h: Seq<u64>, id: u64) -> int {
    choose|i: int| 0 <= i < h.len() && h[i] == id && (forall|k: int| 0 <= k < i ==> h[k] != id)
}

/// How many distinct identities the activation history names.
pub open spec fn distinct_count(h: Seq<u64>) -> int
    decreases h.len(),
{
    if h.len() == 0 {
        0
    } else {
        distinct_count(h.drop_last()) + if h.drop_last().contains(h.last()) {
            0int
        } else {
            1int
        }
    }
}

/// The sort key of a row: an item in the activation history ranks by how
/// recently it was activated (most recent first); the rest follow in pane
/// order after all ranked items.
pub open spec fn match_score(h: Seq<u64>, m: TabMatch) -> int {
    if h.contains(m.item_id) {
        h.len() - 1 - first_occurrence(h, m.item_id)
    } else {
        m.item_index + distinct_count(h)
    }
}

/// A well-built scored row: its fields agree with the item at its pane
/// position and its score component is its sort key.
pub open spec fn pair_ok(
    h: Seq<u64>,
    items: Seq<ItemView>,
    details: Seq<usize>,
    preview: Option<u64>,
    p: (usize, TabMatch),
) -> bool {
    &&& p.1.item_index < items.len()
    &&& p.1.item_id == items[p.1.item_index as int].id
    &&& p.1.detail == details[p.1.item_index as int]
    &&& p.1.preview == (preview == Some(p.1.item_id))
    &&& p.0 as int == match_score(h, p.1)
}

/// The order the switcher lists its rows in: by sort key, ties broken by
/// pane position — a strict total order, so the listing is unique.
pub open spec fn row_lex_before(x: (usize, TabMatch), y: (usize, TabMatch)) -> bool {
    x.0 < y.0 || (x.0 == y.0 && x.1.item_index < y.1.item_index)
}

/// The selection the switcher lands on after its rows are rebuilt: keep the
/// previously selected item if it is still listed, else clamp the old
/// position; without a previous selection start on the last row when asked
/// to, else on the second row (the first is the already-active item), else
/// the first.
pub open spec fn selected_index_spec(
    matches: Seq<TabMatch>,
    prev_selected: Option<u64>,
    prev_index: int,
    select_last: bool,
) -> int {
    if matches.len() == 0 {
        0
    } else if prev_selected is Some && (exists|k: int|
        0 <= k < matches.len() && matches[k].item_id == prev_selected.unwrap()) {
        choose|k: int|
            0 <= k < matches.len() && matches[k].item_id == prev_selected.unwrap() && (forall|
                j: int,
            |
                0 <= j < k ==> matches[j].item_id != prev_selected.unwrap())
    } else if prev_selected is Some {
        if prev_index < matches.len() {
            prev_index
        } else {
            matches.len() - 1
        }
    } else if select_last {
        matches.len() - 1
    } else if matches.len() > 1 {
        1
    } else {
        0
    }
}

/// Whether some row shows the item at pane position `ix`.
pub open spec fn has_row_for(matches: Seq<TabMatch>, ix: int) -> bool {
    exists|k: int| 0 <= k < matches.len() && matches[k].item_index == ix
}

/// The switcher's state between updates: rows ordered most recently used
/// first, and the selected row.
#[derive(Debug)]
pub struct TabSwitcherDelegate {
    pub select_last: bool,
    pub selected_index: usize,
    pub matches: Vec<TabMatch>,
}

/// The identity shown on the selected row, if any.
pub open spec fn spec_selected_item_id(d: TabSwitcherDelegate) -> Option<u64> {
    if d.selected_index < d.matches@.len() {
        Some(d.matches@[d.selected_index as int].item_id)
    } else {
        None
    }
}

impl TabSwitcherDelegate {
    pub fn new(action: &Toggle) -> (d: TabSwitcherDelegate)
        ensures
            d.select_last == action.select_last,
            d.selected_index == 0,
            d.matches@.len() == 0,
    {
        TabSwitcherDelegate { select_last: action.select_last, selected_index: 0, matches: Vec::new() }
    }

    pub fn match_count(&self) -> (r: usize)
        ensures
            r == self.matches@.len(),
    {
        self.matches.len()
    }

    pub fn selected_index(&self) -> (r: usize)
        ensures
            r == self.selected_index,
    {
        self.selected_index
    }

    pub fn set_selected_index(&mut self, ix: usize)
        ensures
            *final(self) == (TabSwitcherDelegate { selected_index: ix, ..*old(self) }),
    {
        self.selected_index = ix;
    }

    /// The switcher draws no separators.
    pub fn separators_after_indices(&self) -> (r: Vec<usize>)
        ensures
            r@.len() == 0,
    {
        Vec::new()
    }

    /// The identity of the selected row's item, if the selection is on one.
    pub fn selected_item_id(&self) -> (r: Option<u64>)
        ensures
            r == spec_selected_item_id(*self),
    {
        if self.selected_index < self.matches.len() {
            Some(self.matches[self.selected_index].item_id)
        } else {
            None
        }
    }

    /// The item to close for a close request on row `ix`, if that row
    /// exists.
    pub fn close_item_at(&self, ix: usize) -> (r: Option<u64>)
        ensures
            ix < self.matches@.len() ==> r == Some(self.matches@[ix as int].item_id),
            ix >= self.matches@.len() ==> r is None,
    {
        if ix < self.matches.len() {
            Some(self.matches[ix].item_id)
        } else {
            None
        }
    }

    /// The item to close for a close request on the selected row.
    pub fn close_selected_item(&self) -> (r: Option<u64>)
        ensures
            self.selected_index < self.matches@.len() ==> r == Some(
                self.matches@[self.selected_index as int].item_id,
            ),
            self.selected_index >= self.matches@.len() ==> r is None,
    {
        self.close_item_at(self.selected_index)
    }

    /// The pane index to activate when the selection is confirmed, if the
    /// selection is on a row.
    pub fn confirm(&self) -> (r: Option<usize>)
        ensures
            self.selected_index < self.matches@.len() ==> r == Some(
                self.matches@[self.selected_index as int].item_index,
            ),
            self.selected_index >= self.matches@.len() ==> r is None,
    {
        if self.selected_index < self.matches.len() {
            Some(self.matches[self.selected_index].item_index)
        } else {
            None
        }
    }

    /// Where the selection lands after the rows are rebuilt, given the
    /// previously selected item.
    #[verifier::loop_isolation(false)]
    fn compute_selected_index(&self, prev_selected: Option<u64>) -> (r: usize)
        ensures
            r == selected_index_spec(
                self.matches@,
                prev_selected,
                self.selected_index as int,
                self.select_last,
            ),
            self.matches@.len() > 0 ==> r < self.matches@.len(),
            self.matches@.len() == 0 ==> r == 0,
    {
        if self.matches.len() == 0 {
            return 0;
        }
        if let Some(id) = prev_selected {
            let mut k: usize = 0;
            while k < self.matches.len()
                invariant
                    k <= self.matches@.len(),
                    forall|j: int| 0 <= j < k ==> self.matches@[j].item_id != id,
                decreases self.matches@.len() - k,
            {
                if self.matches[k].item_id == id {
                    proof {
                        let ms = self.matches@;
                        let want = prev_selected.unwrap();
                        assert(want == id);
                        assert(0 <= k < ms.len() && ms[k as int].item_id == want);
                        assert(exists|w: int| 0 <= w < ms.len() && ms[w].item_id == want);
                        assert(exists|c: int|
                            0 <= c < ms.len() && ms[c].item_id == want && (forall|j: int|
                                0 <= j < c ==> ms[j].item_id != want)) by {
                            assert(0 <= k < ms.len() && ms[k as int].item_id == want && (forall|
                                j: int,
                            |
                                0 <= j < k ==> ms[j].item_id != want));
                        }
                        let sv = selected_index_spec(
                            ms,
                            prev_selected,
                            self.selected_index as int,
                            self.select_last,
                        );
                        assert(0 <= sv < ms.len() && ms[sv].item_id == want && (forall|j: int|
                            0 <= j < sv ==> ms[j].item_id != want));
                        if sv < k {
                            assert(ms[sv].item_id != want);
                        } else if sv > k {
                            assert(ms[k as int].item_id != want);
                        }
                    }
                    return k;
                }
                k = k + 1;
            }
            if self.selected_index < self.matches.len() {
                return self.selected_index;
            } else {
                return self.matches.len() - 1;
            }
        }
        if self.select_last {
            return self.matches.len() - 1;
        }
        if self.matches.len() > 1 {
            return 1;
        }
        0
    }

    /// Rebuilds the rows from the pane's items: one row per open item, with
    /// its precomputed label detail, ordered by how recently the activation
    /// history names the item (most recent first, unlisted items after, in
    /// pane order), and moves the selection as `selected_index_spec` says.
    #[verifier::loop_isolation(false)]
    #[verifier::rlimit(100)]
    pub fn update_matches(
        &mut self,
        items: &Vec<ItemState>,
        details: &Vec<usize>,
        activation_history: &Vec<u64>,
        preview_item_id: Option<u64>,
    )
        requires
            details@.len() == items@.len(),
            items@.len() + activation_history@.len() <= usize::MAX,
        ensures
            final(self).select_last == old(self).select_last,
            final(self).matches@.len() == items@.len(),
            forall|k: int|
                0 <= k < final(self).matches@.len() ==> {
                    let m = #[trigger] final(self).matches@[k];
                    &&& m.item_index < items@.len()
                    &&& m.item_id == views(items@)[m.item_index as int].id
                    &&& m.detail == details@[m.item_index as int]
                    &&& m.preview == (preview_item_id == Some(m.item_id))
                },
            forall|a: int, b: int|
                0 <= a < b < final(self).matches@.len() ==> final(self).matches@[a].item_index
                    != final(self).matches@[b].item_index,
            forall|ix: int|
                0 <= ix < items@.len() ==> #[trigger] has_row_for(final(self).matches@, ix),
            // Rows are strictly ordered: by sort key, ties broken by pane
            // position (the build order, which the stable sort keeps).
            forall|a: int, b: int|
                0 <= a < b < final(self).matches@.len() ==> match_score(
                    activation_history@,
                    final(self).matches@[a],
                ) < match_score(activation_history@, final(self).matches@[b]) || (match_score(
                    activation_history@,
                    final(self).matches@[a],
                ) == match_score(activation_history@, final(self).matches@[b])
                    && final(self).matches@[a].item_index
                    < final(self).matches@[b].item_index),
            final(self).selected_index as int == selected_index_spec(
                final(self).matches@,
                spec_selected_item_id(*old(self)),
                old(self).selected_index as int,
                old(self).select_last,
            ),
    {
        let prev_selected = self.selected_item_id();
        let ghost h = activation_history@;
        let ghost ivs = views(items@);
        let n = items.len();
        let base = count_distinct(activation_history);
        // Build one scored row per item, in pane order.
        let mut scored: Vec<(usize, TabMatch)> = Vec::new();
        let mut i: usize = 0;
        while i < n
            invariant
                i <= n,
                scored@.len() == i,
                forall|k: int|
                    0 <= k < i ==> pair_ok(h, ivs, details@, preview_item_id, #[trigger] scored@[k])
                        && (#[trigger] scored@[k]).1.item_index == k,
            decreases n - i,
        {
            let id = items[i].id;
            let preview = match preview_item_id {
                Some(p) => p == id,
                None => false,
            };
            let m = TabMatch { item_index: i, item_id: id, detail: details[i], preview };
            let score = score_of(activation_history, id, i, base);
            scored.push((score, m));
            i = i + 1;
        }
        let ghost built = scored@;
        sort_by_score(&mut scored);
        proof {
            lemma_permutation_keeps_pair_ok(h, ivs, details@, preview_item_id, built, scored@);
        }
        let mut matches: Vec<TabMatch> = Vec::new();
        let mut i: usize = 0;
        while i < scored.len()
            invariant
                i <= scored@.len(),
                matches@.len() == i,
                forall|k: int| 0 <= k < i ==> matches@[k] == (#[trigger] scored@[k]).1,
            decreases scored@.len() - i,
        {
            matches.push(scored[i].1);
            i = i + 1;
        }
        self.matches = matches;
        proof {
            assert forall|a: int, b: int|
                0 <= a < b < self.matches@.len() implies self.matches@[a].item_index
                != self.matches@[b].item_index by {
                lemma_scored_indices_distinct(h, ivs, details@, preview_item_id, built, scored@, a, b);
                assert(self.matches@[a] == scored@[a].1);
                assert(self.matches@[b] == scored@[b].1);
            }
            assert forall|ix: int| 0 <= ix < items@.len() implies #[trigger] has_row_for(
                self.matches@,
                ix,
            ) by {
                lemma_scored_index_present(built, scored@, ix);
                let k = choose|k: int| 0 <= k < scored@.len() && scored@[k].1.item_index == ix;
                assert(self.matches@[k].item_index == ix);
            }
            assert forall|k: int| 0 <= k < self.matches@.len() implies {
                let m = #[trigger] self.matches@[k];
                &&& m.item_index < items@.len()
                &&& m.item_id == ivs[m.item_index as int].id
                &&& m.detail == details@[m.item_index as int]
                &&& m.preview == (preview_item_id == Some(m.item_id))
            } by {
                assert(self.matches@[k] == scored@[k].1);
                assert(pair_ok(h, ivs, details@, preview_item_id, scored@[k]));
            }
            assert forall|a: int, b: int|
                0 <= a < b < self.matches@.len() implies match_score(h, self.matches@[a])
                < match_score(h, self.matches@[b]) || (match_score(h, self.matches@[a])
                == match_score(h, self.matches@[b]) && self.matches@[a].item_index
                < self.matches@[b].item_index) by {
                assert(self.matches@[a] == scored@[a].1);
                assert(self.matches@[b] == scored@[b].1);
                assert(pair_ok(h, ivs, details@, preview_item_id, scored@[a]));
                assert(pair_ok(h, ivs, details@, preview_item_id, scored@[b]));
                assert(row_lex_before(scored@[a], scored@[b]));
            }
        }
        let new_selected = self.compute_selected_index(prev_selected);
        self.selected_index = new_selected;
    }
}

/// How many distinct identities `h` names.
fn count_distinct(h: &Vec<u64>) -> (r: usize)
    ensures
        r as int == distinct_count(h@),
        r <= h@.len(),
{
    let mut count: usize = 0;
    let mut i: usize = 0;
    while i < h.len()
        invariant
            i <= h@.len(),
            count as int == distinct_count(h@.take(i as int)),
            count <= i,
        decreases h@.len() - i,
    {
        let mut seen = false;
        let mut j: usize = 0;
        while j < i
            invariant
                j <= i < h@.len(),
                seen == (exists|k: int| 0 <= k < j && h@[k] == h@[i as int]),
            decreases i - j,
        {
            if h[j] == h[i] {
                seen = true;
            }
            j = j + 1;
        }
        proof {
            assert(h@.take(i + 1).drop_last() =~= h@.take(i as int));
            assert(h@.take(i + 1).last() == h@[i as int]);
            assert(seen == h@.take(i as int).contains(h@[i as int])) by {
                if h@.take(i as int).contains(h@[i as int]) {
                    let w = choose|w: int| 0 <= w < i && h@.take(i as int)[w] == h@[i as int];
                    assert(h@[w] == h@[i as int]);
                }
                if seen {
                    let w = choose|w: int| 0 <= w < i && h@[w] == h@[i as int];
                    assert(h@.take(i as int)[w] == h@[i as int]);
                }
            }
        }
        if !seen {
            count = count + 1;
        }
        i = i + 1;
    }
    proof {
        assert(h@.take(h@.len() as int) =~= h@);
    }
    count
}

/// The sort key of the item with identity `id` at pane position
/// `item_index`, given the distinct count `base` of the history.
fn score_of(h: &Vec<u64>, id: u64, item_index: usize, base: usize) -> (r: usize)
    requires
        base as int == distinct_count(h@),
        item_index + base <= usize::MAX,
    ensures
        h@.contains(id) ==> r as int == h@.len() - 1 - first_occurrence(h@, id),
        !h@.contains(id) ==> r == item_index + base,
{
    let mut i: usize = 0;
    while i < h.len()
        invariant
            i <= h@.len(),
            forall|k: int| 0 <= k < i ==> h@[k] != id,
        decreases h@.len() - i,
    {
        if h[i] == id {
            proof {
                assert(h@.contains(id)) by {
                    assert(h@[i as int] == id);
                }
                let c = choose|c: int|
                    0 <= c < h@.len() && h@[c] == id && (forall|k: int| 0 <= k < c ==> h@[k] != id);
                if c < i {
                    assert(h@[c] != id);
                } else if c > i {
                    assert(h@[i as int] != id);
                }
                assert(first_occurrence(h@, id) == i);
            }
            return h.len() - 1 - i;
        }
        i = i + 1;
    }
    proof {
        assert(!h@.contains(id)) by {
            if h@.contains(id) {
                let w = choose|w: int| 0 <= w < h@.len() && h@[w] == id;
            }
        }
    }
    item_index + base
}

/// Row validity is carried across any reordering of the scored rows.
proof fn lemma_permutation_keeps_pair_ok(
    h: Seq<u64>,
    items: Seq<ItemView>,
    details: Seq<usize>,
    preview: Option<u64>,
    before: Seq<(usize, TabMatch)>,
    after: Seq<(usize, TabMatch)>,
)
    requires
        before.to_multiset() == after.to_multiset(),
        forall|k: int|
            0 <= k < before.len() ==> pair_ok(h, items, details, preview, #[trigger] before[k]),
    ensures
        forall|k: int|
            0 <= k < after.len() ==> pair_ok(h, items, details, preview, #[trigger] after[k]),
{
    broadcast use vstd::seq_lib::group_to_multiset_ensures;

    assert forall|k: int| 0 <= k < after.len() implies pair_ok(
        h,
        items,
        details,
        preview,
        #[trigger] after[k],
    ) by {
        assert(after.contains(after[k]));
        assert(after.to_multiset().count(after[k]) > 0);
        assert(before.to_multiset().count(after[k]) > 0);
        assert(before.contains(after[k]));
        let w = choose|w: int| 0 <= w < before.len() && before[w] == after[k];
        assert(pair_ok(h, items, details, preview, before[w]));
    }
}

/// Every pane position keeps exactly one row through the sort.
proof fn lemma_scored_index_present(
    before: Seq<(usize, TabMatch)>,
    after: Seq<(usize, TabMatch)>,
    ix: int,
)
    requires
        before.to_multiset() == after.to_multiset(),
        0 <= ix < before.len(),
        forall|k: int| 0 <= k < before.len() ==> (#[trigger] before[k]).1.item_index == k,
    ensures
        exists|k: int| 0 <= k < after.len() && (#[trigger] after[k]).1.item_index == ix,
{
    broadcast use vstd::seq_lib::group_to_multiset_ensures;

    assert(before.contains(before[ix]));
    assert(before.to_multiset().count(before[ix]) > 0);
    assert(after.to_multiset().count(before[ix]) > 0);
    assert(after.contains(before[ix]));
    let k = choose|k: int| 0 <= k < after.len() && after[k] == before[ix];
    assert(after[k].1.item_index == ix);
}

/// No two rows of the sorted list share a pane position.
proof fn lemma_scored_indices_distinct(
    h: Seq<u64>,
    items: Seq<ItemView>,
    details: Seq<usize>,
    preview: Option<u64>,
    before: Seq<(usize, TabMatch)>,
    after: Seq<(usize, TabMatch)>,
    a: int,
    b: int,
)
    requires
        before.to_multiset() == after.to_multiset(),
        forall|k: int| 0 <= k < before.len() ==> (#[trigger] before[k]).1.item_index == k,
        0 <= a < b < after.len(),
    ensures
        after[a].1.item_index != after[b].1.item_index,
{
    broadcast use vstd::seq_lib::group_to_multiset_ensures;

    if after[a].1.item_index == after[b].1.item_index {
        if after[a] == after[b] {
            lemma_pair_dup_count(after, a, b);
            assert(after.to_multiset().count(after[a]) >= 2);
            assert(before.to_multiset().count(after[a]) >= 2);
            lemma_pair_count_le_one(before, after[a]);
        } else {
            assert(after.contains(after[a]));
            assert(after.to_multiset().count(after[a]) > 0);
            assert(before.to_multiset().count(after[a]) > 0);
            assert(before.contains(after[a]));
            assert(after.contains(after[b]));
            assert(after.to_multiset().count(after[b]) > 0);
            assert(before.to_multiset().count(after[b]) > 0);
            assert(before.contains(after[b]));
            let wa = choose|w: int| 0 <= w < before.len() && before[w] == after[a];
            let wb = choose|w: int| 0 <= w < before.len() && before[w] == after[b];
            assert(wa == after[a].1.item_index && wb == after[b].1.item_index);
        }
    }
}

/// Two positions holding the same row give it count at least two.
proof fn lemma_pair_dup_count(s: Seq<(usize, TabMatch)>, i: int, j: int)
    requires
        0 <= i < j < s.len(),
        s[i] == s[j],
    ensures
        s.to_multiset().count(s[i]) >= 2,
{
    broadcast use vstd::seq_lib::group_to_multiset_ensures;

    let removed = s.remove(i);
    assert(removed.to_multiset() =~= s.to_multiset().remove(s[i]));
    assert(removed[j - 1] == s[j]);
    assert(removed.contains(s[j]));
    assert(removed.to_multiset().count(s[j]) > 0);
}

/// A list whose rows name their own position holds each row at most once.
proof fn lemma_pair_count_le_one(s: Seq<(usize, TabMatch)>, x: (usize, TabMatch))
    requires
        forall|k: int| 0 <= k < s.len() ==> (#[trigger] s[k]).1.item_index == k,
    ensures
        s.to_multiset().count(x) <= 1,
{
    broadcast use vstd::seq_lib::group_to_multiset_ensures;

    if s.to_multiset().count(x) >= 2 {
        assert(s.contains(x));
        let i = choose|k: int| 0 <= k < s.len() && s[k] == x;
        let removed = s.remove(i);
        assert(removed.to_multiset() =~= s.to_multiset().remove(x));
        assert(removed.to_multiset().count(x) >= 1);
        assert(removed.contains(x));
        let j = choose|k: int| 0 <= k < removed.len() && removed[k] == x;
        if j < i {
            assert(s[j] == removed[j]);
            assert(s[j].1.item_index == j && s[i].1.item_index == i);
        } else {
            assert(s[j + 1] == removed[j]);
            assert(s[j + 1].1.item_index == j + 1 && s[i].1.item_index == i);
        }
    }
}

/// Sorts the scored rows by score, keeping exactly the same rows.
#[verifier::rlimit(100)]
#[verifier::loop_isolation(false)]
fn sort_by_score(v: &mut Vec<(usize, TabMatch)>)
    requires
        forall|k: int| 0 <= k < old(v)@.len() ==> (#[trigger] old(v)@[k]).1.item_index == k,
    ensures
        final(v)@.len() == old(v)@.len(),
        final(v)@.to_multiset() == old(v)@.to_multiset(),
        forall|a: int, b: int|
            0 <= a < b < final(v)@.len() ==> row_lex_before(final(v)@[a], final(v)@[b]),
{
    let mut i: usize = 1;
    while i < v.len()
        invariant
            1 <= i,
            v@.len() == old(v)@.len(),
            v@.to_multiset() == old(v)@.to_multiset(),
            forall|k: int| i <= k < v@.len() ==> v@[k] == old(v)@[k],
            forall|k: int| 0 <= k < i && k < v@.len() ==> (#[trigger] v@[k]).1.item_index < i,
            forall|a: int, b: int| 0 <= a < b < i && b < v@.len() ==> row_lex_before(v@[a], v@[b]),
        decreases v@.len() - i,
    {
        let x = v[i];
        // Find where the row belongs: after every row of smaller or equal
        // score, so ties keep their build order — and the arriving row's
        // pane position is the largest so far.
        let mut pos: usize = 0;
        while pos < i && v[pos].0 <= x.0
            invariant
                pos <= i < v@.len(),
                forall|k: int| 0 <= k < pos ==> (#[trigger] v@[k]).0 <= x.0,
            decreases i - pos,
        {
            pos = pos + 1;
        }
        let ghost before = v@;
        let moved = v.remove(i);
        v.insert(pos, moved);
        proof {
            crate::pane::lemma_remove_insert_multiset(before, i as int, pos as int);
            assert(v@ == before.remove(i as int).insert(pos as int, before[i as int]));
            before.remove_ensures(i as int);
            before.remove(i as int).insert_ensures(pos as int, before[i as int]);
            assert(before[i as int].1.item_index == i);
            assert forall|a: int, b: int|
                0 <= a < b < i + 1 && b < v@.len() implies row_lex_before(v@[a], v@[b]) by {
                if a < pos {
                    assert(v@[a] == before[a]);
                } else if a == pos {
                    assert(v@[a] == before[i as int]);
                } else {
                    assert(v@[a] == before[a - 1]);
                }
                if b < pos {
                    assert(v@[b] == before[b]);
                } else if b == pos {
                    assert(v@[b] == before[i as int]);
                } else {
                    assert(v@[b] == before[b - 1]);
                }
                if pos < i {
                    assert(before[pos as int].0 > before[i as int].0);
                }
                if a < pos && b < pos {
                    assert(row_lex_before(before[a], before[b]));
                } else if a < pos && b == pos {
                    assert(before[a].0 <= before[i as int].0);
                    assert(before[a].1.item_index < i);
                } else if a < pos && b > pos {
                    assert(row_lex_before(before[a], before[b - 1]));
                } else if a == pos && b > pos {
                    if pos < b - 1 {
                        assert(row_lex_before(before[pos as int], before[b - 1]));
                    }
                    assert(before[b - 1].0 > before[i as int].0);
                } else {
                    assert(row_lex_before(before[a - 1], before[b - 1]));
                }
            }
            assert forall|k: int| 0 <= k < i + 1 && k < v@.len() implies (
            #[trigger] v@[k]).1.item_index < i + 1 by {
                if k < pos {
                    assert(v@[k] == before[k]);
                } else if k == pos {
                    assert(v@[k] == before[i as int]);
                } else {
                    assert(v@[k] == before[k - 1]);
                }
            }
        }
        i = i + 1;
    }
}

} // verus!
