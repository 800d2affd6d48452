use vstd::prelude::*;

use crate::item::{ItemState, ItemView};

verus! {

/// The views of a list of items.
pub open spec fn views(items: Seq<ItemState>) -> Seq<ItemView> {
    items.map_values(|it: ItemState| it@)
}

/// Whether an item still takes part in disambiguation at detail `d`: it can
/// produce a description there, and — beyond level zero — that description
/// still differs from the previous level's (an item whose label has stopped
/// changing has run out of ancestry and is left alone).
pub open spec fn participating(it: ItemView, d: int) -> bool {
    it.description_at(d) is Some && (d == 0 || it.description_at(d) != it.description_at(d - 1))
}

/// Whether item `i` would get more detail in one more pass: it participates
/// and shares its current description with some other participating item.
pub open spec fn bumped(items: Seq<ItemView>, details: Seq<usize>, i: int) -> bool {
    &&& participating(items[i], details[i] as int)
    &&& exists|j: int|
        0 <= j < items.len() && j != i && participating(items[j], details[j] as int)
            && items[j].description_at(details[j] as int) == items[i].description_at(
            details[i] as int,
        )
}

/// No two items produce the same level-zero description: every label is
/// already unambiguous with no detail at all.
pub open spec fn distinct_at_level_zero(items: Seq<ItemView>) -> bool {
    forall|i: int, j: int|
        0 <= i < j < items.len() && items[i].description_at(0) is Some
            && items[j].description_at(0) is Some ==> items[i].description_at(0)
            != items[j].description_at(0)
}

/// A fixed point of the resolver: no two participating items share a
/// description, so no pass changes anything.
pub open spec fn details_stable(items: Seq<ItemView>, details: Seq<usize>) -> bool {
    forall|i: int| 0 <= i < items.len() ==> !bumped(items, details, i)
}

/// How much room the detail levels still have to grow: the total remaining
/// ancestry across all items.  Every productive pass shrinks it.
pub open spec fn slack(items: Seq<ItemView>, details: Seq<usize>) -> int
    decreases items.len(),
{
    if items.len() == 0 {
        0
    } else {
        slack(items.drop_last(), details.drop_last()) + items.last().descriptions.len()
            - details.last()
    }
}

/// The detail levels stay within each item's available descriptions.
pub open spec fn details_bounded(items: Seq<ItemView>, details: Seq<usize>) -> bool {
    forall|i: int| 0 <= i < items.len() ==> details[i] <= items[i].descriptions.len()
}

proof fn lemma_slack_nonneg(items: Seq<ItemView>, details: Seq<usize>)
    requires
        details.len() == items.len(),
        details_bounded(items, details),
    ensures
        slack(items, details) >= 0,
    decreases items.len(),
{
    if items.len() > 0 {
        assert(details_bounded(items.drop_last(), details.drop_last())) by {
            assert(forall|i: int|
                0 <= i < items.len() - 1 ==> items.drop_last()[i] == items[i]
                    && details.drop_last()[i] == details[i]);
        }
        lemma_slack_nonneg(items.drop_last(), details.drop_last());
    }
}

/// Growing some detail level strictly shrinks the slack; growing none keeps
/// it.
proof fn lemma_slack_shrinks(items: Seq<ItemView>, d1: Seq<usize>, d2: Seq<usize>)
    requires
        d1.len() == items.len(),
        d2.len() == items.len(),
        forall|i: int| 0 <= i < items.len() ==> d1[i] <= d2[i],
        details_bounded(items, d2),
    ensures
        slack(items, d2) <= slack(items, d1),
        (exists|i: int| 0 <= i < items.len() && d2[i] > d1[i]) ==> slack(items, d2) < slack(
            items,
            d1,
        ),
    decreases items.len(),
{
    if items.len() > 0 {
        assert(forall|i: int|
            0 <= i < items.len() - 1 ==> items.drop_last()[i] == items[i] && d1.drop_last()[i]
                == d1[i] && d2.drop_last()[i] == d2[i]);
        lemma_slack_shrinks(items.drop_last(), d1.drop_last(), d2.drop_last());
        if exists|i: int| 0 <= i < items.len() && d2[i] > d1[i] {
            let w = choose|i: int| 0 <= i < items.len() && d2[i] > d1[i];
            if w == items.len() - 1 {
                assert(slack(items, d2) < slack(items, d1));
            } else {
                assert(d2.drop_last()[w] > d1.drop_last()[w]);
                assert(slack(items.drop_last(), d2.drop_last()) < slack(
                    items.drop_last(),
                    d1.drop_last(),
                ));
            }
        }
    }
}

/// Assigns every item the least label detail that tells it apart: starting
/// from detail zero everywhere, repeatedly find groups of items whose
/// current descriptions coincide (among items whose label is still
/// changing) and give every member of such a group one more level of
/// detail, until a full pass changes nothing.  Items with the same
/// description at every level end at the same detail level, so the pass
/// always terminates.
#[verifier::loop_isolation(false)]
#[verifier::rlimit(100)]
pub fn tab_details(items: &Vec<ItemState>) -> (details: Vec<usize>)
    ensures
        details@.len() == items@.len(),
        details_stable(views(items@), details@),
        details_bounded(views(items@), details@),
        forall|i: int, j: int|
            0 <= i < items@.len() && 0 <= j < items@.len() && views(items@)[i].descriptions
                == views(items@)[j].descriptions ==> details@[i] == details@[j],
        // The detail is minimal at the bottom: labels that never collide at
        // level zero get no detail at all.
        distinct_at_level_zero(views(items@)) ==> forall|i: int|
            0 <= i < details@.len() ==> details@[i] == 0,
{
    let ghost ivs = views(items@);
    let n = items.len();
    let mut details: Vec<usize> = Vec::new();
    let mut i: usize = 0;
    while i < n
        invariant
            i <= n,
            details@.len() == i,
            forall|k: int| 0 <= k < i ==> details@[k] == 0,
        decreases n - i,
    {
        details.push(0);
        i = i + 1;
    }
    let mut done = false;
    while !done
        invariant
            details@.len() == n,
            details_bounded(ivs, details@),
            done ==> details_stable(ivs, details@),
            forall|a: int, b: int|
                0 <= a < n && 0 <= b < n && ivs[a].descriptions == ivs[b].descriptions
                    ==> details@[a] == details@[b],
            distinct_at_level_zero(ivs) ==> forall|k: int| 0 <= k < n ==> details@[k] == 0,
        decreases slack(ivs, details@), (if done {
            0int
        } else {
            1int
        }),
    {
        let ghost pass_pre = details@;
        // First sweep: decide for every item, from the pre-pass levels alone,
        // whether it shares its current description with another item.
        let mut bump_flags: Vec<bool> = Vec::new();
        let mut i: usize = 0;
        while i < n
            invariant
                i <= n,
                bump_flags@.len() == i,
                details@ == pass_pre,
                forall|k: int| 0 <= k < i ==> bump_flags@[k] == bumped(ivs, pass_pre, k),
            decreases n - i,
        {
            let it = &items[i];
            let detail = details[i];
            let mut flag = false;
            let participates = match it.tab_description(detail) {
                Some(cur) => {
                    if detail == 0 {
                        true
                    } else {
                        match it.tab_description(detail - 1) {
                            Some(prev) => prev != cur,
                            None => true,
                        }
                    }
                },
                None => false,
            };
            if participates {
                let cur = match it.tab_description(detail) {
                    Some(cur) => cur,
                    None => 0,
                };
                let mut j: usize = 0;
                while j < n
                    invariant
                        j <= n,
                        details@ == pass_pre,
                        participating(ivs[i as int], pass_pre[i as int] as int),
                        ivs[i as int].description_at(pass_pre[i as int] as int) == Some(cur),
                        flag == exists|k: int|
                            0 <= k < j && k != i && participating(ivs[k], pass_pre[k] as int)
                                && ivs[k].description_at(pass_pre[k] as int) == Some(cur),
                    decreases n - j,
                {
                    if j != i {
                        let other = &items[j];
                        let other_detail = details[j];
                        let other_participates = match other.tab_description(other_detail) {
                            Some(oc) => {
                                if other_detail == 0 {
                                    true
                                } else {
                                    match other.tab_description(other_detail - 1) {
                                        Some(op) => op != oc,
                                        None => true,
                                    }
                                }
                            },
                            None => false,
                        };
                        if other_participates {
                            match other.tab_description(other_detail) {
                                Some(oc) => {
                                    if oc == cur {
                                        flag = true;
                                    }
                                },
                                None => {},
                            }
                        }
                    }
                    j = j + 1;
                }
            }
            bump_flags.push(flag);
            proof {
                assert(bump_flags@[i as int] == bumped(ivs, pass_pre, i as int));
            }
            i = i + 1;
        }
        // Second sweep: give every colliding item one more level of detail.
        done = true;
        let mut i: usize = 0;
        while i < n
            invariant
                i <= n,
                details@.len() == n,
                bump_flags@.len() == n,
                forall|k: int| 0 <= k < n ==> bump_flags@[k] == bumped(ivs, pass_pre, k),
                forall|k: int|
                    0 <= k < i ==> details@[k] == pass_pre[k] + (if bump_flags@[k] {
                        1int
                    } else {
                        0int
                    }),
                forall|k: int| i <= k < n ==> details@[k] == pass_pre[k],
                details_bounded(ivs, details@),
                done == (forall|k: int| 0 <= k < i ==> !bump_flags@[k]),
            decreases n - i,
        {
            if bump_flags[i] {
                let d = details[i];
                let len_i = items[i].descriptions.len();
                proof {
                    assert(bumped(ivs, pass_pre, i as int));
                    assert(ivs[i as int].description_at(pass_pre[i as int] as int) is Some);
                    assert(d < len_i);
                }
                details.set(i, d + 1);
                done = false;
            }
            i = i + 1;
        }
        proof {
            if done {
                assert(details@ =~= pass_pre);
                lemma_slack_nonneg(ivs, details@);
                assert forall|k: int| 0 <= k < n implies !bumped(ivs, details@, k) by {
                    assert(!bump_flags@[k]);
                }
            } else {
                let w = choose|k: int| 0 <= k < n && bump_flags@[k];
                assert(details@[w] > pass_pre[w]);
                lemma_slack_shrinks(ivs, pass_pre, details@);
                lemma_slack_nonneg(ivs, details@);
            }
            assert forall|a: int, b: int|
                0 <= a < n && 0 <= b < n && ivs[a].descriptions == ivs[b].descriptions
                    && pass_pre[a] == pass_pre[b] implies details@[a] == details@[b] by {
                lemma_twins_bump_alike(ivs, pass_pre, a, b);
            }
            if distinct_at_level_zero(ivs) {
                assert forall|k: int| 0 <= k < n implies details@[k] == 0 by {
                    assert(!bumped(ivs, pass_pre, k)) by {
                        if bumped(ivs, pass_pre, k) {
                            let j = choose|j: int|
                                0 <= j < ivs.len() && j != k && participating(
                                    ivs[j],
                                    pass_pre[j] as int,
                                ) && ivs[j].description_at(pass_pre[j] as int)
                                    == ivs[k].description_at(pass_pre[k] as int);
                            assert(pass_pre[k] == 0 && pass_pre[j] == 0);
                            if k < j {
                                assert(ivs[k].description_at(0) != ivs[j].description_at(0));
                            } else {
                                assert(ivs[j].description_at(0) != ivs[k].description_at(0));
                            }
                        }
                    }
                    assert(!bump_flags@[k]);
                    assert(details@[k] == pass_pre[k]);
                }
            }
        }
    }
    details
}

impl crate::pane::Pane {
    /// The label detail needed by each of this pane's items, in tab order.
    pub fn tab_details(&self) -> (details: Vec<usize>)
        ensures
            details@.len() == self@.items.len(),
            details_stable(self@.items, details@),
            details_bounded(self@.items, details@),
            forall|i: int, j: int|
                0 <= i < self@.items.len() && 0 <= j < self@.items.len()
                    && self@.items[i].descriptions == self@.items[j].descriptions ==> details@[i]
                    == details@[j],
    {
        let details = tab_details(&self.items);
        proof {
            assert(views(self.items@) =~= self@.items);
        }
        details
    }
}

/// Items with identical description lists and identical current detail are
/// bumped together or not at all.
proof fn lemma_twins_bump_alike(items: Seq<ItemView>, details: Seq<usize>, a: int, b: int)
    requires
        0 <= a < items.len(),
        0 <= b < items.len(),
        items[a].descriptions == items[b].descriptions,
        details[a] == details[b],
    ensures
        bumped(items, details, a) == bumped(items, details, b),
{
    assert(items[a].description_at(details[a] as int) == items[b].description_at(
        details[b] as int,
    ));
    assert(participating(items[a], details[a] as int) == participating(
        items[b],
        details[b] as int,
    ));
    if a != b {
        if bumped(items, details, a) {
            let w = choose|j: int|
                0 <= j < items.len() && j != a && participating(items[j], details[j] as int)
                    && items[j].description_at(details[j] as int) == items[a].description_at(
                    details[a] as int,
                );
            if w == b {
                assert(participating(items[a], details[a] as int));
                assert(bumped(items, details, b));
            } else {
                assert(bumped(items, details, b));
            }
        }
        if bumped(items, details, b) {
            let w = choose|j: int|
                0 <= j < items.len() && j != b && participating(items[j], details[j] as int)
                    && items[j].description_at(details[j] as int) == items[b].description_at(
                    details[b] as int,
                );
            if w == a {
                assert(bumped(items, details, a));
            } else {
                assert(bumped(items, details, a));
            }
        }
    }
}

/// Two distinct items whose level-zero descriptions collide never both stay
/// at detail zero once the resolver has reached a fixed point.
pub proof fn lemma_colliding_items_separate(
    items: Seq<ItemView>,
    details: Seq<usize>,
    i: int,
    j: int,
)
    requires
        details_stable(items, details),
        0 <= i < items.len(),
        0 <= j < items.len(),
        i != j,
        items[i].description_at(0) is Some,
        items[i].description_at(0) == items[j].description_at(0),
    ensures
        !(details[i] == 0 && details[j] == 0),
{
    if details[i] == 0 && details[j] == 0 {
        assert(participating(items[i], 0));
        assert(participating(items[j], 0));
        assert(bumped(items, details, i));
    }
}

} // verus!
