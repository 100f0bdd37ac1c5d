//! The size-bounded splitter: partitions the ordered page list into
//! contiguous groups whose summed byte size stays within a budget.
//!
//! The split is a greedy, order-preserving bin fill: assets accumulate into
//! the current group while the running total stays within the budget; an
//! asset that would push the total past the budget closes the group and
//! seeds the next one. An asset whose own size exceeds the budget stands
//! alone in its group — it is never dropped and never cut apart.

use vstd::prelude::*;

use crate::assets::{asset_size, group_size, images_view, ImageFile, ImageView, PackagePlan};

verus! {

/// The greedy split of `imgs` under `budget`, with `cur` the group being
/// filled. Groups are closed exactly when the next asset would push the
/// group past the budget, so no group is ever empty.
pub open spec fn split_rec(imgs: Seq<ImageView>, budget: int, cur: Seq<ImageView>) -> Seq<
    Seq<ImageView>,
>
    decreases imgs.len(),
{
    if imgs.len() == 0 {
        if cur.len() == 0 {
            Seq::empty()
        } else {
            seq![cur]
        }
    } else {
        let a = imgs[0];
        if cur.len() > 0 && group_size(cur) + asset_size(a) > budget {
            seq![cur] + split_rec(imgs.drop_first(), budget, seq![a])
        } else {
            split_rec(imgs.drop_first(), budget, cur.push(a))
        }
    }
}

/// The greedy split of `imgs` under `budget`, starting from an empty group.
pub open spec fn split_spec(imgs: Seq<ImageView>, budget: int) -> Seq<Seq<ImageView>> {
    split_rec(imgs, budget, Seq::empty())
}

/// The views of a vector of groups.
pub open spec fn groups_view(gs: Seq<Vec<ImageFile>>) -> Seq<Seq<ImageView>> {
    gs.map_values(|g: Vec<ImageFile>| images_view(g@))
}

/// Summing a group is additive in its last element.
proof fn lemma_group_size_push(g: Seq<ImageView>, a: ImageView)
    ensures
        group_size(g.push(a)) == group_size(g) + asset_size(a),
    decreases g.len(),
{
    if g.len() == 0 {
        assert(g.push(a).drop_first() =~= Seq::<ImageView>::empty());
        assert(g.push(a)[0] == a);
        assert(group_size(Seq::<ImageView>::empty()) == 0);
        assert(group_size(g) == 0);
    } else {
        assert(g.push(a).drop_first() =~= g.drop_first().push(a));
        assert(g.push(a)[0] == g[0]);
        lemma_group_size_push(g.drop_first(), a);
    }
}

/// The groups of the split concatenate, in order, back to exactly the
/// input preceded by the group under construction: nothing is lost,
/// duplicated or reordered.
pub proof fn lemma_split_rec_flatten(imgs: Seq<ImageView>, budget: int, cur: Seq<ImageView>)
    ensures
        split_rec(imgs, budget, cur).flatten() == cur + imgs,
    decreases imgs.len(),
{
    if imgs.len() == 0 {
        if cur.len() == 0 {
            assert(split_rec(imgs, budget, cur).flatten() =~= cur + imgs);
        } else {
            assert(seq![cur].drop_first() =~= Seq::<Seq<ImageView>>::empty());
            assert(Seq::<Seq<ImageView>>::empty().flatten() =~= Seq::<ImageView>::empty());
            assert(seq![cur].first() == cur);
            assert(seq![cur].flatten() =~= cur + imgs);
        }
    } else {
        let a = imgs[0];
        if cur.len() > 0 && group_size(cur) + asset_size(a) > budget {
            lemma_split_rec_flatten(imgs.drop_first(), budget, seq![a]);
            let rest = split_rec(imgs.drop_first(), budget, seq![a]);
            assert((seq![cur] + rest).drop_first() =~= rest);
            assert((seq![cur] + rest).first() == cur);
            assert((seq![cur] + rest).flatten() == cur + rest.flatten());
            assert(cur + (seq![a] + imgs.drop_first()) =~= cur + imgs);
        } else {
            lemma_split_rec_flatten(imgs.drop_first(), budget, cur.push(a));
            assert(cur.push(a) + imgs.drop_first() =~= cur + imgs);
        }
    }
}

/// Every group of the split is non-empty, and stays within the budget
/// unless it is a single asset that alone exceeds it.
pub proof fn lemma_split_rec_sizes(imgs: Seq<ImageView>, budget: int, cur: Seq<ImageView>)
    requires
        cur.len() > 0 ==> group_size(cur) <= budget || cur.len() == 1,
    ensures
        forall|i: int|
            0 <= i < split_rec(imgs, budget, cur).len() ==> (#[trigger] split_rec(
                imgs,
                budget,
                cur,
            )[i]).len() >= 1 && (group_size(split_rec(imgs, budget, cur)[i]) <= budget || split_rec(
                imgs,
                budget,
                cur,
            )[i].len() == 1),
    decreases imgs.len(),
{
    if imgs.len() == 0 {
    } else {
        let a = imgs[0];
        if cur.len() > 0 && group_size(cur) + asset_size(a) > budget {
            lemma_split_rec_sizes(imgs.drop_first(), budget, seq![a]);
            let rest = split_rec(imgs.drop_first(), budget, seq![a]);
            assert forall|i: int| 0 <= i < split_rec(imgs, budget, cur).len() implies (
            #[trigger] split_rec(imgs, budget, cur)[i]).len() >= 1 && (group_size(
                split_rec(imgs, budget, cur)[i],
            ) <= budget || split_rec(imgs, budget, cur)[i].len() == 1) by {
                if i == 0 {
                    assert(split_rec(imgs, budget, cur)[i] == cur);
                } else {
                    assert(split_rec(imgs, budget, cur)[i] == rest[i - 1]);
                }
            }
        } else {
            lemma_group_size_push(cur, a);
            lemma_split_rec_sizes(imgs.drop_first(), budget, cur.push(a));
            assert forall|i: int| 0 <= i < split_rec(imgs, budget, cur).len() implies (
            #[trigger] split_rec(imgs, budget, cur)[i]).len() >= 1 && (group_size(
                split_rec(imgs, budget, cur)[i],
            ) <= budget || split_rec(imgs, budget, cur)[i].len() == 1) by {
                assert(split_rec(imgs, budget, cur)[i] == split_rec(
                    imgs.drop_first(),
                    budget,
                    cur.push(a),
                )[i]);
            }
        }
    }
}

/// When every single asset is larger than the budget, every group of the
/// split holds exactly one asset.
pub proof fn lemma_split_rec_oversized(imgs: Seq<ImageView>, budget: int, cur: Seq<ImageView>)
    requires
        forall|i: int| 0 <= i < imgs.len() ==> asset_size(#[trigger] imgs[i]) > budget,
        cur.len() <= 1,
        cur.len() == 1 ==> asset_size(cur[0]) > budget,
    ensures
        forall|i: int|
            0 <= i < split_rec(imgs, budget, cur).len() ==> #[trigger] split_rec(
                imgs,
                budget,
                cur,
            )[i].len() == 1,
    decreases imgs.len(),
{
    if imgs.len() == 0 {
    } else {
        let a = imgs[0];
        if cur.len() > 0 && group_size(cur) + asset_size(a) > budget {
            lemma_split_rec_oversized(imgs.drop_first(), budget, seq![a]);
            let rest = split_rec(imgs.drop_first(), budget, seq![a]);
            assert forall|i: int|
                0 <= i < split_rec(imgs, budget, cur).len() implies #[trigger] split_rec(
                imgs,
                budget,
                cur,
            )[i].len() == 1 by {
                if i == 0 {
                    assert(split_rec(imgs, budget, cur)[i] == cur);
                } else {
                    assert(split_rec(imgs, budget, cur)[i] == rest[i - 1]);
                }
            }
        } else {
            if cur.len() == 1 {
                assert(cur.drop_first() =~= Seq::<ImageView>::empty());
                assert(group_size(Seq::<ImageView>::empty()) == 0);
                assert(group_size(cur) == asset_size(cur[0]) + group_size(cur.drop_first()));
                assert(false);
            }
            assert(cur.len() == 0);
            assert(cur.push(a) =~= seq![a]);
            lemma_split_rec_oversized(imgs.drop_first(), budget, seq![a]);
            assert forall|i: int|
                0 <= i < split_rec(imgs, budget, cur).len() implies #[trigger] split_rec(
                imgs,
                budget,
                cur,
            )[i].len() == 1 by {
                assert(split_rec(imgs, budget, cur)[i] == split_rec(
                    imgs.drop_first(),
                    budget,
                    seq![a],
                )[i]);
            }
        }
    }
}

/// The concatenation of the groups of the split, in order, is exactly the
/// input sequence: no loss, no reordering, no duplication.
pub proof fn lemma_split_reconstructs(imgs: Seq<ImageView>, budget: int)
    ensures
        split_spec(imgs, budget).flatten() == imgs,
{
    lemma_split_rec_flatten(imgs, budget, Seq::empty());
    assert(Seq::<ImageView>::empty() + imgs =~= imgs);
}

/// When the budget is smaller than every individual asset's size, each
/// group of the split holds exactly one asset.
pub proof fn lemma_split_all_oversized(imgs: Seq<ImageView>, budget: int)
    requires
        forall|i: int| 0 <= i < imgs.len() ==> asset_size(#[trigger] imgs[i]) > budget,
    ensures
        forall|i: int|
            0 <= i < split_spec(imgs, budget).len() ==> #[trigger] split_spec(
                imgs,
                budget,
            )[i].len() == 1,
{
    lemma_split_rec_oversized(imgs, budget, Seq::empty());
}

/// Partition `images` into contiguous groups under `budget`, greedily and
/// in order, per [`split_spec`].
pub fn split_by_size(images: Vec<ImageFile>, budget: usize) -> (groups: Vec<Vec<ImageFile>>)
    requires
        budget >= 1,
    ensures
        groups_view(groups@) == split_spec(images_view(images@), budget as int),
{
    let ghost orig: Seq<ImageView> = images_view(images@);
    let mut rest = images;
    let mut finished: Vec<Vec<ImageFile>> = Vec::new();
    let mut cur: Vec<ImageFile> = Vec::new();
    let mut cur_size: usize = 0;
    proof {
        assert(images_view(cur@) =~= Seq::<ImageView>::empty());
        assert(groups_view(finished@) =~= Seq::<Seq<ImageView>>::empty());
        assert(groups_view(finished@) + split_rec(
            images_view(rest@),
            budget as int,
            images_view(cur@),
        ) =~= split_spec(orig, budget as int));
    }
    while rest.len() > 0
        invariant
            budget >= 1,
            cur_size == group_size(images_view(cur@)),
            cur@.len() > 0 ==> (cur_size <= budget || cur@.len() == 1),
            groups_view(finished@) + split_rec(images_view(rest@), budget as int, images_view(cur@))
                == split_spec(orig, budget as int),
        decreases rest.len(),
    {
        let ghost pre_rest = images_view(rest@);
        let ghost pre_cur = images_view(cur@);
        let a = rest.remove(0);
        proof {
            assert(images_view(rest@) =~= pre_rest.drop_first());
            assert(a@ == pre_rest[0]);
        }
        let s = a.contents.len();
        if cur.len() > 0 && (s > budget || cur_size > budget - s) {
            proof {
                assert(group_size(pre_cur) + asset_size(a@) > budget as int);
            }
            finished.push(cur);
            cur = Vec::new();
            cur.push(a);
            cur_size = s;
            proof {
                assert(images_view(cur@) =~= seq![pre_rest[0]]);
                assert(seq![pre_rest[0]].drop_first() =~= Seq::<ImageView>::empty());
                assert(group_size(Seq::<ImageView>::empty()) == 0);
                assert(group_size(images_view(cur@)) == asset_size(pre_rest[0]) + group_size(
                    Seq::<ImageView>::empty(),
                ));
                assert(groups_view(finished@) =~= groups_view(finished@.drop_last()).push(pre_cur));
                assert(groups_view(finished@.drop_last()) + split_rec(
                    pre_rest,
                    budget as int,
                    pre_cur,
                ) == split_spec(orig, budget as int));
                assert(split_rec(pre_rest, budget as int, pre_cur) == seq![pre_cur] + split_rec(
                    pre_rest.drop_first(),
                    budget as int,
                    seq![pre_rest[0]],
                ));
                assert(groups_view(finished@) + split_rec(
                    images_view(rest@),
                    budget as int,
                    images_view(cur@),
                ) =~= groups_view(finished@.drop_last()) + (seq![pre_cur] + split_rec(
                    pre_rest.drop_first(),
                    budget as int,
                    seq![pre_rest[0]],
                )));
            }
        } else {
            proof {
                if cur@.len() > 0 {
                    assert(s <= budget && cur_size <= budget - s);
                } else {
                    assert(group_size(images_view(cur@)) == 0);
                }
                assert(cur_size + s <= usize::MAX);
            }
            cur.push(a);
            cur_size = cur_size + s;
            proof {
                assert(images_view(cur@) =~= pre_cur.push(pre_rest[0]));
                lemma_group_size_push(pre_cur, pre_rest[0]);
                if pre_cur.len() > 0 {
                    assert(group_size(pre_cur) + asset_size(pre_rest[0]) <= budget as int);
                }
                assert(split_rec(pre_rest, budget as int, pre_cur) == split_rec(
                    pre_rest.drop_first(),
                    budget as int,
                    pre_cur.push(pre_rest[0]),
                ));
            }
        }
    }
    proof {
        assert(images_view(rest@) =~= Seq::<ImageView>::empty());
    }
    if cur.len() > 0 {
        finished.push(cur);
        proof {
            assert(groups_view(finished@) =~= groups_view(finished@.drop_last()).push(
                images_view(finished@.last()@),
            ));
            assert(groups_view(finished@) =~= split_spec(orig, budget as int));
        }
    } else {
        proof {
            assert(images_view(cur@) =~= Seq::<ImageView>::empty());
            assert(groups_view(finished@) + Seq::<Seq<ImageView>>::empty() =~= groups_view(
                finished@,
            ));
        }
    }
    finished
}

/// Wrap the groups of a split as package plans. With a single group the
/// plan carries no part index; with several, plan `i` (0-based) carries
/// the 1-indexed pair `(i + 1, total)`.
pub fn make_plans(groups: Vec<Vec<ImageFile>>) -> (plans: Vec<PackagePlan>)
    ensures
        plans@.len() == groups@.len(),
        forall|i: int|
            0 <= i < plans@.len() ==> images_view(#[trigger] plans@[i].images@) == groups_view(
                groups@,
            )[i],
        groups@.len() == 1 ==> plans@[0].part_index is None,
        groups@.len() != 1 ==> forall|i: int|
            0 <= i < plans@.len() ==> #[trigger] plans@[i].part_index == Some(
                ((i + 1) as usize, groups@.len() as usize),
            ),
{
    let total = groups.len();
    let mut rest = groups;
    let mut plans: Vec<PackagePlan> = Vec::new();
    let ghost orig: Seq<Vec<ImageFile>> = rest@;
    while rest.len() > 0
        invariant
            total == orig.len(),
            plans@.len() + rest@.len() == orig.len(),
            rest@ =~= orig.skip(plans@.len() as int),
            forall|i: int|
                0 <= i < plans@.len() ==> images_view(#[trigger] plans@[i].images@) == groups_view(
                    orig,
                )[i],
            total == 1 ==> (plans@.len() > 0 ==> plans@[0].part_index is None),
            total != 1 ==> forall|i: int|
                0 <= i < plans@.len() ==> #[trigger] plans@[i].part_index == Some(
                    ((i + 1) as usize, total),
                ),
        decreases rest.len(),
    {
        let g = rest.remove(0);
        let idx = plans.len();
        let part_index: Option<(usize, usize)> = if total == 1 {
            None
        } else {
            Some((idx + 1, total))
        };
        plans.push(PackagePlan { images: g, part_index });
        proof {
            assert(rest@ =~= orig.skip(plans@.len() as int));
            assert(g@ == orig[plans@.len() - 1]@);
        }
    }
    plans
}

} // verus!
