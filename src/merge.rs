use crate::domain::{levels_view, LevelInfo, LevelView};
use crate::order::{
    insertion_sort, lemma_sort_by_name_view, name_less, name_lt, sort_by_name, view_by_name,
};
use vstd::prelude::*;

verus! {

/// Of two levels with one leaderboard name, the fresh one `n`, unless it came
/// back empty where the stored one `o` has entries.
pub open spec fn fill_gap(n: LevelView, o: LevelView) -> LevelView {
    if n.entries.len() == 0 && o.entries.len() > 0 {
        o
    } else {
        n
    }
}

/// The merge-join by leaderboard name of two name-sorted snapshots: a level
/// on one side only is kept, and a level on both sides is `fill_gap` of the
/// two.
pub open spec fn merge_join(l: Seq<LevelView>, r: Seq<LevelView>) -> Seq<LevelView>
    decreases l.len() + r.len(),
{
    if l.len() == 0 {
        r
    } else if r.len() == 0 {
        l
    } else if l[0].leaderboard_name == r[0].leaderboard_name {
        seq![fill_gap(l[0], r[0])] + merge_join(l.drop_first(), r.drop_first())
    } else if name_lt(l[0].leaderboard_name, r[0].leaderboard_name) {
        seq![l[0]] + merge_join(l.drop_first(), r)
    } else {
        seq![r[0]] + merge_join(l, r.drop_first())
    }
}

/// The snapshot that `merge_join` makes of `fresh` and `stored`, each first
/// sorted by leaderboard name.
pub open spec fn merged(fresh: Seq<LevelView>, stored: Seq<LevelView>) -> Seq<LevelView> {
    merge_join(insertion_sort(fresh, view_by_name()), insertion_sort(stored, view_by_name()))
}

proof fn lemma_skip_step(s: Seq<LevelView>, i: int)
    requires
        0 <= i < s.len(),
    ensures
        s.skip(i).drop_first() == s.skip(i + 1),
        s.skip(i)[0] == s[i],
{
    assert(s.skip(i).drop_first() =~= s.skip(i + 1));
}

/// Supplements `level_infos`, freshly fetched, with the stored snapshot
/// `other`: a level that came back with no entries where `other` has some
/// takes `other`'s version, and a level missing from `level_infos` is kept
/// from `other`. The result is sorted by leaderboard name.
pub fn add_missing_entries_from(level_infos: Vec<LevelInfo>, other: Vec<LevelInfo>) -> (r: Vec<
    LevelInfo,
>)
    ensures
        levels_view(r@) == merged(levels_view(level_infos@), levels_view(other@)),
{
    proof {
        lemma_sort_by_name_view(level_infos@);
        lemma_sort_by_name_view(other@);
    }
    let ls = sort_by_name(level_infos);
    let rs = sort_by_name(other);
    let ghost lv = levels_view(ls@);
    let ghost rv = levels_view(rs@);
    let mut out: Vec<LevelInfo> = Vec::new();
    let mut i: usize = 0;
    let mut j: usize = 0;
    assert(lv.skip(0) =~= lv);
    assert(rv.skip(0) =~= rv);
    while i < ls.len() || j < rs.len()
        invariant
            i <= ls.len(),
            j <= rs.len(),
            lv == levels_view(ls@),
            rv == levels_view(rs@),
            merge_join(lv, rv) == levels_view(out@) + merge_join(lv.skip(i as int), rv.skip(j as int)),
        decreases ls.len() + rs.len() - i - j,
    {
        let ghost before = levels_view(out@);
        if i == ls.len() {
            proof {
                lemma_skip_step(rv, j as int);
            }
            out.push(rs[j].duplicate());
            j = j + 1;
        } else if j == rs.len() {
            proof {
                lemma_skip_step(lv, i as int);
            }
            out.push(ls[i].duplicate());
            i = i + 1;
        } else {
            proof {
                lemma_skip_step(lv, i as int);
                lemma_skip_step(rv, j as int);
            }
            let l = &ls[i];
            let o = &rs[j];
            if l.leaderboard_name == o.leaderboard_name {
                if l.leaderboard_response.entries.len() == 0 && o.leaderboard_response.entries.len()
                    > 0 {
                    out.push(o.duplicate());
                } else {
                    out.push(l.duplicate());
                }
                i = i + 1;
                j = j + 1;
            } else if name_less(l.leaderboard_name.as_str(), o.leaderboard_name.as_str()) {
                out.push(l.duplicate());
                i = i + 1;
            } else {
                out.push(o.duplicate());
                j = j + 1;
            }
        }
        assert(levels_view(out@) =~= before.push(out@.last()@));
    }
    assert(lv.skip(i as int) =~= Seq::<LevelView>::empty());
    assert(rv.skip(j as int) =~= Seq::<LevelView>::empty());
    assert(levels_view(out@) + Seq::<LevelView>::empty() =~= levels_view(out@));
    out
}

} // verus!
