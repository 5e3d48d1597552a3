use crate::domain::{
    changes_view, levels_view, opt_view, rfc2822_text, ChangeView, ChangelistEntry, EntryView,
    LevelInfo, LevelView,
};
use crate::mode::{better_score, format_score, is_score_better, score_text};
use crate::order::{by_workshop_id, insert_pos, insertion_sort, sort_by_workshop_id};
use crate::text::{decimal, decimal_string};
use vstd::prelude::*;

verus! {

/// The first level of `levels` named `name`.
pub open spec fn find_level(levels: Seq<LevelView>, name: Seq<char>) -> Option<LevelView>
    decreases levels.len(),
{
    if levels.len() == 0 {
        None
    } else if levels[0].leaderboard_name == name {
        Some(levels[0])
    } else {
        find_level(levels.drop_first(), name)
    }
}

/// The entry that records `first` as the new top of `l`, with `prev` the top
/// it replaces, if there was one; `record_new` and `record_old` are the two
/// scores as `l`'s mode shows them.
pub open spec fn change_entry(
    l: LevelView,
    first: EntryView,
    prev: Option<EntryView>,
    record_new: Seq<char>,
    record_old: Option<Seq<char>>,
) -> ChangeView {
    ChangeView {
        map_name: l.name,
        map_author: match l.workshop {
            Some(w) => Some(w.author_name),
            None => None,
        },
        map_preview: match l.workshop {
            Some(w) => Some(w.preview_url),
            None => None,
        },
        mode: l.mode.name_spec(),
        new_recordholder: first.player_name,
        old_recordholder: match prev {
            Some(p) => Some(p.player_name),
            None => None,
        },
        record_new,
        record_old,
        workshop_item_id: match l.workshop {
            Some(w) => Some(decimal(w.published_file_id as nat)),
            None => None,
        },
        steam_id_author: match l.workshop {
            Some(w) => Some(decimal(w.steam_id_owner as nat)),
            None => None,
        },
        steam_id_new_recordholder: decimal(first.steam_id as nat),
        steam_id_old_recordholder: match prev {
            Some(p) => Some(decimal(p.steam_id as nat)),
            None => None,
        },
        fetch_time: rfc2822_text(l.timestamp.secs()),
    }
}

/// What the fresh level `l` records against the stored snapshot `stored`.
/// Nothing when `l` has no entries or `stored` has no level of its name; a new
/// record, with no previous holder, when `stored`'s level has no entries; else a
/// change only when `l`'s top score is strictly better than `stored`'s. Nothing
/// either when a score to be shown has no reading in the mode.
pub open spec fn change_for(l: LevelView, stored: Seq<LevelView>) -> Option<ChangeView> {
    if l.entries.len() == 0 {
        None
    } else {
        let first = l.entries[0];
        match find_level(stored, l.leaderboard_name) {
            None => None,
            Some(o) => {
                if o.entries.len() == 0 {
                    match score_text(first.score as int, l.mode) {
                        Some(t) => Some(change_entry(l, first, None, t, None)),
                        None => None,
                    }
                } else {
                    let prev = o.entries[0];
                    if better_score(first.score as int, prev.score as int, l.mode) {
                        match (score_text(first.score as int, l.mode), score_text(prev.score as int, l.mode)) {
                            (Some(t), Some(u)) => Some(change_entry(l, first, Some(prev), t, Some(u))),
                            _ => None,
                        }
                    } else {
                        None
                    }
                }
            },
        }
    }
}

/// Whether `a` likely records the same change as `b`: the same map, mode, new
/// score, workshop item, author and new record holder.
pub open spec fn likely_duplicate(a: ChangeView, b: ChangeView) -> bool {
    &&& a.map_name == b.map_name
    &&& a.mode == b.mode
    &&& a.record_new == b.record_new
    &&& a.workshop_item_id == b.workshop_item_id
    &&& a.steam_id_author == b.steam_id_author
    &&& a.steam_id_new_recordholder == b.steam_id_new_recordholder
}

pub open spec fn duplicated(c: ChangeView, existing: Seq<ChangeView>) -> bool {
    exists|k: int| 0 <= k < existing.len() && likely_duplicate(c, #[trigger] existing[k])
}

/// The entries that `levels`, in processing order, add to the changelist
/// `existing`, in the order in which they are appended: those of later levels
/// first, and none that `existing` already has.
pub open spec fn appended(levels: Seq<LevelView>, stored: Seq<LevelView>, existing: Seq<ChangeView>) -> Seq<
    ChangeView,
>
    decreases levels.len(),
{
    if levels.len() == 0 {
        Seq::empty()
    } else {
        let rest = appended(levels.drop_first(), stored, existing);
        match change_for(levels[0], stored) {
            Some(c) => if duplicated(c, existing) {
                rest
            } else {
                rest.push(c)
            },
            None => rest,
        }
    }
}

impl ChangelistEntry {
    /// Whether `self` likely records the same change as `other`.
    pub fn is_likely_a_duplicate_of(&self, other: &ChangelistEntry) -> (r: bool)
        ensures
            r == likely_duplicate(self@, other@),
    {
        self.map_name == other.map_name && self.mode == other.mode && self.record_new
            == other.record_new && opt_eq(&self.workshop_item_id, &other.workshop_item_id)
            && opt_eq(&self.steam_id_author, &other.steam_id_author)
            && self.steam_id_new_recordholder == other.steam_id_new_recordholder
    }
}

fn opt_eq(a: &Option<String>, b: &Option<String>) -> (r: bool)
    ensures
        r == (opt_view(*a) == opt_view(*b)),
{
    match (a, b) {
        (Some(x), Some(y)) => *x == *y,
        (None, None) => true,
        _ => false,
    }
}

fn find_index(levels: &Vec<LevelInfo>, name: &String) -> (r: Option<usize>)
    ensures
        match r {
            Some(k) => k < levels.len() && find_level(levels_view(levels@), name@) == Some(
                levels@[k as int]@,
            ),
            None => find_level(levels_view(levels@), name@) is None,
        },
{
    let ghost lv = levels_view(levels@);
    let mut i: usize = 0;
    assert(lv.skip(0) =~= lv);
    while i < levels.len()
        invariant
            i <= levels.len(),
            lv == levels_view(levels@),
            find_level(lv, name@) == find_level(lv.skip(i as int), name@),
        decreases levels.len() - i,
    {
        assert(lv.skip(i as int)[0] == levels@[i as int]@);
        assert(lv.skip(i as int).drop_first() =~= lv.skip(i + 1));
        if levels[i].leaderboard_name == *name {
            return Some(i);
        }
        i = i + 1;
    }
    None
}

fn is_duplicated(c: &ChangelistEntry, existing: &Vec<ChangelistEntry>) -> (r: bool)
    ensures
        r == duplicated(c@, changes_view(existing@)),
{
    let mut k: usize = 0;
    while k < existing.len()
        invariant
            k <= existing.len(),
            forall|m: int| 0 <= m < k ==> !likely_duplicate(c@, #[trigger] existing@[m]@),
        decreases existing.len() - k,
    {
        if c.is_likely_a_duplicate_of(&existing[k]) {
            assert(changes_view(existing@)[k as int] == existing@[k as int]@);
            return true;
        }
        k = k + 1;
    }
    assert forall|m: int| 0 <= m < changes_view(existing@).len() implies !likely_duplicate(
        c@,
        #[trigger] changes_view(existing@)[m],
    ) by {
        assert(changes_view(existing@)[m] == existing@[m]@);
    }
    false
}

/// Builds the entry that `change_for` describes for `l` against `stored`.
fn entry_for(l: &LevelInfo, stored: &Vec<LevelInfo>) -> (r: Option<ChangelistEntry>)
    ensures
        match r {
            Some(c) => change_for(l@, levels_view(stored@)) == Some(c@),
            None => change_for(l@, levels_view(stored@)) is None,
        },
{
    if l.leaderboard_response.entries.len() == 0 {
        return None;
    }
    let first = &l.leaderboard_response.entries[0];
    assert(l@.entries[0] == first@);
    let k = match find_index(stored, &l.leaderboard_name) {
        Some(k) => k,
        None => return None,
    };
    let o = &stored[k];
    assert(levels_view(stored@)[k as int] == o@);
    let record_new = match format_score(first.score, l.mode) {
        Some(t) => t,
        None => return None,
    };
    let (old_recordholder, record_old, steam_id_old_recordholder) = if o.leaderboard_response.entries.len()
        == 0 {
        (None, None, None)
    } else {
        let prev = &o.leaderboard_response.entries[0];
        assert(o@.entries[0] == prev@);
        if !is_score_better(first.score, prev.score, l.mode) {
            return None;
        }
        let u = match format_score(prev.score, l.mode) {
            Some(u) => u,
            None => return None,
        };
        (Some(prev.player_name.clone()), Some(u), Some(decimal_string(prev.steam_id)))
    };
    let (map_author, map_preview, workshop_item_id, steam_id_author) = match &l.workshop_response {
        Some(w) => (
            Some(w.author_name.clone()),
            Some(w.preview_url.clone()),
            Some(decimal_string(w.published_file_id)),
            Some(decimal_string(w.steam_id_owner)),
        ),
        None => (None, None, None, None),
    };
    let c = ChangelistEntry {
        map_name: l.name.clone(),
        map_author,
        map_preview,
        mode: String::from_str(l.mode.name()),
        new_recordholder: first.player_name.clone(),
        old_recordholder,
        record_new,
        record_old,
        workshop_item_id,
        steam_id_author,
        steam_id_new_recordholder: decimal_string(first.steam_id),
        steam_id_old_recordholder,
        fetch_time: l.timestamp.to_rfc2822(),
    };
    Some(c)
}

/// Appends to `changelist` the changes that the fresh snapshot `new` shows
/// against the stored snapshot `previous`. `new` is first sorted by workshop item
/// id (official levels first, ties in their order); the entries are appended
/// in the reverse of that order, leaving out any that `changelist` already has.
pub fn update_changelist(
    changelist: &mut Vec<ChangelistEntry>,
    new: &mut Vec<LevelInfo>,
    previous: Vec<LevelInfo>,
)
    ensures
        final(new)@ == insertion_sort(old(new)@, by_workshop_id()),
        changes_view(final(changelist)@) == changes_view(old(changelist)@) + appended(
            levels_view(final(new)@),
            levels_view(previous@),
            changes_view(old(changelist)@),
        ),
{
    let mut taken: Vec<LevelInfo> = Vec::new();
    std::mem::swap(new, &mut taken);
    let sorted = sort_by_workshop_id(taken);
    let ghost nv = levels_view(sorted@);
    let ghost ov = levels_view(previous@);
    let ghost existing = changes_view(changelist@);
    let mut added: Vec<ChangelistEntry> = Vec::new();
    let mut i: usize = sorted.len();
    assert(nv.skip(nv.len() as int) =~= Seq::<LevelView>::empty());
    while i > 0
        invariant
            i <= sorted.len(),
            nv == levels_view(sorted@),
            ov == levels_view(previous@),
            existing == changes_view(changelist@),
            changes_view(added@) == appended(nv.skip(i as int), ov, existing),
        decreases i,
    {
        i = i - 1;
        assert(nv.skip(i as int)[0] == sorted@[i as int]@);
        assert(nv.skip(i as int).drop_first() =~= nv.skip(i + 1));
        let ghost before = changes_view(added@);
        match entry_for(&sorted[i], &previous) {
            Some(c) => {
                if !is_duplicated(&c, changelist) {
                    added.push(c);
                    assert(changes_view(added@) =~= before.push(c@));
                }
            },
            None => {},
        }
    }
    assert(nv.skip(0) =~= nv);
    let ghost before_all = changes_view(changelist@);
    let ghost add_view = changes_view(added@);
    changelist.append(&mut added);
    assert(changes_view(changelist@) =~= before_all + add_view);
    *new = sorted;
}

/// The top entry of the stored level named like `l`, if there is one.
pub open spec fn stored_top(l: LevelView, stored: Seq<LevelView>) -> Option<EntryView> {
    match find_level(stored, l.leaderboard_name) {
        Some(o) => if o.entries.len() > 0 {
            Some(o.entries[0])
        } else {
            None
        },
        None => None,
    }
}

/// For a level with entries in both snapshots, a change is recorded exactly
/// when the new top score is strictly better than the stored one in the
/// level's mode: an equal or worse score records nothing. (Both scores must be
/// ones the mode can show: times are not negative.)
pub proof fn lemma_change_iff_better(l: LevelView, stored: Seq<LevelView>)
    requires
        l.entries.len() > 0,
        stored_top(l, stored) is Some,
        score_text(l.entries[0].score as int, l.mode) is Some,
        score_text(stored_top(l, stored)->Some_0.score as int, l.mode) is Some,
    ensures
        change_for(l, stored) is Some <==> better_score(
            l.entries[0].score as int,
            stored_top(l, stored)->Some_0.score as int,
            l.mode,
        ),
{
}

/// Every change that `levels` yields against `stored` is either already in
/// `existing` or among those appended.
proof fn lemma_change_recorded(
    levels: Seq<LevelView>,
    stored: Seq<LevelView>,
    existing: Seq<ChangeView>,
    j: int,
)
    requires
        0 <= j < levels.len(),
        change_for(levels[j], stored) is Some,
    ensures
        ({
            let c = change_for(levels[j], stored)->Some_0;
            duplicated(c, existing) || appended(levels, stored, existing).contains(c)
        }),
    decreases levels.len(),
{
    let c = change_for(levels[j], stored)->Some_0;
    let rest = appended(levels.drop_first(), stored, existing);
    if j > 0 {
        assert(levels.drop_first()[j - 1] == levels[j]);
        lemma_change_recorded(levels.drop_first(), stored, existing, j - 1);
        if rest.contains(c) {
            let k = choose|k: int| 0 <= k < rest.len() && rest[k] == c;
            match change_for(levels[0], stored) {
                Some(d) => if !duplicated(d, existing) {
                    assert(rest.push(d)[k] == c);
                },
                None => {},
            }
        }
    } else {
        if !duplicated(c, existing) {
            assert(rest.push(c)[rest.len() as int] == c);
        }
    }
}

proof fn lemma_nothing_appended(levels: Seq<LevelView>, stored: Seq<LevelView>, existing: Seq<ChangeView>)
    requires
        forall|j: int|
            0 <= j < levels.len() && (#[trigger] change_for(levels[j], stored)) is Some ==> duplicated(
                change_for(levels[j], stored)->Some_0,
                existing,
            ),
    ensures
        appended(levels, stored, existing) == Seq::<ChangeView>::empty(),
    decreases levels.len(),
{
    if levels.len() > 0 {
        assert forall|j: int|
            0 <= j < levels.drop_first().len() && (#[trigger] change_for(
                levels.drop_first()[j],
                stored,
            )) is Some implies duplicated(change_for(levels.drop_first()[j], stored)->Some_0, existing) by {
            assert(levels.drop_first()[j] == levels[j + 1]);
        }
        lemma_nothing_appended(levels.drop_first(), stored, existing);
        if change_for(levels[0], stored) is Some {
            assert(duplicated(change_for(levels[0], stored)->Some_0, existing));
        }
    }
}

proof fn lemma_sorted_members<T>(s: Seq<T>, lt: spec_fn(T, T) -> bool)
    ensures
        insertion_sort(s, lt).len() == s.len(),
        forall|i: int|
            0 <= i < insertion_sort(s, lt).len() ==> exists|j: int|
                0 <= j < s.len() && s[j] == #[trigger] insertion_sort(s, lt)[i],
    decreases s.len(),
{
    if s.len() > 0 {
        let t = s.drop_first();
        let r = insertion_sort(t, lt);
        lemma_sorted_members(t, lt);
        lemma_insert_pos_le(r, s[0], lt);
        let p = insert_pos(r, s[0], lt) as int;
        assert forall|i: int| 0 <= i < insertion_sort(s, lt).len() implies exists|j: int|
            0 <= j < s.len() && s[j] == #[trigger] insertion_sort(s, lt)[i] by {
            if i == p {
                assert(s[0] == insertion_sort(s, lt)[i]);
            } else {
                let ri = if i < p {
                    i
                } else {
                    i - 1
                };
                assert(insertion_sort(s, lt)[i] == r[ri]);
                let j = choose|j: int| 0 <= j < t.len() && t[j] == r[ri];
                assert(s[j + 1] == t[j]);
            }
        }
    }
}

proof fn lemma_insert_pos_le<T>(r: Seq<T>, x: T, lt: spec_fn(T, T) -> bool)
    ensures
        insert_pos(r, x, lt) <= r.len(),
    decreases r.len(),
{
    if r.len() > 0 {
        lemma_insert_pos_le(r.drop_first(), x, lt);
    }
}

/// Running the diff a second time on its own result (the re-sorted snapshot
/// against the same stored one, with the changelist it produced) appends
/// nothing.
pub proof fn lemma_rerun_adds_nothing(
    new: Seq<LevelInfo>,
    stored: Seq<LevelInfo>,
    existing: Seq<ChangeView>,
)
    ensures
        ({
            let first = insertion_sort(new, by_workshop_id());
            let changelist = existing + appended(levels_view(first), levels_view(stored), existing);
            let second = insertion_sort(first, by_workshop_id());
            appended(levels_view(second), levels_view(stored), changelist) == Seq::<ChangeView>::empty()
        }),
{
    let first = insertion_sort(new, by_workshop_id());
    let ov = levels_view(stored);
    let l1 = levels_view(first);
    let added = appended(l1, ov, existing);
    let changelist = existing + added;
    let second = insertion_sort(first, by_workshop_id());
    let l2 = levels_view(second);
    lemma_sorted_members(first, by_workshop_id());
    assert forall|i: int| 0 <= i < l2.len() && (#[trigger] change_for(l2[i], ov)) is Some implies duplicated(
        change_for(l2[i], ov)->Some_0,
        changelist,
    ) by {
        assert(second[i] == insertion_sort(first, by_workshop_id())[i]);
        let j = choose|j: int| 0 <= j < first.len() && first[j] == #[trigger] insertion_sort(first, by_workshop_id())[i];
        assert(l1[j] == l2[i]);
        let c = change_for(l2[i], ov)->Some_0;
        lemma_change_recorded(l1, ov, existing, j);
        if duplicated(c, existing) {
            let k = choose|k: int| 0 <= k < existing.len() && likely_duplicate(c, #[trigger] existing[k]);
            assert(changelist[k] == existing[k]);
        } else {
            let k = choose|k: int| 0 <= k < added.len() && added[k] == c;
            assert(changelist[existing.len() + k] == c);
            assert(likely_duplicate(c, changelist[existing.len() + k]));
        }
    }
    lemma_nothing_appended(l2, ov, changelist);
}

} // verus!
