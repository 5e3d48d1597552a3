use crate::domain::{levels_view, LevelInfo, LevelView};
use vstd::prelude::*;
use vstd::utf8::encode_utf8;

verus! {

/// Lexicographic order on byte strings, a proper prefix first.
pub open spec fn bytes_lt(a: Seq<u8>, b: Seq<u8>) -> bool
    decreases a.len(),
{
    if a.len() == 0 {
        b.len() > 0
    } else if b.len() == 0 {
        false
    } else if a[0] != b[0] {
        a[0] < b[0]
    } else {
        bytes_lt(a.drop_first(), b.drop_first())
    }
}

/// The order of leaderboard names: that of their UTF-8 bytes.
pub open spec fn name_lt(a: Seq<char>, b: Seq<char>) -> bool {
    bytes_lt(encode_utf8(a), encode_utf8(b))
}

proof fn lemma_bytes_lt_skip(a: Seq<u8>, b: Seq<u8>, i: int)
    requires
        0 <= i <= a.len(),
        i <= b.len(),
        a.take(i) == b.take(i),
    ensures
        bytes_lt(a, b) == bytes_lt(a.skip(i), b.skip(i)),
    decreases i,
{
    if i > 0 {
        assert(a[0] == a.take(i)[0]);
        assert(b[0] == b.take(i)[0]);
        assert(a.drop_first().take(i - 1) =~= a.take(i).drop_first());
        assert(b.drop_first().take(i - 1) =~= b.take(i).drop_first());
        lemma_bytes_lt_skip(a.drop_first(), b.drop_first(), i - 1);
        assert(a.drop_first().skip(i - 1) =~= a.skip(i));
        assert(b.drop_first().skip(i - 1) =~= b.skip(i));
    } else {
        assert(a.skip(0) =~= a);
        assert(b.skip(0) =~= b);
    }
}

/// Whether name `a` sorts before name `b`.
pub fn name_less(a: &str, b: &str) -> (r: bool)
    ensures
        r == name_lt(a@, b@),
{
    let x = a.as_bytes();
    let y = b.as_bytes();
    let mut i: usize = 0;
    while i < x.len() && i < y.len() && x[i] == y[i]
        invariant
            i <= x@.len(),
            i <= y@.len(),
            x@.take(i as int) == y@.take(i as int),
        decreases x@.len() - i,
    {
        assert(x@.take(i + 1) =~= x@.take(i as int).push(x@[i as int]));
        assert(y@.take(i + 1) =~= y@.take(i as int).push(y@[i as int]));
        i = i + 1;
    }
    proof {
        lemma_bytes_lt_skip(x@, y@, i as int);
    }
    if i == x.len() {
        i < y.len()
    } else if i == y.len() {
        false
    } else {
        x[i] < y[i]
    }
}

/// Where `x` goes in `r`: before the first element that is not less than `x`.
pub open spec fn insert_pos<T>(r: Seq<T>, x: T, lt: spec_fn(T, T) -> bool) -> nat
    decreases r.len(),
{
    if r.len() == 0 {
        0
    } else if lt(r[0], x) {
        1 + insert_pos(r.drop_first(), x, lt)
    } else {
        0
    }
}

/// Insertion sort by `lt`, inserting the elements from last to first; elements
/// that are not less than one another keep their order.
pub open spec fn insertion_sort<T>(s: Seq<T>, lt: spec_fn(T, T) -> bool) -> Seq<T>
    decreases s.len(),
{
    if s.len() == 0 {
        s
    } else {
        let r = insertion_sort(s.drop_first(), lt);
        r.insert(insert_pos(r, s[0], lt) as int, s[0])
    }
}

pub open spec fn by_name() -> spec_fn(LevelInfo, LevelInfo) -> bool {
    |a: LevelInfo, b: LevelInfo| name_lt(a.leaderboard_name@, b.leaderboard_name@)
}

pub open spec fn by_workshop_id() -> spec_fn(LevelInfo, LevelInfo) -> bool {
    |a: LevelInfo, b: LevelInfo| a@.workshop_id() < b@.workshop_id()
}

pub open spec fn view_by_name() -> spec_fn(LevelView, LevelView) -> bool {
    |a: LevelView, b: LevelView| name_lt(a.leaderboard_name, b.leaderboard_name)
}

pub open spec fn view_by_workshop_id() -> spec_fn(LevelView, LevelView) -> bool {
    |a: LevelView, b: LevelView| a.workshop_id() < b.workshop_id()
}

proof fn lemma_insert_pos_view(
    r: Seq<LevelInfo>,
    x: LevelInfo,
    lt: spec_fn(LevelInfo, LevelInfo) -> bool,
    vlt: spec_fn(LevelView, LevelView) -> bool,
)
    requires
        forall|a: LevelInfo, b: LevelInfo| #[trigger] lt(a, b) == vlt(a@, b@),
    ensures
        insert_pos(r, x, lt) == insert_pos(levels_view(r), x@, vlt),
        insert_pos(r, x, lt) <= r.len(),
    decreases r.len(),
{
    if r.len() > 0 {
        assert(levels_view(r).drop_first() =~= levels_view(r.drop_first()));
        assert(lt(r[0], x) == vlt(r[0]@, x@));
        lemma_insert_pos_view(r.drop_first(), x, lt, vlt);
    }
}

/// Sorting levels by a relation that reads only their views, then taking the
/// views, is sorting the views.
pub proof fn lemma_sort_view(
    s: Seq<LevelInfo>,
    lt: spec_fn(LevelInfo, LevelInfo) -> bool,
    vlt: spec_fn(LevelView, LevelView) -> bool,
)
    requires
        forall|a: LevelInfo, b: LevelInfo| #[trigger] lt(a, b) == vlt(a@, b@),
    ensures
        levels_view(insertion_sort(s, lt)) == insertion_sort(levels_view(s), vlt),
    decreases s.len(),
{
    if s.len() > 0 {
        let r = insertion_sort(s.drop_first(), lt);
        assert(levels_view(s).drop_first() =~= levels_view(s.drop_first()));
        lemma_sort_view(s.drop_first(), lt, vlt);
        lemma_insert_pos_view(r, s[0], lt, vlt);
        let p = insert_pos(r, s[0], lt) as int;
        assert(levels_view(r.insert(p, s[0])) =~= levels_view(r).insert(p, s[0]@));
    }
}

pub proof fn lemma_sort_by_name_view(s: Seq<LevelInfo>)
    ensures
        levels_view(insertion_sort(s, by_name())) == insertion_sort(levels_view(s), view_by_name()),
{
    lemma_sort_view(s, by_name(), view_by_name());
}

pub proof fn lemma_sort_by_workshop_id_view(s: Seq<LevelInfo>)
    ensures
        levels_view(insertion_sort(s, by_workshop_id())) == insertion_sort(
            levels_view(s),
            view_by_workshop_id(),
        ),
{
    lemma_sort_view(s, by_workshop_id(), view_by_workshop_id());
}

proof fn lemma_insert_pos<T>(r: Seq<T>, x: T, lt: spec_fn(T, T) -> bool, j: int)
    requires
        0 <= j <= r.len(),
        forall|m: int| 0 <= m < j ==> lt(r[m], x),
        j == r.len() || !lt(r[j], x),
    ensures
        insert_pos(r, x, lt) == j,
    decreases j,
{
    if j > 0 {
        assert(lt(r[0], x));
        let t = r.drop_first();
        assert forall|m: int| 0 <= m < j - 1 implies lt(t[m], x) by {
            assert(t[m] == r[m + 1]);
        }
        lemma_insert_pos(t, x, lt, j - 1);
    }
}

proof fn lemma_sort_step<T>(orig: Seq<T>, k: int, lt: spec_fn(T, T) -> bool)
    requires
        0 <= k < orig.len(),
    ensures
        ({
            let r = insertion_sort(orig.skip(k + 1), lt);
            insertion_sort(orig.skip(k), lt) == r.insert(insert_pos(r, orig[k], lt) as int, orig[k])
        }),
{
    assert(orig.skip(k).drop_first() =~= orig.skip(k + 1));
}

/// Sorts levels by leaderboard name.
pub fn sort_by_name(v: Vec<LevelInfo>) -> (r: Vec<LevelInfo>)
    ensures
        r@ == insertion_sort(v@, by_name()),
{
    let ghost orig = v@;
    let mut v = v;
    let mut sorted: Vec<LevelInfo> = Vec::new();
    assert(orig.skip(orig.len() as int) =~= Seq::<LevelInfo>::empty());
    while v.len() > 0
        invariant
            v.len() <= orig.len(),
            v@ == orig.take(v.len() as int),
            sorted@ == insertion_sort(orig.skip(v.len() as int), by_name()),
        decreases v.len(),
    {
        let x = v.pop().unwrap();
        let ghost k = v.len() as int;
        assert(x == orig[k]);
        assert(v@ =~= orig.take(k));
        let mut j: usize = 0;
        while j < sorted.len() && name_less(sorted[j].leaderboard_name.as_str(), x.leaderboard_name.as_str())
            invariant
                j <= sorted.len(),
                forall|m: int| 0 <= m < j ==> (#[trigger] by_name()(sorted@[m], x)),
            decreases sorted.len() - j,
        {
            j = j + 1;
        }
        proof {
            lemma_insert_pos(sorted@, x, by_name(), j as int);
            lemma_sort_step(orig, k, by_name());
        }
        sorted.insert(j, x);
    }
    assert(orig.skip(0) =~= orig);
    sorted
}

/// Sorts levels by workshop item id (0 for official levels), keeping the
/// order of levels with equal ids.
pub fn sort_by_workshop_id(v: Vec<LevelInfo>) -> (r: Vec<LevelInfo>)
    ensures
        r@ == insertion_sort(v@, by_workshop_id()),
{
    let ghost orig = v@;
    let mut v = v;
    let mut sorted: Vec<LevelInfo> = Vec::new();
    assert(orig.skip(orig.len() as int) =~= Seq::<LevelInfo>::empty());
    while v.len() > 0
        invariant
            v.len() <= orig.len(),
            v@ == orig.take(v.len() as int),
            sorted@ == insertion_sort(orig.skip(v.len() as int), by_workshop_id()),
        decreases v.len(),
    {
        let x = v.pop().unwrap();
        let ghost k = v.len() as int;
        assert(x == orig[k]);
        assert(v@ =~= orig.take(k));
        let key = workshop_id(&x);
        let mut j: usize = 0;
        while j < sorted.len() && workshop_id(&sorted[j]) < key
            invariant
                j <= sorted.len(),
                key == x@.workshop_id(),
                forall|m: int| 0 <= m < j ==> (#[trigger] by_workshop_id()(sorted@[m], x)),
            decreases sorted.len() - j,
        {
            j = j + 1;
        }
        proof {
            lemma_insert_pos(sorted@, x, by_workshop_id(), j as int);
            lemma_sort_step(orig, k, by_workshop_id());
        }
        sorted.insert(j, x);
    }
    assert(orig.skip(0) =~= orig);
    sorted
}

/// The level's workshop item id, or 0 for an official level.
pub fn workshop_id(l: &LevelInfo) -> (r: u64)
    ensures
        r == l@.workshop_id(),
{
    match &l.workshop_response {
        Some(w) => w.published_file_id,
        None => 0,
    }
}

} // verus!
