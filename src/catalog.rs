use crate::domain::{strings_view, WorkshopResponse, WorkshopView};
use crate::mode::{all_modes, GameMode};
use vstd::prelude::*;
use vstd::string::StringSliceAdditionalSpecFns;
use vstd::utf8::*;

verus! {

/// The characters `.bytes`, the extension of a level file.
pub open spec fn bytes_extension() -> Seq<char> {
    seq!['.', 'b', 'y', 't', 'e', 's']
}

pub open spec fn has_bytes_extension(s: Seq<char>) -> bool {
    s.len() >= 6 && s.subrange(s.len() - 6, s.len() as int) == bytes_extension()
}

proof fn lemma_encode_concat(a: Seq<char>, b: Seq<char>)
    ensures
        encode_utf8(a + b) == encode_utf8(a) + encode_utf8(b),
    decreases a.len(),
{
    if a.len() > 0 {
        assert((a + b).drop_first() =~= a.drop_first() + b);
        lemma_encode_concat(a.drop_first(), b);
        assert(encode_utf8(a + b) =~= encode_utf8(a) + encode_utf8(b));
    } else {
        assert(a + b =~= b);
        assert(encode_utf8(a) + encode_utf8(b) =~= encode_utf8(b));
    }
}

proof fn lemma_extension_bytes()
    ensures
        encode_utf8(bytes_extension()) == seq![46u8, 98, 121, 116, 101, 115],
{
    broadcast use is_ascii_chars_encode_utf8;

    assert(is_ascii_chars(bytes_extension()));
    assert(encode_utf8(bytes_extension()) =~= seq![46u8, 98, 121, 116, 101, 115]);
}

/// `level` without its `.bytes` extension, if it has one.
pub fn strip_bytes_extension(level: &str) -> (r: Option<&str>)
    ensures
        r is Some <==> has_bytes_extension(level@),
        r matches Some(stem) ==> stem@ + bytes_extension() == level@,
{
    broadcast use encode_utf8_decode_utf8, encode_utf8_valid_utf8;

    let bytes = level.as_bytes();
    let n = bytes.len();
    let ghost b = bytes@;
    let ghost ext = seq![46u8, 98, 121, 116, 101, 115];
    proof {
        lemma_extension_bytes();
    }
    assert(has_bytes_extension(level@) ==> b.len() >= 6 && b.subrange(b.len() - 6, b.len() as int)
        == ext) by {
        if has_bytes_extension(level@) {
            let s = level@;
            assert(s =~= s.subrange(0, s.len() - 6) + bytes_extension());
            lemma_encode_concat(s.subrange(0, s.len() - 6), bytes_extension());
            assert(b.subrange(b.len() - 6, b.len() as int) =~= ext);
        }
    }
    if n < 6 {
        return None;
    }
    let mid = n - 6;
    let pat: [u8; 6] = [46u8, 98, 121, 116, 101, 115];
    assert(pat@ == ext);
    let mut i: usize = 0;
    while i < 6
        invariant
            n == b.len(),
            mid == n - 6,
            b == bytes@,
            pat@ == ext,
            has_bytes_extension(level@) ==> b.subrange(b.len() - 6, b.len() as int) == ext,
            i <= 6,
            forall|m: int| 0 <= m < i ==> b[mid + m] == ext[m],
        decreases 6 - i,
    {
        if bytes[mid + i] != pat[i] {
            proof {
                assert(b.subrange(b.len() - 6, b.len() as int)[i as int] != ext[i as int]);
            }
            return None;
        }
        i = i + 1;
    }
    proof {
        assert(b.subrange(mid as int, n as int) =~= ext);
        assert(valid_utf8(b));
        assert(is_leading_byte_width_1(b[mid as int]));
        is_char_boundary_iff_is_leading_byte(b, mid as int);
        decode_utf8_split(b, mid as int);
        assert(decode_utf8(ext) == bytes_extension());
        assert(level@ == decode_utf8(b));
        assert(level@ =~= decode_utf8(b.subrange(0, mid as int)) + bytes_extension());
    }
    let (stem, _) = level.split_at(mid);
    proof {
        assert(stem.spec_bytes() =~= b.subrange(0, mid as int));
        assert(stem@ == decode_utf8(stem.spec_bytes()));
        assert(level@.subrange(level@.len() - 6, level@.len() as int) =~= bytes_extension());
    }
    Some(stem)
}

/// `level` without its `.bytes` extension.
pub fn remove_bytes_extension(level: &str) -> (r: &str)
    requires
        has_bytes_extension(level@),
    ensures
        r@ + bytes_extension() == level@,
{
    match strip_bytes_extension(level) {
        Some(stem) => stem,
        None => level,
    }
}

/// The modes among `modes` whose name is one of `tags`, in order.
pub open spec fn tagged_modes(modes: Seq<GameMode>, tags: Seq<Seq<char>>) -> Seq<GameMode>
    decreases modes.len(),
{
    if modes.len() == 0 {
        Seq::empty()
    } else {
        let rest = tagged_modes(modes.drop_last(), tags);
        if tags.contains(modes.last().name_spec()) {
            rest.push(modes.last())
        } else {
            rest
        }
    }
}

fn has_tag(tags: &Vec<String>, mode: GameMode) -> (r: bool)
    ensures
        r == strings_view(tags@).contains(mode.name_spec()),
{
    let name = String::from_str(mode.name());
    let mut i: usize = 0;
    while i < tags.len()
        invariant
            i <= tags.len(),
            name@ == mode.name_spec(),
            forall|m: int| 0 <= m < i ==> tags@[m]@ != mode.name_spec(),
        decreases tags.len() - i,
    {
        if tags[i] == name {
            assert(strings_view(tags@)[i as int] == mode.name_spec());
            return true;
        }
        i = i + 1;
    }
    assert forall|m: int| 0 <= m < strings_view(tags@).len() implies strings_view(tags@)[m]
        != mode.name_spec() by {
        assert(strings_view(tags@)[m] == tags@[m]@);
    }
    false
}

/// The modes (Sprint, Challenge, Stunt, in that order) that a workshop level
/// is tagged with.
pub fn workshop_modes(workshop_response: &WorkshopResponse) -> (r: Vec<GameMode>)
    ensures
        r@ == tagged_modes(all_modes(), workshop_response@.tags),
{
    let mut r: Vec<GameMode> = Vec::new();
    let modes: [GameMode; 3] = [GameMode::Sprint, GameMode::Challenge, GameMode::Stunt];
    assert(modes@ == all_modes());
    for i in 0..3
        invariant
            modes@ == all_modes(),
            r@ == tagged_modes(all_modes().take(i as int), workshop_response@.tags),
    {
        assert(all_modes().take(i + 1).drop_last() =~= all_modes().take(i as int));
        if has_tag(&workshop_response.tags, modes[i]) {
            r.push(modes[i]);
        }
    }
    assert(all_modes().take(3) =~= all_modes());
    r
}

/// A leaderboard of a workshop level: the level's position among the
/// workshop responses, the mode, and the level's file name without `.bytes`.
#[derive(Debug)]
pub struct WorkshopLeaderboard {
    pub index: usize,
    pub mode: GameMode,
    pub level: String,
}

/// The leaderboards of the workshop level `w` at position `i`: one per mode
/// it is tagged with, none when its file is not a `.bytes` level file.
pub open spec fn boards_of(i: int, w: WorkshopView) -> Seq<(int, GameMode, Seq<char>)> {
    if has_bytes_extension(w.file_name) {
        tagged_modes(all_modes(), w.tags).map_values(
            |m: GameMode| (i, m, w.file_name.subrange(0, w.file_name.len() - 6)),
        )
    } else {
        Seq::empty()
    }
}

/// The leaderboards of the first `n` workshop levels of `ws`, in order.
pub open spec fn workshop_boards(ws: Seq<WorkshopView>, n: nat) -> Seq<(int, GameMode, Seq<char>)>
    decreases n,
{
    if n == 0 || n > ws.len() {
        Seq::empty()
    } else {
        workshop_boards(ws, (n - 1) as nat) + boards_of(n - 1, ws[n - 1])
    }
}

pub open spec fn boards_view(b: Seq<WorkshopLeaderboard>) -> Seq<(int, GameMode, Seq<char>)> {
    b.map_values(|x: WorkshopLeaderboard| (x.index as int, x.mode, x.level@))
}

pub open spec fn workshop_views(ws: Seq<WorkshopResponse>) -> Seq<WorkshopView> {
    ws.map_values(|w: WorkshopResponse| w@)
}

/// The leaderboards to fetch for the workshop levels `responses`.
pub fn workshop_leaderboards(responses: &Vec<WorkshopResponse>) -> (r: Vec<WorkshopLeaderboard>)
    ensures
        boards_view(r@) == workshop_boards(workshop_views(responses@), responses@.len()),
{
    let ghost ws = workshop_views(responses@);
    let mut r: Vec<WorkshopLeaderboard> = Vec::new();
    for i in 0..responses.len()
        invariant
            ws == workshop_views(responses@),
            boards_view(r@) == workshop_boards(ws, i as nat),
    {
        let w = &responses[i];
        assert(ws[i as int] == w@);
        let ghost before = boards_view(r@);
        match strip_bytes_extension(w.file_name.as_str()) {
            Some(stem) => {
                let modes = workshop_modes(w);
                let ghost fname = w@.file_name;
                assert(stem@ =~= fname.subrange(0, fname.len() - 6)) by {
                    assert(stem@ + bytes_extension() == fname);
                    assert(fname.subrange(0, fname.len() - 6) =~= (stem@ + bytes_extension()).subrange(
                        0,
                        stem@.len() as int,
                    ));
                }
                for j in 0..modes.len()
                    invariant
                        stem@ == fname.subrange(0, fname.len() - 6),
                        boards_view(r@) == before + modes@.take(j as int).map_values(
                            |m: GameMode| (i as int, m, fname.subrange(0, fname.len() - 6)),
                        ),
                {
                    let ghost prev = boards_view(r@);
                    r.push(WorkshopLeaderboard { index: i, mode: modes[j], level: String::from_str(stem) });
                    assert(boards_view(r@) =~= prev.push((i as int, modes@[j as int], stem@)));
                    assert(modes@.take(j + 1) =~= modes@.take(j as int).push(modes@[j as int]));
                    assert(modes@.take(j + 1).map_values(
                        |m: GameMode| (i as int, m, fname.subrange(0, fname.len() - 6)),
                    ) =~= modes@.take(j as int).map_values(
                        |m: GameMode| (i as int, m, fname.subrange(0, fname.len() - 6)),
                    ).push((i as int, modes@[j as int], fname.subrange(0, fname.len() - 6))));
                }
                assert(modes@.take(modes@.len() as int) =~= modes@);
            },
            None => {
                assert(boards_of(i as int, ws[i as int]) =~= Seq::<(int, GameMode, Seq<char>)>::empty());
                assert(boards_view(r@) =~= before + Seq::<(int, GameMode, Seq<char>)>::empty());
            },
        }
    }
    r
}

/// The configured names of the official levels of each mode.
#[derive(Debug)]
pub struct OfficialLevelNames {
    pub sprint: Vec<String>,
    pub challenge: Vec<String>,
    pub stunt: Vec<String>,
}

/// Each name of `names` paired with `mode`.
pub open spec fn with_mode(names: Seq<String>, mode: GameMode) -> Seq<(Seq<char>, GameMode)> {
    names.map_values(|s: String| (s@, mode))
}

impl OfficialLevelNames {
    /// The official levels, Sprint first, then Challenge, then Stunt.
    pub open spec fn levels_spec(&self) -> Seq<(Seq<char>, GameMode)> {
        with_mode(self.sprint@, GameMode::Sprint) + with_mode(self.challenge@, GameMode::Challenge)
            + with_mode(self.stunt@, GameMode::Stunt)
    }

    /// How many official levels there are.
    pub fn total_count(&self) -> (r: usize)
        requires
            self.sprint@.len() + self.challenge@.len() + self.stunt@.len() <= usize::MAX,
        ensures
            r == self.sprint@.len() + self.challenge@.len() + self.stunt@.len(),
    {
        self.sprint.len() + self.challenge.len() + self.stunt.len()
    }

    /// Every official level with its mode.
    pub fn level_list(&self) -> (r: Vec<(String, GameMode)>)
        ensures
            r@.map_values(|p: (String, GameMode)| (p.0@, p.1)) == self.levels_spec(),
    {
        let mut r: Vec<(String, GameMode)> = Vec::new();
        append_with_mode(&mut r, &self.sprint, GameMode::Sprint);
        append_with_mode(&mut r, &self.challenge, GameMode::Challenge);
        append_with_mode(&mut r, &self.stunt, GameMode::Stunt);
        r
    }
}

fn append_with_mode(r: &mut Vec<(String, GameMode)>, names: &Vec<String>, mode: GameMode)
    ensures
        final(r)@.map_values(|p: (String, GameMode)| (p.0@, p.1)) == old(r)@.map_values(
            |p: (String, GameMode)| (p.0@, p.1),
        ) + with_mode(names@, mode),
{
    let ghost start = r@.map_values(|p: (String, GameMode)| (p.0@, p.1));
    for i in 0..names.len()
        invariant
            r@.map_values(|p: (String, GameMode)| (p.0@, p.1)) == start + with_mode(
                names@.take(i as int),
                mode,
            ),
    {
        let ghost before = r@;
        r.push((names[i].clone(), mode));
        assert(r@.map_values(|p: (String, GameMode)| (p.0@, p.1)) =~= before.map_values(
            |p: (String, GameMode)| (p.0@, p.1),
        ).push((names@[i as int]@, mode)));
        assert(with_mode(names@.take(i + 1), mode) =~= with_mode(names@.take(i as int), mode).push(
            (names@[i as int]@, mode),
        ));
    }
    assert(names@.take(names@.len() as int) =~= names@);
}

} // verus!
