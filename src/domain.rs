use crate::mode::GameMode;
use vstd::prelude::*;

verus! {

/// Seconds since the Unix epoch of 0000-01-01T00:00:00Z.
pub const EARLIEST_UNIX_SECS: i64 = -62167219200;

/// Seconds since the Unix epoch of 9999-12-31T23:59:59Z.
pub const LATEST_UNIX_SECS: i64 = 253402300799;

/// A moment in whole seconds since the Unix epoch (UTC), within the years
/// 0 to 9999 that RFC 2822 dates can show.
#[derive(Debug, Clone, Copy, PartialEq, Eq)]
pub struct Timestamp {
    unix_secs: i64,
}

impl Timestamp {
    #[verifier::type_invariant]
    spec fn in_range(self) -> bool {
        EARLIEST_UNIX_SECS <= self.unix_secs <= LATEST_UNIX_SECS
    }

    /// Seconds since the Unix epoch.
    pub closed spec fn secs(self) -> i64 {
        self.unix_secs
    }

    /// The timestamp of `unix_secs`, if it lies within the years 0 to 9999.
    pub fn from_unix_secs(unix_secs: i64) -> (r: Option<Timestamp>)
        ensures
            r matches Some(t) ==> t.secs() == unix_secs,
            r is None <==> !(EARLIEST_UNIX_SECS <= unix_secs <= LATEST_UNIX_SECS),
    {
        if EARLIEST_UNIX_SECS <= unix_secs && unix_secs <= LATEST_UNIX_SECS {
            Some(Timestamp { unix_secs })
        } else {
            None
        }
    }

    /// Seconds since the Unix epoch.
    pub fn unix_secs(&self) -> (r: i64)
        ensures
            r == self.secs(),
            EARLIEST_UNIX_SECS <= r <= LATEST_UNIX_SECS,
    {
        proof {
            use_type_invariant(self);
        }
        self.unix_secs
    }
}

/// The RFC 2822 form (such as `Tue, 1 Jul 2003 10:52:37 +0000`) of the UTC
/// moment `unix_secs` seconds after the Unix epoch.
pub uninterp spec fn rfc2822_text(unix_secs: i64) -> Seq<char>;

/// Relies on chrono's `DateTime::<Utc>::from_timestamp`, which is `Some` for
/// every second of the years 0 to 9999, and on `DateTime::to_rfc2822`, which
/// formats such a date without panicking; the text depends on the second alone.
#[verifier::external_body]
fn rfc2822(unix_secs: i64) -> (r: String)
    requires
        EARLIEST_UNIX_SECS <= unix_secs <= LATEST_UNIX_SECS,
    ensures
        r@ == rfc2822_text(unix_secs),
{
    match chrono::DateTime::from_timestamp(unix_secs, 0) {
        Some(t) => t.to_rfc2822(),
        None => String::new(),
    }
}

impl Timestamp {
    /// The moment as an RFC 2822 date and time in UTC.
    pub fn to_rfc2822(&self) -> (r: String)
        ensures
            r@ == rfc2822_text(self.secs()),
    {
        rfc2822(self.unix_secs())
    }
}

/// One row of a leaderboard.
#[derive(Debug)]
pub struct LeaderboardEntry {
    pub steam_id: u64,
    pub global_rank: i32,
    pub score: i32,
    pub player_name: String,
}

/// The top rows of a leaderboard, by rank ascending.
#[derive(Debug)]
pub struct LeaderboardResponse {
    pub entries: Vec<LeaderboardEntry>,
}

/// What the workshop reports of a community level. `score_bits` holds the
/// bits of the workshop's rating, which no rule here reads.
#[derive(Debug)]
pub struct WorkshopResponse {
    pub published_file_id: u64,
    pub steam_id_owner: u64,
    pub file_name: String,
    pub title: String,
    pub score_bits: u32,
    pub tags: Vec<String>,
    pub author_name: String,
    pub preview_url: String,
}

/// One level of the catalog together with its fetched leaderboard.
#[derive(Debug)]
pub struct LevelInfo {
    pub name: String,
    pub mode: GameMode,
    pub leaderboard_name: String,
    pub workshop_response: Option<WorkshopResponse>,
    pub leaderboard_response: LeaderboardResponse,
    pub timestamp: Timestamp,
}

/// A detected change of a level's record.
#[derive(Debug)]
pub struct ChangelistEntry {
    pub map_name: String,
    pub map_author: Option<String>,
    pub map_preview: Option<String>,
    pub mode: String,
    pub new_recordholder: String,
    pub old_recordholder: Option<String>,
    pub record_new: String,
    pub record_old: Option<String>,
    pub workshop_item_id: Option<String>,
    pub steam_id_author: Option<String>,
    pub steam_id_new_recordholder: String,
    pub steam_id_old_recordholder: Option<String>,
    pub fetch_time: String,
}

/// A changelist entry as the rendered page lists it.
pub type TableEntry = ChangelistEntry;

/// The abstract value of a leaderboard row.
pub struct EntryView {
    pub steam_id: u64,
    pub global_rank: i32,
    pub score: i32,
    pub player_name: Seq<char>,
}

/// The abstract value of a workshop description.
pub struct WorkshopView {
    pub published_file_id: u64,
    pub steam_id_owner: u64,
    pub file_name: Seq<char>,
    pub title: Seq<char>,
    pub score_bits: u32,
    pub tags: Seq<Seq<char>>,
    pub author_name: Seq<char>,
    pub preview_url: Seq<char>,
}

/// The abstract value of a level with its leaderboard.
pub struct LevelView {
    pub name: Seq<char>,
    pub mode: GameMode,
    pub leaderboard_name: Seq<char>,
    pub workshop: Option<WorkshopView>,
    pub entries: Seq<EntryView>,
    pub timestamp: Timestamp,
}

/// The abstract value of a changelist entry.
pub struct ChangeView {
    pub map_name: Seq<char>,
    pub map_author: Option<Seq<char>>,
    pub map_preview: Option<Seq<char>>,
    pub mode: Seq<char>,
    pub new_recordholder: Seq<char>,
    pub old_recordholder: Option<Seq<char>>,
    pub record_new: Seq<char>,
    pub record_old: Option<Seq<char>>,
    pub workshop_item_id: Option<Seq<char>>,
    pub steam_id_author: Option<Seq<char>>,
    pub steam_id_new_recordholder: Seq<char>,
    pub steam_id_old_recordholder: Option<Seq<char>>,
    pub fetch_time: Seq<char>,
}

pub open spec fn opt_view(o: Option<String>) -> Option<Seq<char>> {
    match o {
        Some(s) => Some(s@),
        None => None,
    }
}

pub open spec fn strings_view(s: Seq<String>) -> Seq<Seq<char>> {
    s.map_values(|x: String| x@)
}

impl View for LeaderboardEntry {
    type V = EntryView;

    open spec fn view(&self) -> EntryView {
        EntryView {
            steam_id: self.steam_id,
            global_rank: self.global_rank,
            score: self.score,
            player_name: self.player_name@,
        }
    }
}

impl View for WorkshopResponse {
    type V = WorkshopView;

    open spec fn view(&self) -> WorkshopView {
        WorkshopView {
            published_file_id: self.published_file_id,
            steam_id_owner: self.steam_id_owner,
            file_name: self.file_name@,
            title: self.title@,
            score_bits: self.score_bits,
            tags: strings_view(self.tags@),
            author_name: self.author_name@,
            preview_url: self.preview_url@,
        }
    }
}

pub open spec fn entries_view(s: Seq<LeaderboardEntry>) -> Seq<EntryView> {
    s.map_values(|e: LeaderboardEntry| e@)
}

impl View for LevelInfo {
    type V = LevelView;

    open spec fn view(&self) -> LevelView {
        LevelView {
            name: self.name@,
            mode: self.mode,
            leaderboard_name: self.leaderboard_name@,
            workshop: match self.workshop_response {
                Some(w) => Some(w@),
                None => None,
            },
            entries: entries_view(self.leaderboard_response.entries@),
            timestamp: self.timestamp,
        }
    }
}

impl View for ChangelistEntry {
    type V = ChangeView;

    open spec fn view(&self) -> ChangeView {
        ChangeView {
            map_name: self.map_name@,
            map_author: opt_view(self.map_author),
            map_preview: opt_view(self.map_preview),
            mode: self.mode@,
            new_recordholder: self.new_recordholder@,
            old_recordholder: opt_view(self.old_recordholder),
            record_new: self.record_new@,
            record_old: opt_view(self.record_old),
            workshop_item_id: opt_view(self.workshop_item_id),
            steam_id_author: opt_view(self.steam_id_author),
            steam_id_new_recordholder: self.steam_id_new_recordholder@,
            steam_id_old_recordholder: opt_view(self.steam_id_old_recordholder),
            fetch_time: self.fetch_time@,
        }
    }
}

pub open spec fn levels_view(s: Seq<LevelInfo>) -> Seq<LevelView> {
    s.map_values(|l: LevelInfo| l@)
}

pub open spec fn changes_view(s: Seq<ChangelistEntry>) -> Seq<ChangeView> {
    s.map_values(|c: ChangelistEntry| c@)
}

impl LevelView {
    /// The level's workshop item id, or 0 for an official level.
    pub open spec fn workshop_id(self) -> u64 {
        match self.workshop {
            Some(w) => w.published_file_id,
            None => 0,
        }
    }
}

fn clone_strings(v: &Vec<String>) -> (r: Vec<String>)
    ensures
        strings_view(r@) == strings_view(v@),
{
    let mut r: Vec<String> = Vec::new();
    for i in 0..v.len()
        invariant
            r.len() == i,
            forall|j: int| 0 <= j < i ==> r@[j]@ == v@[j]@,
    {
        r.push(v[i].clone());
    }
    assert(strings_view(r@) =~= strings_view(v@));
    r
}

impl LeaderboardEntry {
    pub fn duplicate(&self) -> (r: Self)
        ensures
            r@ == self@,
    {
        LeaderboardEntry {
            steam_id: self.steam_id,
            global_rank: self.global_rank,
            score: self.score,
            player_name: self.player_name.clone(),
        }
    }
}

impl LeaderboardResponse {
    pub fn duplicate(&self) -> (r: Self)
        ensures
            entries_view(r.entries@) == entries_view(self.entries@),
    {
        let mut entries: Vec<LeaderboardEntry> = Vec::new();
        for i in 0..self.entries.len()
            invariant
                entries.len() == i,
                forall|j: int| 0 <= j < i ==> entries@[j]@ == self.entries@[j]@,
        {
            entries.push(self.entries[i].duplicate());
        }
        assert(entries_view(entries@) =~= entries_view(self.entries@));
        LeaderboardResponse { entries }
    }
}

impl WorkshopResponse {
    pub fn duplicate(&self) -> (r: Self)
        ensures
            r@ == self@,
    {
        WorkshopResponse {
            published_file_id: self.published_file_id,
            steam_id_owner: self.steam_id_owner,
            file_name: self.file_name.clone(),
            title: self.title.clone(),
            score_bits: self.score_bits,
            tags: clone_strings(&self.tags),
            author_name: self.author_name.clone(),
            preview_url: self.preview_url.clone(),
        }
    }
}

impl LevelInfo {
    pub fn duplicate(&self) -> (r: Self)
        ensures
            r@ == self@,
    {
        let workshop_response = match &self.workshop_response {
            Some(w) => Some(w.duplicate()),
            None => None,
        };
        LevelInfo {
            name: self.name.clone(),
            mode: self.mode,
            leaderboard_name: self.leaderboard_name.clone(),
            workshop_response,
            leaderboard_response: self.leaderboard_response.duplicate(),
            timestamp: self.timestamp,
        }
    }
}

} // verus!
