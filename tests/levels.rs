use distance_log::catalog::{
    remove_bytes_extension, strip_bytes_extension, workshop_leaderboards, workshop_modes,
    OfficialLevelNames,
};
use distance_log::domain::{LeaderboardEntry, LeaderboardResponse, Timestamp, WorkshopResponse};
use distance_log::fetch::{FetchBatch, FetchTarget};
use distance_log::mode::{format_score, is_score_better, GameMode};
use distance_log::supervisor::{Supervisor, TimeoutAction};
use distance_log::text::{decimal_string, two_digit_string};

#[test]
fn test_remove_bytes_extension() {
    assert_eq!(remove_bytes_extension("some_level.bytes"), "some_level");
}

#[test]
fn strip_needs_the_extension() {
    assert_eq!(strip_bytes_extension("level.byte"), None);
    assert_eq!(strip_bytes_extension("bytes"), None);
    assert_eq!(strip_bytes_extension(".bytes"), Some(""));
    assert_eq!(strip_bytes_extension("niveau_é.bytes"), Some("niveau_é"));
}

#[test]
fn score_ordering_per_mode() {
    assert!(is_score_better(90000, 95000, GameMode::Sprint));
    assert!(!is_score_better(95000, 90000, GameMode::Sprint));
    assert!(is_score_better(90000, 95000, GameMode::Challenge));
    assert!(is_score_better(12000, 10000, GameMode::Stunt));
    assert!(!is_score_better(10000, 12000, GameMode::Stunt));
    assert!(!is_score_better(10000, 10000, GameMode::Stunt));
}

#[test]
fn time_score_formatting() {
    assert_eq!(format_score(17_767_890, GameMode::Sprint).as_deref(), Some("04:56:07.89"));
    assert_eq!(format_score(0, GameMode::Challenge).as_deref(), Some("00:00:00.00"));
    assert_eq!(format_score(360_000_009, GameMode::Sprint).as_deref(), Some("100:00:00.00"));
    assert_eq!(format_score(-1, GameMode::Sprint), None);
}

#[test]
fn stunt_score_formatting() {
    assert_eq!(format_score(12000, GameMode::Stunt).as_deref(), Some("12000"));
    assert_eq!(format_score(-45, GameMode::Stunt).as_deref(), Some("-45"));
    assert_eq!(format_score(i32::MIN, GameMode::Stunt).as_deref(), Some("-2147483648"));
}

#[test]
fn decimal_text() {
    assert_eq!(decimal_string(0), "0");
    assert_eq!(decimal_string(76561198000000000), "76561198000000000");
    assert_eq!(decimal_string(u64::MAX), "18446744073709551615");
    assert_eq!(two_digit_string(7), "07");
    assert_eq!(two_digit_string(42), "42");
}

#[test]
fn mode_names() {
    assert_eq!(GameMode::Sprint.name(), "Sprint");
    assert_eq!(GameMode::Challenge.name(), "Challenge");
    assert_eq!(GameMode::Stunt.name(), "Stunt");
}

fn workshop(tags: &[&str]) -> WorkshopResponse {
    WorkshopResponse {
        published_file_id: 1,
        steam_id_owner: 2,
        file_name: "w.bytes".to_string(),
        title: "W".to_string(),
        score_bits: 0,
        tags: tags.iter().map(|t| t.to_string()).collect(),
        author_name: "a".to_string(),
        preview_url: "p".to_string(),
    }
}

#[test]
fn workshop_level_modes_follow_tags() {
    assert_eq!(workshop_modes(&workshop(&["Stunt", "Sprint", "Other"])), vec![GameMode::Sprint, GameMode::Stunt]);
    assert_eq!(workshop_modes(&workshop(&["Challenge"])), vec![GameMode::Challenge]);
    assert!(workshop_modes(&workshop(&["sprint"])).is_empty());
}

#[test]
fn official_level_names() {
    let names = OfficialLevelNames {
        sprint: vec!["Broken Symmetry".to_string(), "Lost Society".to_string()],
        challenge: vec!["Dodge".to_string()],
        stunt: vec![],
    };
    assert_eq!(names.total_count(), 3);
    let list = names.level_list();
    assert_eq!(
        list,
        vec![
            ("Broken Symmetry".to_string(), GameMode::Sprint),
            ("Lost Society".to_string(), GameMode::Sprint),
            ("Dodge".to_string(), GameMode::Challenge),
        ]
    );
}

#[test]
fn timestamps_within_years_0_to_9999() {
    assert!(Timestamp::from_unix_secs(-62167219200).is_some());
    assert!(Timestamp::from_unix_secs(-62167219201).is_none());
    assert!(Timestamp::from_unix_secs(253402300799).is_some());
    assert!(Timestamp::from_unix_secs(253402300800).is_none());
    let t = Timestamp::from_unix_secs(1431648000).unwrap();
    assert_eq!(t.unix_secs(), 1431648000);
    assert_eq!(t.to_rfc2822(), "Fri, 15 May 2015 00:00:00 +0000");
}

fn target(name: &str) -> FetchTarget {
    FetchTarget {
        name: name.to_string(),
        mode: GameMode::Sprint,
        leaderboard_name: format!("{}_board", name),
        workshop_response: None,
    }
}

fn response(score: i32) -> LeaderboardResponse {
    LeaderboardResponse {
        entries: vec![LeaderboardEntry { steam_id: 1, global_rank: 1, score, player_name: "p".to_string() }],
    }
}

#[test]
fn fetch_batch_respects_cap_and_skips_failures() {
    let now = Timestamp::from_unix_secs(100).unwrap();
    let mut batch = FetchBatch::new(vec![target("a"), target("b"), target("c")], 2);
    assert_eq!(batch.start_next(), Some(0));
    assert_eq!(batch.start_next(), Some(1));
    assert_eq!(batch.start_next(), None);
    assert!(batch.finish(1, None, now));
    assert!(!batch.finish(1, Some(response(5)), now));
    assert_eq!(batch.start_next(), Some(2));
    assert!(batch.finish(2, Some(response(7)), now));
    assert!(batch.finish(0, Some(response(9)), now));
    assert!(batch.is_finished());
    let levels = batch.into_results();
    let names: Vec<&str> = levels.iter().map(|l| l.name.as_str()).collect();
    assert_eq!(names, vec!["c", "a"]);
    assert_eq!(levels[0].leaderboard_name, "c_board");
    assert_eq!(levels[0].leaderboard_response.entries[0].score, 7);
}

#[test]
fn fetch_batch_watchdog_abandons_the_rest() {
    let now = Timestamp::from_unix_secs(100).unwrap();
    let mut batch = FetchBatch::new(vec![target("a"), target("b"), target("c")], 8);
    assert_eq!(batch.start_next(), Some(0));
    assert_eq!(batch.start_next(), Some(1));
    assert!(batch.finish(0, Some(response(1)), now));
    batch.time_out();
    assert!(batch.is_finished());
    assert_eq!(batch.start_next(), None);
    assert!(!batch.finish(1, Some(response(2)), now));
    assert_eq!(batch.into_results().len(), 1);
}

#[test]
fn supervisor_timeouts() {
    let mut s = Supervisor::new();
    assert_eq!(s.on_update_timed_out(), TimeoutAction::Retry);
    assert_eq!(s.on_update_timed_out(), TimeoutAction::PauseThenRetry);
    assert_eq!(s.on_update_timed_out(), TimeoutAction::PauseThenRetry);
    assert_eq!(s.consecutive_update_failures, 3);
    assert_eq!(s.on_update_timed_out(), TimeoutAction::RestartSteam);
    assert_eq!(s.consecutive_update_failures, 3);
    assert_eq!(s.on_update_finished(120), 180);
    assert_eq!(s.consecutive_update_failures, 0);
    assert_eq!(s.on_update_finished(400), 0);
    assert!(Supervisor::steam_session_over(10800));
    assert!(!Supervisor::steam_session_over(10799));
}

#[test]
fn workshop_leaderboards_per_tagged_mode() {
    let mut a = workshop(&["Sprint", "Stunt"]);
    a.file_name = "alpha.bytes".to_string();
    let mut b = workshop(&["Sprint"]);
    b.file_name = String::new();
    let mut c = workshop(&["Challenge"]);
    c.file_name = "gamma.bytes".to_string();
    let boards = workshop_leaderboards(&vec![a, b, c]);
    let got: Vec<(usize, GameMode, &str)> =
        boards.iter().map(|x| (x.index, x.mode, x.level.as_str())).collect();
    assert_eq!(
        got,
        vec![(0, GameMode::Sprint, "alpha"), (0, GameMode::Stunt, "alpha"), (2, GameMode::Challenge, "gamma")]
    );
}
