use distance_log::changelist::update_changelist;
use distance_log::cycle::{apply_update, prior_state, PriorState, UpdateError};
use distance_log::domain::{
    ChangelistEntry, LeaderboardEntry, LeaderboardResponse, LevelInfo, Timestamp, WorkshopResponse,
};
use distance_log::merge::add_missing_entries_from;
use distance_log::mode::GameMode;
use distance_log::persistence::LoadError;

fn entry(steam_id: u64, score: i32, player_name: &str) -> LeaderboardEntry {
    LeaderboardEntry { steam_id, global_rank: 1, score, player_name: player_name.to_string() }
}

fn level(name: &str, mode: GameMode, entries: Vec<LeaderboardEntry>) -> LevelInfo {
    LevelInfo {
        name: name.to_string(),
        mode,
        leaderboard_name: format!("{}_{:?}", name, mode),
        workshop_response: None,
        leaderboard_response: LeaderboardResponse { entries },
        timestamp: Timestamp::from_unix_secs(0).unwrap(),
    }
}

fn workshop_level(name: &str, id: u64, entries: Vec<LeaderboardEntry>) -> LevelInfo {
    let mut l = level(name, GameMode::Sprint, entries);
    l.workshop_response = Some(WorkshopResponse {
        published_file_id: id,
        steam_id_owner: 77,
        file_name: format!("{}.bytes", name),
        title: name.to_string(),
        score_bits: 0,
        tags: vec!["Sprint".to_string()],
        author_name: "Author".to_string(),
        preview_url: "http://preview".to_string(),
    });
    l
}

#[test]
fn merge_fills_gaps() {
    let old = vec![
        level("A", GameMode::Sprint, vec![entry(1, 1000, "a1")]),
        level("B", GameMode::Sprint, vec![entry(2, 2000, "b1")]),
    ];
    let new = vec![
        level("B", GameMode::Sprint, vec![entry(3, 1500, "b2")]),
        level("A", GameMode::Sprint, vec![]),
    ];
    let merged = add_missing_entries_from(new, old);
    assert_eq!(merged.len(), 2);
    assert_eq!(merged[0].name, "A");
    assert_eq!(merged[0].leaderboard_response.entries.len(), 1);
    assert_eq!(merged[0].leaderboard_response.entries[0].player_name, "a1");
    assert_eq!(merged[1].name, "B");
    assert_eq!(merged[1].leaderboard_response.entries[0].player_name, "b2");
}

#[test]
fn merge_keeps_levels_of_either_side() {
    let old = vec![level("C", GameMode::Stunt, vec![entry(1, 5, "c")])];
    let new = vec![level("A", GameMode::Stunt, vec![]), level("B", GameMode::Stunt, vec![])];
    let merged = add_missing_entries_from(new, old);
    let names: Vec<&str> = merged.iter().map(|l| l.name.as_str()).collect();
    assert_eq!(names, vec!["A", "B", "C"]);
    assert_eq!(merged[0].leaderboard_response.entries.len(), 0);
}

#[test]
fn improvement_is_recorded_with_both_holders() {
    let old = vec![level("L1", GameMode::Sprint, vec![entry(11, 100000, "P1")])];
    let mut new = vec![level("L1", GameMode::Sprint, vec![entry(22, 95000, "P2")])];
    let mut changelist: Vec<ChangelistEntry> = Vec::new();
    update_changelist(&mut changelist, &mut new, old);
    assert_eq!(changelist.len(), 1);
    let c = &changelist[0];
    assert_eq!(c.map_name, "L1");
    assert_eq!(c.mode, "Sprint");
    assert_eq!(c.new_recordholder, "P2");
    assert_eq!(c.old_recordholder.as_deref(), Some("P1"));
    assert_eq!(c.record_new, "00:01:35.00");
    assert_eq!(c.record_old.as_deref(), Some("00:01:40.00"));
    assert_eq!(c.steam_id_new_recordholder, "22");
    assert_eq!(c.steam_id_old_recordholder.as_deref(), Some("11"));
    assert_eq!(c.workshop_item_id, None);
    assert_eq!(c.fetch_time, "Thu, 1 Jan 1970 00:00:00 +0000");
}

#[test]
fn equal_or_worse_scores_record_nothing() {
    for (mode, old_score, new_score) in [
        (GameMode::Sprint, 90000, 90000),
        (GameMode::Challenge, 90000, 95000),
        (GameMode::Stunt, 12000, 12000),
        (GameMode::Stunt, 12000, 10000),
    ] {
        let old = vec![level("X", mode, vec![entry(1, old_score, "old")])];
        let mut new = vec![level("X", mode, vec![entry(2, new_score, "new")])];
        let mut changelist: Vec<ChangelistEntry> = Vec::new();
        update_changelist(&mut changelist, &mut new, old);
        assert_eq!(changelist.len(), 0);
    }
}

#[test]
fn stunt_higher_score_is_recorded() {
    let old = vec![level("S", GameMode::Stunt, vec![entry(1, 10000, "old")])];
    let mut new = vec![level("S", GameMode::Stunt, vec![entry(2, 12000, "new")])];
    let mut changelist: Vec<ChangelistEntry> = Vec::new();
    update_changelist(&mut changelist, &mut new, old);
    assert_eq!(changelist.len(), 1);
    assert_eq!(changelist[0].record_new, "12000");
    assert_eq!(changelist[0].record_old.as_deref(), Some("10000"));
    assert_eq!(changelist[0].mode, "Stunt");
}

#[test]
fn first_observation_records_nothing() {
    let mut new = vec![level("New", GameMode::Sprint, vec![entry(2, 1000, "p")])];
    let mut changelist: Vec<ChangelistEntry> = Vec::new();
    update_changelist(&mut changelist, &mut new, Vec::new());
    assert_eq!(changelist.len(), 0);
}

#[test]
fn first_record_on_empty_board_has_no_previous_holder() {
    let old = vec![level("E", GameMode::Sprint, vec![])];
    let mut new = vec![level("E", GameMode::Sprint, vec![entry(5, 61000, "first")])];
    let mut changelist: Vec<ChangelistEntry> = Vec::new();
    update_changelist(&mut changelist, &mut new, old);
    assert_eq!(changelist.len(), 1);
    assert_eq!(changelist[0].old_recordholder, None);
    assert_eq!(changelist[0].record_old, None);
    assert_eq!(changelist[0].record_new, "00:01:01.00");
}

#[test]
fn rerun_adds_nothing() {
    let old = vec![
        level("L1", GameMode::Sprint, vec![entry(1, 100, "a")]),
        workshop_level("W", 9, vec![entry(1, 100, "a")]),
    ];
    let make_new = || {
        vec![
            workshop_level("W", 9, vec![entry(2, 90, "b")]),
            level("L1", GameMode::Sprint, vec![entry(2, 90, "b")]),
        ]
    };
    let make_old = || {
        vec![
            level("L1", GameMode::Sprint, vec![entry(1, 100, "a")]),
            workshop_level("W", 9, vec![entry(1, 100, "a")]),
        ]
    };
    let mut changelist: Vec<ChangelistEntry> = Vec::new();
    let mut new = make_new();
    update_changelist(&mut changelist, &mut new, old);
    assert_eq!(changelist.len(), 2);
    let mut again = make_new();
    update_changelist(&mut changelist, &mut again, make_old());
    assert_eq!(changelist.len(), 2);
}

#[test]
fn entries_are_appended_by_descending_workshop_id() {
    let old = vec![
        workshop_level("W5", 5, vec![entry(1, 100, "a")]),
        level("Official", GameMode::Sprint, vec![entry(1, 100, "a")]),
        workshop_level("W9", 9, vec![entry(1, 100, "a")]),
    ];
    let mut new = vec![
        workshop_level("W9", 9, vec![entry(2, 50, "b")]),
        workshop_level("W5", 5, vec![entry(2, 50, "b")]),
        level("Official", GameMode::Sprint, vec![entry(2, 50, "b")]),
    ];
    let mut changelist: Vec<ChangelistEntry> = Vec::new();
    update_changelist(&mut changelist, &mut new, old);
    let names: Vec<&str> = changelist.iter().map(|c| c.map_name.as_str()).collect();
    assert_eq!(names, vec!["W9", "W5", "Official"]);
    let order: Vec<&str> = new.iter().map(|l| l.name.as_str()).collect();
    assert_eq!(order, vec!["Official", "W5", "W9"]);
    assert_eq!(changelist[0].workshop_item_id.as_deref(), Some("9"));
    assert_eq!(changelist[0].steam_id_author.as_deref(), Some("77"));
    assert_eq!(changelist[0].map_author.as_deref(), Some("Author"));
    assert_eq!(changelist[0].map_preview.as_deref(), Some("http://preview"));
}

#[test]
fn duplicate_of_existing_entry_is_dropped() {
    let old = vec![level("D", GameMode::Sprint, vec![entry(1, 100, "a")])];
    let mut new = vec![level("D", GameMode::Sprint, vec![entry(2, 90, "b")])];
    let mut changelist: Vec<ChangelistEntry> = Vec::new();
    update_changelist(&mut changelist, &mut new, old);
    assert_eq!(changelist.len(), 1);
    assert!(changelist[0].is_likely_a_duplicate_of(&changelist[0]));
    let old2 = vec![level("D", GameMode::Sprint, vec![entry(3, 95, "c")])];
    let mut new2 = vec![level("D", GameMode::Sprint, vec![entry(2, 90, "b")])];
    update_changelist(&mut changelist, &mut new2, old2);
    assert_eq!(changelist.len(), 1);
}

#[test]
fn end_to_end_cycle() {
    let stored = vec![level("L1", GameMode::Sprint, vec![entry(1, 100000, "P1")])];
    let prior = prior_state(Ok(stored), Err(LoadError::DoesNotExist)).ok().unwrap();
    assert_eq!(prior.changelist.len(), 0);
    let fetched = vec![level("L1", GameMode::Sprint, vec![entry(2, 95000, "P2")])];
    let plan = apply_update(prior, fetched);
    let changelist = plan.changelist.unwrap();
    assert_eq!(changelist.len(), 1);
    assert_eq!(changelist[0].old_recordholder.as_deref(), Some("P1"));
    assert_eq!(changelist[0].new_recordholder, "P2");
    let snapshot = plan.query_results;
    assert_eq!(snapshot[0].leaderboard_response.entries[0].player_name, "P2");

    let again = PriorState { snapshot: Some(snapshot), changelist };
    let fetched = vec![level("L1", GameMode::Sprint, vec![entry(2, 95000, "P2")])];
    let plan = apply_update(again, fetched);
    assert_eq!(plan.changelist.unwrap().len(), 1);
}

#[test]
fn first_cycle_saves_snapshot_only() {
    let prior = prior_state(Err(LoadError::DoesNotExist), Err(LoadError::DoesNotExist)).ok().unwrap();
    assert!(prior.snapshot.is_none());
    let plan = apply_update(prior, vec![level("L", GameMode::Stunt, vec![])]);
    assert!(plan.changelist.is_none());
    assert_eq!(plan.query_results.len(), 1);
}

#[test]
fn corrupt_files_end_the_cycle() {
    let r = prior_state(Err(LoadError::Other(anyhow::Error::msg("bad snapshot"))), Ok(Vec::new()));
    assert!(matches!(r, Err(UpdateError::QueryResults(_))));
    let r = prior_state(Ok(Vec::new()), Err(LoadError::Other(anyhow::Error::msg("bad changelist"))));
    assert!(matches!(r, Err(UpdateError::Changelist(_))));
    let r = prior_state(
        Err(LoadError::Other(anyhow::Error::msg("first"))),
        Err(LoadError::Other(anyhow::Error::msg("second"))),
    );
    match r {
        Err(UpdateError::QueryResults(e)) => assert_eq!(e.to_string(), "first"),
        _ => panic!("the snapshot's error comes first"),
    }
}
