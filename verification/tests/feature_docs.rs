use docstore::clock::get_current_timestamp;
use docstore::disk::{LocalStore, MemDisk};
use docstore::document::{decode_doc, encode_doc, Document};
use docstore::modrinth::ModrinthDatabase;
use docstore::lorax::{
    get_available_trees, is_voting_stage, LoraxDatabase, LoraxEvent, LoraxSettings, LoraxStage,
};
use docstore::recording::{RecordingChannel, RecordingDatabase};
use docstore::stats::{DataType, GuildSettings, StatsDatabase};
use docstore::testing::{TestServer, TestingDatabase};
use docstore::text::{eq_ignore_case, is_appropriate_name, is_valid_tree_name, text_eq, trim_text};

fn fresh_event() -> LoraxEvent {
    LoraxEvent::new(LoraxSettings::default(), 1_000)
}

fn db_with_event(guild: u64) -> LoraxDatabase {
    let mut db = LoraxDatabase::default_doc();
    db.update_event(guild, fresh_event());
    db
}

#[test]
fn default_settings_durations() {
    let s = LoraxSettings::default();
    assert_eq!(s.submission_duration, 60);
    assert_eq!(s.voting_duration, 30);
    assert_eq!(s.tiebreaker_duration, 15);
    assert_eq!(s.lorax_channel, None);
}

#[test]
fn new_event_starts_in_submission() {
    let ev = fresh_event();
    assert_eq!(ev.stage, LoraxStage::Submission);
    assert_eq!(ev.start_time, 1_000);
    assert_eq!(ev.get_stage_end_timestamp(3_600), 4_600);
    assert!(ev.get_winner().is_none());
}

#[test]
fn submit_and_resubmit() {
    let mut db = db_with_event(7);
    let r = db.submit_tree(7, "maple".to_string(), 42);
    assert_eq!(r, Ok((false, None)));
    // the same user replaces the earlier name
    let r = db.submit_tree(7, "willow".to_string(), 42);
    assert_eq!(r, Ok((true, Some("maple".to_string()))));
    let ev = db.get_event(7).unwrap();
    assert_eq!(ev.get_tree_submitter("willow"), Some(42));
    assert_eq!(ev.get_tree_submitter("maple"), None);
}

#[test]
fn submit_rejections_in_order() {
    let mut db = db_with_event(7);
    assert_eq!(
        db.submit_tree(7, "   ".to_string(), 1),
        Err("Tree name cannot be empty".to_string())
    );
    let long = "a".repeat(33);
    assert_eq!(
        db.submit_tree(7, long, 1),
        Err("Tree name cannot be longer than 32 characters".to_string())
    );
    assert_eq!(
        db.submit_tree(9, "maple".to_string(), 1),
        Err("No active event".to_string())
    );
    db.submit_tree(7, "maple".to_string(), 1).unwrap();
    assert_eq!(
        db.submit_tree(7, "MAPLE".to_string(), 2),
        Err("That tree name has already been submitted".to_string())
    );
}

#[test]
fn submission_names_are_trimmed() {
    let mut db = db_with_event(7);
    db.submit_tree(7, "  maple  ".to_string(), 1).unwrap();
    let ev = db.get_event(7).unwrap();
    assert_eq!(ev.get_tree_submitter("maple"), Some(1));
}

#[test]
fn voting_rejections_and_votes() {
    let mut db = db_with_event(7);
    db.submit_tree(7, "maple".to_string(), 1).unwrap();
    db.submit_tree(7, "willow".to_string(), 2).unwrap();
    // voting has not opened yet
    assert_eq!(
        db.vote_tree(7, "maple".to_string(), 3),
        Err("Voting is not currently open".to_string())
    );
    let mut ev = db.get_event(7).unwrap();
    ev.advance_stage(2_000);
    assert_eq!(ev.stage, LoraxStage::Voting);
    assert_eq!(ev.start_time, 2_000);
    db.update_event(7, ev);
    assert_eq!(
        db.vote_tree(7, "oak".to_string(), 3),
        Err("Invalid tree selection".to_string())
    );
    assert_eq!(db.vote_tree(7, "maple".to_string(), 3), Ok(false));
    assert_eq!(db.vote_tree(7, "Willow".to_string(), 3), Ok(true));
}

#[test]
fn winner_is_the_most_voted_name() {
    let mut db = db_with_event(7);
    db.submit_tree(7, "maple".to_string(), 1).unwrap();
    db.submit_tree(7, "willow".to_string(), 2).unwrap();
    let mut ev = db.get_event(7).unwrap();
    ev.advance_stage(2_000);
    db.update_event(7, ev);
    db.vote_tree(7, "maple".to_string(), 10).unwrap();
    db.vote_tree(7, "maple".to_string(), 11).unwrap();
    db.vote_tree(7, "willow".to_string(), 12).unwrap();
    let ev = db.get_event(7).unwrap();
    assert_eq!(ev.get_winner(), Some("maple".to_string()));
}

#[test]
fn voting_without_votes_goes_inactive() {
    let mut db = db_with_event(7);
    db.submit_tree(7, "maple".to_string(), 1).unwrap();
    let mut ev = db.get_event(7).unwrap();
    ev.advance_stage(2_000);
    ev.advance_stage(3_000);
    assert_eq!(ev.stage, LoraxStage::Inactive);
}

#[test]
fn clear_winner_completes_the_event() {
    let mut db = db_with_event(7);
    db.submit_tree(7, "maple".to_string(), 1).unwrap();
    db.submit_tree(7, "willow".to_string(), 2).unwrap();
    let mut ev = db.get_event(7).unwrap();
    ev.advance_stage(2_000);
    db.update_event(7, ev);
    db.vote_tree(7, "maple".to_string(), 10).unwrap();
    db.vote_tree(7, "maple".to_string(), 11).unwrap();
    db.vote_tree(7, "willow".to_string(), 12).unwrap();
    let mut ev = db.get_event(7).unwrap();
    ev.advance_stage(3_000);
    assert_eq!(ev.stage, LoraxStage::Completed);
    // best name first, votes cleared
    assert_eq!(ev.current_trees, vec!["maple".to_string(), "willow".to_string()]);
    assert!(ev.get_winner().is_none());
    ev.advance_stage(4_000);
    assert_eq!(ev.stage, LoraxStage::Inactive);
}

#[test]
fn tied_vote_opens_a_tiebreaker() {
    let mut db = db_with_event(7);
    db.submit_tree(7, "maple".to_string(), 1).unwrap();
    db.submit_tree(7, "willow".to_string(), 2).unwrap();
    let mut ev = db.get_event(7).unwrap();
    ev.advance_stage(2_000);
    db.update_event(7, ev);
    db.vote_tree(7, "maple".to_string(), 10).unwrap();
    db.vote_tree(7, "willow".to_string(), 11).unwrap();
    let mut ev = db.get_event(7).unwrap();
    ev.advance_stage(3_000);
    assert_eq!(ev.stage, LoraxStage::Tiebreaker(1));
    assert_eq!(ev.current_trees.len(), 2);
    // a tiebreaker runs at most three rounds
    ev.advance_stage(4_000);
    assert_eq!(ev.stage, LoraxStage::Tiebreaker(2));
    ev.advance_stage(5_000);
    assert_eq!(ev.stage, LoraxStage::Tiebreaker(3));
    ev.advance_stage(6_000);
    assert_eq!(ev.stage, LoraxStage::Completed);
}

#[test]
fn submission_without_entries_dies_out() {
    let mut ev = fresh_event();
    ev.advance_stage(2_000);
    assert_eq!(ev.stage, LoraxStage::Inactive);
}

#[test]
fn stage_timing() {
    let ev = fresh_event();
    // sixty minutes of submissions
    assert_eq!(ev.calculate_stage_duration(), 3_600);
    assert!(!ev.should_advance(1_000 + 3_600));
    assert!(ev.should_advance(1_000 + 3_601));
    let mut ev = fresh_event();
    ev.adjust_stage_duration(600);
    assert_eq!(ev.settings.submission_duration, 10);
    assert_eq!(ev.calculate_stage_duration(), 600);
}

#[test]
fn voting_stages() {
    assert!(!is_voting_stage(&LoraxStage::Submission));
    assert!(is_voting_stage(&LoraxStage::Voting));
    assert!(is_voting_stage(&LoraxStage::Tiebreaker(2)));
    assert!(!is_voting_stage(&LoraxStage::Completed));
    assert!(!is_voting_stage(&LoraxStage::Inactive));
}

#[test]
fn available_trees_follow_submissions() {
    let mut db = db_with_event(7);
    db.submit_tree(7, "maple".to_string(), 1).unwrap();
    db.submit_tree(7, "willow".to_string(), 2).unwrap();
    let ev = db.get_event(7).unwrap();
    let trees = get_available_trees(&ev, 99);
    assert_eq!(trees, vec!["maple".to_string(), "willow".to_string()]);
}

#[test]
fn settings_are_stored_per_guild() {
    let mut db = LoraxDatabase::default_doc();
    let defaults = db.get_settings(7);
    assert_eq!(defaults, LoraxSettings::default());
    let ensured = db.ensure_settings(7);
    assert_eq!(ensured, LoraxSettings::default());
    let again = db.get_settings(7);
    assert_eq!(again, LoraxSettings::default());
}

#[test]
fn tree_name_validation() {
    assert!(is_valid_tree_name("maple"));
    assert!(is_valid_tree_name("abc"));
    assert!(!is_valid_tree_name("ab"));
    assert!(!is_valid_tree_name(&"a".repeat(33)));
    assert!(is_valid_tree_name(&"a".repeat(32)));
    assert!(!is_valid_tree_name("mar 1e"));
    assert!(!is_valid_tree_name("map1e"));
    assert!(!is_valid_tree_name(""));
    // the name is trimmed before it is judged
    assert!(is_valid_tree_name(" oak "));
    assert!(is_valid_tree_name("\u{a0}oak\u{2003}"));
    assert!(!is_valid_tree_name("  ab  "));
}

#[test]
fn submission_length_counts_bytes() {
    let mut db = db_with_event(7);
    // seventeen two-byte characters: under the character bound, over the
    // byte bound
    let wide = "\u{e9}".repeat(17);
    assert_eq!(wide.chars().count(), 17);
    assert_eq!(wide.len(), 34);
    assert_eq!(
        db.submit_tree(7, wide, 1),
        Err("Tree name cannot be longer than 32 characters".to_string())
    );
    // sixteen two-byte characters fit exactly
    let fits = "\u{e9}".repeat(16);
    assert_eq!(fits.len(), 32);
    assert_eq!(db.submit_tree(7, fits, 1), Ok((false, None)));
}

#[test]
fn trimming_follows_unicode_whitespace() {
    assert_eq!(trim_text("\u{a0}maple\u{2003}"), "maple".to_string());
    assert_eq!(trim_text("\u{3000}maple\u{85}"), "maple".to_string());
    let forbidden = vec!["blag".to_string()];
    // words split on Unicode whitespace too
    assert!(!is_appropriate_name("a\u{2003}blag\u{a0}b", &forbidden));
    assert!(is_appropriate_name("a\u{2003}blagx", &forbidden));
}

#[test]
fn word_filter() {
    let forbidden = vec!["  Frobnicator  ".to_string(), "".to_string(), "blag".to_string()];
    assert!(is_appropriate_name("a fine tree", &forbidden));
    assert!(!is_appropriate_name("the frobnicator tree", &forbidden));
    assert!(!is_appropriate_name("BLAG", &forbidden));
    // only whole words count
    assert!(is_appropriate_name("blagging", &forbidden));
    assert!(is_appropriate_name("", &forbidden));
}

#[test]
fn text_helpers() {
    assert!(text_eq("maple", "maple"));
    assert!(!text_eq("maple", "Maple"));
    assert!(eq_ignore_case("Maple", "mAPLE"));
    assert!(!eq_ignore_case("maple", "maples"));
    assert_eq!(trim_text("  maple\t\n"), "maple".to_string());
    assert_eq!(trim_text("maple"), "maple".to_string());
    assert_eq!(trim_text(" \t "), "".to_string());
}

#[test]
fn modrinth_links_round_trip() {
    let mut db = ModrinthDatabase::default_doc();
    assert_eq!(db.get_modrinth_id(5), None);
    db.link_account(5, "someone".to_string());
    assert_eq!(db.get_modrinth_id(5), Some("someone".to_string()));
    db.unlink_account(5);
    assert_eq!(db.get_modrinth_id(5), None);
}

#[test]
fn test_servers_lifecycle() {
    let mut db = TestingDatabase::default_doc();
    assert!(db.get_user_server(1).is_none());
    db.add_server(TestServer {
        server_id: "srv-a".to_string(),
        user_id: 1,
        name: "alpha".to_string(),
        created_at: 100,
        expires_at: 200,
    });
    db.add_server(TestServer {
        server_id: "srv-b".to_string(),
        user_id: 1,
        name: "beta".to_string(),
        created_at: 150,
        expires_at: 250,
    });
    let first = db.get_user_server(1).unwrap();
    assert_eq!(first.server_id, "srv-a");
    assert_eq!(db.get_user_servers(1).len(), 2);
    assert_eq!(db.get_user_servers(2).len(), 0);
    // replacing a server by id keeps one entry
    db.add_server(TestServer {
        server_id: "srv-a".to_string(),
        user_id: 1,
        name: "alpha two".to_string(),
        created_at: 160,
        expires_at: 260,
    });
    assert_eq!(db.get_user_servers(1).len(), 2);
    assert_eq!(db.extend_server("srv-a", 999), Ok(()));
    let extended = db
        .get_user_servers(1)
        .into_iter()
        .find(|s| s.server_id == "srv-a")
        .unwrap();
    assert_eq!(extended.expires_at, 999);
    assert_eq!(
        db.extend_server("missing", 5),
        Err("Server not found".to_string())
    );
    db.remove_server("srv-a");
    assert_eq!(db.get_user_servers(1).len(), 1);
    db.remove_server("missing");
    assert_eq!(db.get_user_servers(1).len(), 1);
}

#[test]
fn user_limits_default_to_one() {
    let mut db = TestingDatabase::default_doc();
    assert_eq!(db.get_user_limit(9), 1);
    db.set_user_limit(9, 4);
    assert_eq!(db.get_user_limit(9), 4);
    db.set_user_limit(9, 1);
    assert_eq!(db.get_user_limit(9), 1);
}

#[test]
fn data_type_names() {
    assert_eq!(DataType::Integer.name(), "integer");
    assert_eq!(DataType::Percentage.name(), "percentage");
    assert_eq!(DataType::Scientific.name(), "scientific");
}

#[test]
fn lorax_document_round_trips_through_bytes() {
    let mut db = db_with_event(7);
    db.submit_tree(7, "maple".to_string(), 1).unwrap();
    db.ensure_settings(3);
    let bytes = encode_doc(&db);
    let back: LoraxDatabase = decode_doc(&bytes).expect("a committed encoding must decode");
    let ev = back.get_event(7).unwrap();
    assert_eq!(ev.get_tree_submitter("maple"), Some(1));
    assert_eq!(back.get_settings(3), LoraxSettings::default());
    assert_eq!(encode_doc(&back), bytes);
}

#[test]
fn testing_document_persists_in_a_store() {
    let mut store: LocalStore<TestingDatabase> = LocalStore::open_local(MemDisk::empty());
    let r = store.write(|mut d: TestingDatabase| {
        d.add_server(TestServer {
            server_id: "srv-z".to_string(),
            user_id: 4,
            name: "zeta".to_string(),
            created_at: 1,
            expires_at: 2,
        });
        Ok((d, ()))
    });
    assert!(r.is_ok());
    let reopened: LocalStore<TestingDatabase> = LocalStore::open_local(MemDisk::new(
        store.disk_image(),
    ));
    let found = reopened.read(|d: TestingDatabase| d.get_user_server(4));
    assert_eq!(found.unwrap().name, "zeta");
}

#[test]
fn clock_reads_a_timestamp() {
    let t = get_current_timestamp();
    // the clock stands after the start of 2020
    assert!(t > 1_577_836_800);
}

#[test]
fn guild_ids_follow_events() {
    let mut db = LoraxDatabase::default_doc();
    assert!(db.get_all_guild_ids().is_empty());
    db.update_event(7, LoraxEvent::new(LoraxSettings::default(), 1));
    db.update_event(9, LoraxEvent::new(LoraxSettings::default(), 2));
    assert_eq!(db.get_all_guild_ids(), vec![7, 9]);
}

#[test]
fn expired_servers_are_listed() {
    let mut db = TestingDatabase::default_doc();
    db.add_server(TestServer {
        server_id: "old".to_string(),
        user_id: 1,
        name: "old".to_string(),
        created_at: 10,
        expires_at: 100,
    });
    db.add_server(TestServer {
        server_id: "new".to_string(),
        user_id: 1,
        name: "new".to_string(),
        created_at: 10,
        expires_at: 300,
    });
    let due = db.expired_servers(100);
    assert_eq!(due.len(), 1);
    assert_eq!(due[0].server_id, "old");
    assert_eq!(db.expired_servers(99).len(), 0);
    assert_eq!(db.expired_servers(300).len(), 2);
}

#[test]
fn removing_a_submission_discards_its_votes() {
    let mut db = db_with_event(7);
    db.submit_tree(7, "maple".to_string(), 1).unwrap();
    db.submit_tree(7, "willow".to_string(), 2).unwrap();
    let mut ev = db.get_event(7).unwrap();
    ev.advance_stage(2_000);
    db.update_event(7, ev);
    db.vote_tree(7, "maple".to_string(), 10).unwrap();
    db.vote_tree(7, "willow".to_string(), 11).unwrap();
    let mut ev = db.get_event(7).unwrap();
    assert_eq!(ev.remove_submission("maple"), Some(1));
    assert_eq!(ev.get_tree_submitter("maple"), None);
    assert_eq!(ev.get_winner(), Some("willow".to_string()));
    // the name is now disqualified
    db.update_event(7, ev);
    let mut ev = db.get_event(7).unwrap();
    ev.stage = LoraxStage::Submission;
    db.update_event(7, ev);
    assert_eq!(
        db.submit_tree(7, "Maple".to_string(), 3),
        Err("That tree name has been disqualified".to_string())
    );
    // removing an unknown name changes nothing
    let mut ev = db.get_event(7).unwrap();
    assert_eq!(ev.remove_submission("sequoia"), None);
}

#[test]
fn remove_event_closes_a_guild_out() {
    let mut db = db_with_event(7);
    db.ensure_settings(7);
    assert!(db.remove_event(7));
    assert!(db.get_event(7).is_none());
    // the settings stay
    assert_eq!(db.get_settings(7), LoraxSettings::default());
    assert!(!db.remove_event(7));
}

#[test]
fn duplicate_server_ids_make_the_file_invalid() {
    let shared = TestServer {
        server_id: "srv-a".to_string(),
        user_id: 1,
        name: "alpha".to_string(),
        created_at: 1,
        expires_at: 2,
    };
    let clash = TestServer {
        server_id: "srv-a".to_string(),
        user_id: 2,
        name: "beta".to_string(),
        created_at: 3,
        expires_at: 4,
    };
    let mut ok_db = TestingDatabase::default_doc();
    ok_db.add_server(shared);
    let good = encode_doc(&ok_db);
    assert!(decode_doc::<TestingDatabase>(&good).is_some());
    // a record with two servers under one identifier does not decode
    let bad_db = TestingDatabase {
        servers: vec![
            TestServer {
                server_id: "srv-a".to_string(),
                user_id: 1,
                name: "alpha".to_string(),
                created_at: 1,
                expires_at: 2,
            },
            clash,
        ],
        user_limits: docstore::assoc::Assoc::new(),
    };
    let bad = encode_doc(&bad_db);
    assert!(decode_doc::<TestingDatabase>(&bad).is_none());
}

#[test]
fn stats_settings_are_stored_per_guild() {
    let mut db = StatsDatabase::default_doc();
    let defaults = db.get_settings(4);
    assert_eq!(defaults.prometheus_url, "");
    assert_eq!(defaults.update_delay, 60);
    let ensured = db.ensure_settings(4);
    assert_eq!(ensured, GuildSettings::default());
    let bytes = encode_doc(&db);
    let back: StatsDatabase = decode_doc(&bytes).unwrap();
    assert_eq!(back.get_settings(4), GuildSettings::default());
}

#[test]
fn recording_channels_round_trip() {
    let mut db = RecordingDatabase::default_doc();
    db.channels.insert(
        9,
        RecordingChannel {
            guild_id: 9,
            voice_channel_id: 77,
            is_recording: true,
            last_activity: Some(1_000),
        },
    );
    let bytes = encode_doc(&db);
    let back: RecordingDatabase = decode_doc(&bytes).unwrap();
    let got = back.channels.get(9).unwrap();
    assert_eq!(got.voice_channel_id, 77);
    assert!(got.is_recording);
    assert_eq!(got.last_activity, Some(1_000));
    assert!(back.channels.get(8).is_none());
}
