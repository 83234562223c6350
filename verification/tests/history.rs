use ponged::config::{
    cycle_keycode, key_code_from_str, key_code_to_short, key_code_to_str, update_settings_controls,
    vsync_label, Config, KeyCode, SettingsPress, Stored,
};
use ponged::hex::{decode_hex, encode_hex};
use ponged::history::{
    arm_record, record_match, refresh_on_menu, HistoryRow, MatchEnd, MatchHistory, MatchRecord,
};
use ponged::peer::PeerId;
use ponged::protocol::{GameSnapshot, GatewayRequest, RatingProof, DEFAULT_RATING};
use ponged::table::Table;

fn peer(n: u8) -> PeerId {
    let key = libp2p::identity::Keypair::ed25519_from_bytes([n; 32]).unwrap();
    PeerId::from_bytes(&key.public().to_peer_id().to_bytes()).unwrap()
}

fn open_test_history() -> MatchHistory {
    let mut history = MatchHistory::new();
    history.ensure_open(Vec::new(), Table::new());
    history
}

/// What a later start reads of what was stored.
fn reopened(history: MatchHistory) -> MatchHistory {
    let mut reloaded = MatchHistory::new();
    reloaded.ensure_open(history.rows, history.settings);
    reloaded
}

fn insert_match(history: &mut MatchHistory, id: i64, my: i64, opp: i64, gw_id: i64) {
    history.rows.push(HistoryRow {
        id,
        happened_at: "2024-05-01 12:00:00".to_string(),
        rival: "rival".to_string(),
        rival_peer: None,
        my_score: my,
        opp_score: opp,
        was_host: true,
        gateway_match_id: gw_id,
        revoked: false,
    });
}

fn record(id: i64, rival: &str, my: i32, opp: i32, revoked: bool) -> MatchRecord {
    MatchRecord {
        id,
        happened_at: String::new(),
        rival: rival.to_string(),
        rival_peer: None,
        my_score: my,
        opp_score: opp,
        was_host: true,
        gateway_match_id: id,
        revoked,
    }
}

#[test]
fn the_ten_highest_numbers_are_shown_first() {
    let mut history = open_test_history();
    for id in 1..=14 {
        insert_match(&mut history, 3 * id, 5, id, id);
    }
    // One that cannot be shown takes a place.
    insert_match(&mut history, 50, i64::MAX, 0, 50);
    let reloaded = reopened(history);
    let ids: Vec<i64> = reloaded.records.iter().map(|r| r.id).collect();
    assert_eq!(ids, vec![42, 39, 36, 33, 30, 27, 24, 21, 18]);
    assert_eq!(reloaded.rows.len(), 15);
}

#[test]
fn hex_roundtrips() {
    let bytes = [0x00u8, 0x01, 0xab, 0xff, 0x10];
    assert_eq!(decode_hex(&encode_hex(&bytes)).unwrap(), bytes);
    assert_eq!(decode_hex("0x"), None);
    assert_eq!(decode_hex("zz"), None);
    assert_eq!(decode_hex("a"), None);
}

#[test]
fn hex_text_is_lower_case() {
    assert_eq!(encode_hex(&[0xab, 0x0f]), "ab0f");
    assert_eq!(decode_hex("AB0f"), Some(vec![0xab, 0x0f]));
    assert_eq!(decode_hex(""), Some(Vec::new()));
    assert_eq!(decode_hex("+f"), Some(vec![0x0f]));
    assert_eq!(decode_hex("ñ"), None);
}

#[test]
fn wins_losses_and_draws_ignore_revoked() {
    let mut history = MatchHistory::new();
    history.records = vec![
        record(3, "a", 5, 2, false),
        record(2, "b", 1, 5, false),
        record(1, "c", 3, 3, false),
        record(0, "d", 5, 0, true),
    ];
    assert_eq!(history.wins_losses(), (1, 1, 1));
    assert_eq!(history.revoked_count(), 1);
}

#[test]
fn rating_defaults_when_unset() {
    let history = MatchHistory::new();
    assert_eq!(history.load_rating(), DEFAULT_RATING);
    assert_eq!(history.load_username(), None);
    assert_eq!(history.load_rating_proof(), None);
}

#[test]
fn recording_and_reloading_builds_records_newest_first() {
    let mut history = open_test_history();
    insert_match(&mut history, 1, 5, 2, 100);
    insert_match(&mut history, 2, 1, 5, 101);
    history.reload();
    assert_eq!(history.records.len(), 2);
    assert_eq!(history.records[0].id, 2);
    assert_eq!(history.records[0].rival, "rival");
    assert!(history.records[0].was_host);
    assert_eq!(history.records[0].gateway_match_id, 101);
    assert_eq!(history.wins_losses(), (1, 1, 0));
}

#[test]
fn mark_match_revoked_updates_records_and_rev() {
    let mut history = open_test_history();
    insert_match(&mut history, 1, 5, 2, 100);
    history.reload();
    assert!(!history.records[0].revoked);

    history.mark_match_revoked(100);
    assert!(history.records[0].revoked);
    assert_eq!(history.revoked_count(), 1);
    assert_eq!(history.wins_losses(), (0, 0, 0));

    let rev_before = history.rev;
    history.mark_match_revoked(999);
    assert_eq!(history.rev, rev_before, "unknown match must not bump rev");
}

#[test]
fn correct_score_overwrites_and_recomputes_tally() {
    let mut history = open_test_history();
    insert_match(&mut history, 1, 5, 0, 100);
    history.reload();
    assert_eq!(history.wins_losses(), (1, 0, 0));

    history.correct_score(100, 0, 5);
    assert_eq!(history.records[0].my_score, 0);
    assert_eq!(history.records[0].opp_score, 5);
    assert_eq!(history.wins_losses(), (0, 1, 0));
}

#[test]
fn username_and_rating_persist_roundtrip() {
    let mut history = open_test_history();
    assert_eq!(history.load_username(), None);
    history.save_username("Jahil");
    history.save_rating(1234);
    assert_eq!(history.load_username().as_deref(), Some("Jahil"));
    assert_eq!(history.load_rating(), 1234);

    let reloaded = reopened(history);
    assert_eq!(reloaded.load_username().as_deref(), Some("Jahil"));
    assert_eq!(reloaded.load_rating(), 1234);
}

type Plain = (i32, u64, String, Vec<u8>);

fn encoded(p: &RatingProof) -> Vec<u8> {
    let plain: Plain = (p.rating, p.seq, p.gateway.clone(), p.signature.clone());
    cbor4ii::serde::to_vec(Vec::new(), &plain).unwrap()
}

fn decoded(bytes: &[u8]) -> Option<RatingProof> {
    let (rating, seq, gateway, signature): Plain = cbor4ii::serde::from_slice(bytes).ok()?;
    Some(RatingProof { rating, seq, gateway, signature })
}

#[test]
fn rating_proof_roundtrips_through_settings() {
    let mut history = open_test_history();
    let proof = RatingProof {
        rating: 1500,
        seq: 7,
        gateway: "12D3KooWxxxx".to_string(),
        signature: vec![1, 2, 3, 4],
    };
    history.save_rating_proof(&encoded(&proof));
    let loaded = history.load_rating_proof().expect("proof roundtrip");
    assert_eq!(decoded(&loaded), Some(proof.clone()));

    let reloaded = reopened(history);
    assert_eq!(decoded(&reloaded.load_rating_proof().unwrap()), Some(proof));
}

#[test]
fn only_the_latest_matches_are_shown() {
    let mut history = open_test_history();
    for id in 1..=15 {
        insert_match(&mut history, id, 5, 0, id);
    }
    insert_match(&mut history, 16, 1 << 40, 0, 16);
    history.reload();
    let ids: Vec<i64> = history.records.iter().map(|r| r.id).collect();
    assert_eq!(ids, vec![15, 14, 13, 12, 11, 10, 9, 8, 7]);
}

fn end(match_over: bool) -> MatchEnd<'static> {
    MatchEnd {
        is_host: true,
        player_score: 5,
        opponent_score: 3,
        world: None,
        opponent: Some(peer(1)),
        rival_name: Some("eva"),
        gateway: Some(peer(9)),
        match_id: 42,
        match_over,
    }
}

#[test]
fn finished_matches_are_recorded_once() {
    let mut history = open_test_history();
    arm_record(&mut history);
    let (to, request) = record_match(&mut history, &end(true), "2024-05-01 12:00:00").unwrap();
    assert_eq!(to, peer(9));
    assert_eq!(
        request,
        GatewayRequest::ReportResult {
            match_id: 42,
            opponent: peer(1).to_base58(),
            my_score: 5,
            opponent_score: 3,
        }
    );
    assert_eq!(history.records.len(), 1);
    assert_eq!(history.records[0].rival, "eva");
    assert_eq!(history.records[0].rival_peer, Some(peer(1).to_base58()));
    assert!(record_match(&mut history, &end(true), "2024-05-01 12:00:01").is_none());
    assert_eq!(history.records.len(), 1);
    let rev = history.rev;
    history.records.clear();
    refresh_on_menu(&mut history);
    assert_eq!(history.records.len(), 1);
    assert_eq!(history.rev, rev);
}

#[test]
fn abandoned_matches_are_not_recorded() {
    let mut history = open_test_history();
    arm_record(&mut history);
    assert!(record_match(&mut history, &end(false), "2024-05-01 12:00:00").is_none());
    assert!(history.rows.is_empty());
}

#[test]
fn guests_read_the_world_of_the_host() {
    let mut history = open_test_history();
    arm_record(&mut history);
    let mut e = end(true);
    e.is_host = false;
    e.rival_name = None;
    e.world = Some(GameSnapshot {
        player_score: 5,
        opponent_score: 2,
        match_over: true,
        ..GameSnapshot::default()
    });
    let (_, request) = record_match(&mut history, &e, "2024-05-01 12:00:00").unwrap();
    assert!(matches!(
        request,
        GatewayRequest::ReportResult { my_score: 2, opponent_score: 5, .. }
    ));
    assert_eq!((history.records[0].my_score, history.records[0].opp_score), (2, 5));
    assert!(!history.records[0].was_host);
}

#[test]
fn test_key_code_roundtrip() {
    assert_eq!(key_code_to_str(KeyCode::ArrowUp), "ArrowUp");
    assert_eq!(key_code_to_str(KeyCode::KeyW), "KeyW");
    assert_eq!(key_code_from_str("ArrowUp"), KeyCode::ArrowUp);
    assert_eq!(key_code_from_str("KeyW"), KeyCode::KeyW);
}

#[test]
fn test_default_config() {
    let cfg = Config::default();
    assert_eq!(cfg.key_up, KeyCode::ArrowUp);
    assert_eq!(cfg.key_down, KeyCode::ArrowDown);
    assert_eq!(f32::from_bits(cfg.paddle_speed), 5.0);
    assert_eq!(cfg.vsync, true);
}

#[test]
fn every_bound_key_reads_back() {
    for k in [KeyCode::ArrowUp, KeyCode::ArrowDown, KeyCode::KeyW, KeyCode::KeyS] {
        assert_eq!(key_code_from_str(key_code_to_str(k)), k);
        assert_eq!(key_code_from_str(&key_code_to_str(k).to_lowercase()), KeyCode::ArrowUp);
    }
    assert_eq!(key_code_from_str("W"), KeyCode::ArrowUp);
    assert_eq!(key_code_to_short(KeyCode::KeyS), "S");
    assert_eq!(cycle_keycode(KeyCode::ArrowUp), KeyCode::KeyW);
    assert_eq!(vsync_label(true), "ON");
}

#[test]
fn configs_read_back_from_what_was_saved() {
    let mut cfg = Config::default();
    update_settings_controls(&mut cfg, SettingsPress::KeyUp);
    update_settings_controls(&mut cfg, SettingsPress::Vsync);
    assert_eq!(cfg.key_up, KeyCode::KeyW);
    assert!(!cfg.vsync);
    let back = Config::load(&cfg.save());
    assert_eq!(back.key_up, cfg.key_up);
    assert_eq!(back.key_down, cfg.key_down);
    assert_eq!(back.paddle_speed, cfg.paddle_speed);
    assert_eq!(back.window_scale, cfg.window_scale);
    assert_eq!(back.vsync, cfg.vsync);
    let none = Stored {
        key_up: None,
        key_down: Some("KeyS"),
        paddle_speed: None,
        window_scale: None,
        vsync: None,
    };
    let cfg = Config::load(&none);
    assert_eq!(cfg.key_up, KeyCode::ArrowUp);
    assert_eq!(cfg.key_down, KeyCode::KeyS);
    assert_eq!(f32::from_bits(cfg.window_scale), 1.0);
}
