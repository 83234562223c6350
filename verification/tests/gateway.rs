use ponged::addr::Multiaddr;
use ponged::args::{default_base, needs_value_text, parse_args, unknown_text, NoBase, Stop};
use ponged::auth::{ct_eq, hash_password, password_of_line, session_token, Auth, ModRole, Moderators};
use ponged::certify::{proof_for, proof_message, verify_proof, SigningKey};
use ponged::elo::{elo, outcome, Outcome};
use ponged::gateway::{
    accepted_rating, client_connected, client_gone, client_identified, on_gateway_request,
};
use ponged::ledger::{Ledger, MatchStatus};
use ponged::lobby::{alloc_match_id, report_result, Lobby, PlayerEntry, START_RATING};
use ponged::matchmaking::run_matchmaking;
use ponged::moderation::{
    edit_match_state, list_matches_json, on_http_command, revoke_match_state, HttpCmd,
};
use ponged::peer::{short_peer, PeerId};
use ponged::protocol::{rank_for_rating, GatewayRequest, GatewayResponse, RatingProof};
use sha2::Digest;

const NOW: &str = "2024-05-01 12:00:00";

fn keypair(n: u8) -> libp2p::identity::Keypair {
    libp2p::identity::Keypair::ed25519_from_bytes([n; 32]).unwrap()
}

fn outside_peer(n: u8) -> libp2p::PeerId {
    keypair(n).public().to_peer_id()
}

fn peer(n: u8) -> PeerId {
    PeerId::from_bytes(&outside_peer(n).to_bytes()).unwrap()
}

fn key() -> SigningKey {
    SigningKey { secret: [200; 32] }
}

fn gateway() -> PeerId {
    peer(200)
}

fn lobby_with(players: &[(PeerId, &str, i32)]) -> Lobby {
    let mut lobby = Lobby::new();
    lobby.next_id = 1;
    for (p, name, rating) in players {
        lobby.players.insert(
            *p,
            PlayerEntry {
                username: Some((*name).to_string()),
                rating: *rating,
                last_seq: 0,
                base_addresses: Vec::new(),
            },
        );
    }
    lobby
}

fn report(
    lobby: &mut Lobby,
    ledger: &mut Ledger,
    who: PeerId,
    opponent: PeerId,
    id: u64,
    mine: u32,
    theirs: u32,
) -> (i32, Option<RatingProof>) {
    let text = opponent.to_base58();
    report_result(lobby, ledger, &key(), &gateway(), &who, &text, id, mine, theirs, NOW).unwrap()
}

fn rating(lobby: &Lobby, p: &PeerId) -> i32 {
    lobby.players.get(p).unwrap().rating
}

fn last_seq(lobby: &Lobby, p: &PeerId) -> u64 {
    lobby.players.get(p).unwrap().last_seq
}

fn status(ledger: &Ledger, id: u64) -> MatchStatus {
    ledger.matches.get(&id).unwrap().status
}

#[test]
fn moderator_password_roundtrip() {
    let mut table = Moderators::new();
    table.set_moderator("ALicia", "supersecret", ModRole::User).unwrap();
    assert!(table.verify_moderator("alicia", "supersecret"));
    assert!(table.verify_moderator("ALICIA", "supersecret"));
    assert!(!table.verify_moderator("alicia", "wrong"));
    assert!(!table.verify_moderator("bob", "supersecret"));
    assert_eq!(table.moderator_count(), 1);
    table.set_moderator("alicia", "nueva", ModRole::User).unwrap();
    assert!(table.verify_moderator("alicia", "nueva"));
    assert!(!table.verify_moderator("alicia", "supersecret"));
    assert_eq!(table.moderator_count(), 1);
    assert!(table.remove_moderator("alicia"));
    assert!(!table.verify_moderator("alicia", "nueva"));
    assert_eq!(table.moderator_count(), 0);
}

#[test]
fn hash_password_is_salted() {
    let a = hash_password(b"saltsalt", "pass");
    let b = hash_password(b"saltsalt", "pass");
    let c = hash_password(b"othersalt", "pass");
    assert_eq!(a, b);
    assert_ne!(a, c);
    assert!(ct_eq(&a, &b));
    assert!(!ct_eq(&a, &c));
    assert!(!ct_eq(&a, &a[..31]));
}

#[test]
fn hash_password_is_the_iterated_digest() {
    let mut out = sha2::Sha256::digest(b"saltsaltpass");
    for _ in 1..60_000 {
        out = sha2::Sha256::digest(out);
    }
    assert_eq!(hash_password(b"saltsalt", "pass").as_slice(), out.as_slice());
}

#[test]
fn accounts_need_a_name_and_a_password() {
    let mut table = Moderators::new();
    assert_eq!(
        table.set_moderator("  ", "x", ModRole::User),
        Err("el nombre de moderador no puede estar vacío".to_string())
    );
    assert_eq!(
        table.set_moderator("ana", "", ModRole::User),
        Err("la contraseña no puede estar vacía".to_string())
    );
    assert_eq!(table.moderator_count(), 0);
    assert!(!table.remove_moderator("ana"));
    assert_eq!(password_of_line("secreto\r\n"), Ok("secreto".to_string()));
    assert_eq!(
        password_of_line("\r\n"),
        Err("la contraseña no puede estar vacía".to_string())
    );
}

#[test]
fn moderator_roles_read_back() {
    for role in [ModRole::Admin, ModRole::User] {
        assert_eq!(ModRole::parse(role.label()), Some(role));
    }
    assert_eq!(ModRole::parse("root"), None);
}

#[test]
fn sessions_carry_the_role_and_expire() {
    let mut table = Moderators::new();
    table.set_moderator_salted("Ana", "clave", ModRole::Admin, b"sal").unwrap();
    let hour = 3_600_000_000_000u64;
    let mut auth = Auth::new();
    assert!(auth.login(&table, "ana", "mal", 0).is_none());
    assert!(auth.login(&table, "ana", "", 0).is_none());
    let token = auth.login(&table, " ANA ", "clave", 0).unwrap();
    assert_eq!(token.len(), 64);
    assert!(token.bytes().all(|b| b.is_ascii_hexdigit()));
    assert_ne!(session_token(), token);
    let m = auth.who(Some(&token), 7 * hour).unwrap();
    assert_eq!(m.username, "ana");
    assert_eq!(m.role, ModRole::Admin);
    assert!(auth.who(Some(&token), 15 * hour).is_some());
    assert!(auth.who(Some(&token), 23 * hour + 1).is_none());
    assert!(auth.who(Some(&token), 23 * hour + 1).is_none());
    assert!(auth.who(None, 0).is_none());
    let again = auth.login(&table, "ana", "clave", 0).unwrap();
    auth.logout(Some(&again));
    assert!(auth.who(Some(&again), 0).is_none());
}

#[test]
fn equal_ratings_win_moves_expected_amount() {
    let (a, b) = elo(1200, 1200, Outcome::Win);
    assert_eq!(a, 1216);
    assert_eq!(b, 1184);
}

#[test]
fn equal_ratings_draw_keeps_both() {
    let (a, b) = elo(1200, 1200, Outcome::Draw);
    assert_eq!(a, 1200);
    assert_eq!(b, 1200);
}

#[test]
fn huge_upset_moves_more() {
    let (a, b) = elo(400, 2400, Outcome::Win);
    assert!(a > 400 + 30, "winner should gain ~32, got {a}");
    assert_eq!(b, 2368);
}

#[test]
fn favorite_win_moves_little() {
    let (a, b) = elo(2400, 400, Outcome::Win);
    assert_eq!(a, 2400);
    assert_eq!(b, 400);
}

#[test]
fn ratings_swap_symmetrically() {
    let (a, b) = elo(1500, 1300, Outcome::Loss);
    let (a2, b2) = elo(1300, 1500, Outcome::Win);
    assert_eq!(a, b2);
    assert_eq!(b, a2);
}

#[test]
fn elo_agrees_with_the_formula() {
    for d in -2500..=2500i32 {
        for (o, s) in [(Outcome::Win, 1.0f64), (Outcome::Draw, 0.5), (Outcome::Loss, 0.0)] {
            let (a, b) = (1000i32, 1000 + d);
            let expected = 1.0 / (1.0 + 10f64.powf((b - a) as f64 / 400.0));
            let want_a = (a as f64 + 32.0 * (s - expected)).round() as i32;
            let want_b = (b as f64 + 32.0 * ((1.0 - s) - (1.0 - expected))).round() as i32;
            assert_eq!(elo(a, b, o), (want_a, want_b), "gap {d}");
        }
    }
    assert_eq!(elo(i32::MAX, i32::MAX, Outcome::Win), (i32::MAX, i32::MAX - 16));
    assert_eq!(outcome(5, 3), Outcome::Win);
    assert_eq!(outcome(3, 5), Outcome::Loss);
    assert_eq!(outcome(4, 4), Outcome::Draw);
}

#[test]
fn new_players_start_as_brick() {
    assert_eq!(rank_for_rating(START_RATING), "Brick");
}

#[test]
fn proof_roundtrips_sign_and_verify() {
    let client = peer(1);
    let proof = proof_for(&key(), &gateway(), &client, 1420, 9).expect("signs");
    assert_eq!(proof.gateway, gateway().to_base58());
    assert!(verify_proof(&key(), &client, &proof));
    // The outside key accepts what was signed here.
    let message = proof_message(1420, 9, &client);
    assert!(keypair(200).public().verify(&message, &proof.signature));
}

#[test]
fn tampered_rating_is_rejected() {
    let client = peer(1);
    let mut proof = proof_for(&key(), &gateway(), &client, 1420, 9).expect("signs");
    proof.rating += 100;
    assert!(!verify_proof(&key(), &client, &proof));
}

#[test]
fn proof_bound_to_other_player_is_rejected() {
    let alice = peer(1);
    let bob = peer(2);
    let proof = proof_for(&key(), &gateway(), &alice, 1420, 9).expect("signs");
    assert!(!verify_proof(&key(), &bob, &proof));
}

#[test]
fn proof_message_is_rating_sequence_and_player() {
    let client = peer(1);
    let mut want = Vec::new();
    want.extend_from_slice(&(-5i32).to_be_bytes());
    want.extend_from_slice(&77u64.to_be_bytes());
    want.extend_from_slice(&outside_peer(1).to_bytes());
    assert_eq!(proof_message(-5, 77, &client), want);
}

#[test]
fn replayed_old_seq_is_beat_by_cached_higher() {
    let client = peer(1);
    let stale = proof_for(&key(), &gateway(), &client, 1500, 3).expect("signs");
    let mut lobby = lobby_with(&[(client, "c", 1200)]);
    lobby.players.insert(
        client,
        PlayerEntry { username: None, rating: 1200, last_seq: 5, base_addresses: Vec::new() },
    );
    let accepted = accepted_rating(&lobby, &Ledger::new(), &client, Some((stale.rating, stale.seq)));
    assert_eq!(accepted.0, 1200);
    assert_eq!(accepted.1, 5);
}

#[test]
fn two_complementary_reports_store_one_match_and_move_elo_once() {
    let (a, b) = (peer(1), peer(2));
    let mut lobby = lobby_with(&[(a, "alice", 1200), (b, "bob", 1200)]);
    let mut ledger = Ledger::new();

    let (ra, proof_a) = report(&mut lobby, &mut ledger, a, b, 1, 5, 3);
    assert_eq!(ra, 1216);
    assert!(proof_a.is_some());
    assert_eq!(ledger.matches.len(), 1);

    let (rb, _) = report(&mut lobby, &mut ledger, b, a, 1, 3, 5);
    assert_eq!(rb, 1184);
    assert_eq!(status(&ledger, 1).label(), "played");

    let (ra2, _) = report(&mut lobby, &mut ledger, a, b, 1, 5, 3);
    assert_eq!(ra2, 1216);
    assert_eq!(ledger.matches.len(), 1);
    assert_eq!(rating(&lobby, &a), 1216);
    assert_eq!(rating(&lobby, &b), 1184);
}

#[test]
fn legacy_reports_without_match_id_merge_canonically() {
    let (a, b) = (peer(1), peer(2));
    let mut lobby = lobby_with(&[(a, "alice", 1400), (b, "bob", 1400)]);
    let mut ledger = Ledger::new();
    let (ra, _) = report(&mut lobby, &mut ledger, a, b, 0, 5, 2);
    assert_eq!(ra, 1416);
    let (rb, _) = report(&mut lobby, &mut ledger, b, a, 0, 2, 5);
    assert_eq!(rb, 1384);
    assert_eq!(ledger.matches.len(), 1);
    assert_eq!(status(&ledger, 1).label(), "played");
}

#[test]
fn a_pending_match_survives_a_restart() {
    let (a, b) = (peer(1), peer(2));
    let mut lobby = lobby_with(&[(a, "alice", 1200), (b, "bob", 1200)]);
    let mut ledger = Ledger::new();
    report(&mut lobby, &mut ledger, a, b, 1, 5, 3);
    let mut fresh = Lobby::new();
    let (rb, _) = report(&mut fresh, &mut ledger, b, a, 1, 3, 5);
    assert_eq!(rb, 1184);
    assert_eq!(status(&ledger, 1), MatchStatus::Played);
    assert_eq!(ledger.matches.len(), 1);
}

#[test]
fn a_report_against_nobody_moves_nothing() {
    let a = peer(1);
    let mut lobby = lobby_with(&[(a, "alice", 1200)]);
    let mut ledger = Ledger::new();
    let r = report_result(
        &mut lobby, &mut ledger, &key(), &gateway(), &a, "not an id", 1, 5, 0, NOW,
    );
    let (rating, proof) = r.unwrap();
    assert_eq!(rating, 1200);
    assert_eq!(proof.unwrap().seq, 1);
    assert_eq!(last_seq(&lobby, &a), 0);
    assert_eq!(ledger.matches.len(), 0);
    lobby.players.insert(
        a,
        PlayerEntry { username: None, rating: 1200, last_seq: u64::MAX, base_addresses: Vec::new() },
    );
    let none = report_result(
        &mut lobby, &mut ledger, &key(), &gateway(), &a, "not an id", 1, 5, 0, NOW,
    );
    assert!(none.is_none());
    let none = report_result(
        &mut lobby, &mut ledger, &key(), &gateway(), &a, &peer(2).to_base58(), 0, 5, 0, NOW,
    );
    assert!(none.is_none());
    assert_eq!(ledger.matches.len(), 0);
}

fn found_id(push: &(PeerId, GatewayRequest)) -> u64 {
    match &push.1 {
        GatewayRequest::MatchFound { match_id, .. } => *match_id,
        other => panic!("unexpected {other:?}"),
    }
}

/// Pairs all of these players and gives the number that each is told.
fn pair(lobby: &mut Lobby, ledger: &mut Ledger, players: &[PeerId]) -> Vec<(PeerId, u64)> {
    let base = Multiaddr::parse("/ip4/1.2.3.4/tcp/4001").unwrap();
    for p in players {
        client_connected(lobby, ledger, p, &base);
        let queue = GatewayRequest::QueueMatch;
        on_gateway_request(lobby, ledger, &key(), &gateway(), p, queue, NOW).unwrap();
    }
    let pushes = run_matchmaking(lobby, ledger, &gateway(), &base);
    pushes.iter().map(|p| (p.0, found_id(p))).collect()
}

#[test]
fn a_paired_match_is_stored_under_its_number_and_rated_once() {
    let (a, b) = (peer(1), peer(2));
    let mut lobby = lobby_with(&[(a, "alice", 1200), (b, "bob", 1200)]);
    let mut ledger = Ledger::new();
    let told = pair(&mut lobby, &mut ledger, &[a, b]);
    assert_eq!(told.iter().map(|t| t.1).collect::<Vec<u64>>(), vec![1, 1]);
    assert_eq!(lobby.next_id, 2);

    let (ra, _) = report(&mut lobby, &mut ledger, a, b, 1, 5, 3);
    assert_eq!(ra, 1216);
    assert_eq!(ledger.matches.keys, vec![1]);
    assert_eq!(status(&ledger, 1), MatchStatus::Pending);
    let (rb, _) = report(&mut lobby, &mut ledger, b, a, 1, 3, 5);
    assert_eq!(rb, 1184);
    assert_eq!(status(&ledger, 1), MatchStatus::Played);

    // Told again, by either and with any score, it is the same match.
    for (mine, theirs) in [(5, 3), (3, 5), (0, 7)] {
        report(&mut lobby, &mut ledger, a, b, 1, mine, theirs);
        report(&mut lobby, &mut ledger, b, a, 1, mine, theirs);
    }
    assert_eq!(ledger.matches.keys, vec![1]);
    assert_eq!((rating(&lobby, &a), rating(&lobby, &b)), (1216, 1184));
    assert_eq!((last_seq(&lobby, &a), last_seq(&lobby, &b)), (1, 1));
    assert_eq!(lobby.next_id, 2);
    assert_eq!(alloc_match_id(&mut lobby, &ledger), 2);
}

#[test]
fn a_second_match_with_the_same_score_is_a_match_of_its_own() {
    let (a, b) = (peer(1), peer(2));
    let mut lobby = lobby_with(&[(a, "alice", 1200), (b, "bob", 1200)]);
    let mut ledger = Ledger::new();
    pair(&mut lobby, &mut ledger, &[a, b]);
    report(&mut lobby, &mut ledger, a, b, 1, 5, 3);
    let told = pair(&mut lobby, &mut ledger, &[a, b]);
    assert_eq!(told[0].1, 2);
    report(&mut lobby, &mut ledger, a, b, 2, 5, 3);
    report(&mut lobby, &mut ledger, b, a, 2, 3, 5);
    report(&mut lobby, &mut ledger, b, a, 1, 3, 5);
    assert_eq!(ledger.matches.keys, vec![1, 2]);
    assert_eq!(status(&ledger, 1), MatchStatus::Played);
    assert_eq!(status(&ledger, 2), MatchStatus::Played);
    assert_eq!(rating(&lobby, &a), 1231);
    assert_eq!(rating(&lobby, &b), 1169);
}

#[test]
fn a_paired_match_is_reported_after_a_restart_or_out_of_turn() {
    let (a, b, c, d) = (peer(1), peer(2), peer(3), peer(4));
    let mut lobby = lobby_with(&[(a, "a", 100), (b, "b", 100), (c, "c", 2000), (d, "d", 2000)]);
    let mut ledger = Ledger::new();
    let told = pair(&mut lobby, &mut ledger, &[a, b, c, d]);
    assert_eq!(told.iter().map(|t| t.1).collect::<Vec<u64>>(), vec![1, 1, 2, 2]);
    // The later pairing is over first.
    report(&mut lobby, &mut ledger, c, d, 2, 5, 0);
    assert_eq!(ledger.matches.keys, vec![2]);
    // A new lobby still knows that the earlier number was given out.
    let mut fresh = Lobby::new();
    report(&mut fresh, &mut ledger, a, b, 1, 5, 0);
    report(&mut fresh, &mut ledger, b, a, 1, 0, 5);
    assert_eq!(ledger.matches.len(), 2);
    assert_eq!(status(&ledger, 1), MatchStatus::Played);
    assert_eq!(status(&ledger, 2), MatchStatus::Pending);
    // A number that nobody was told gets the next one.
    report(&mut fresh, &mut ledger, a, b, 77, 5, 1);
    report(&mut fresh, &mut ledger, b, a, 77, 1, 5);
    assert_eq!(ledger.matches.len(), 3);
    assert_eq!(status(&ledger, 3), MatchStatus::Played);
}

#[test]
fn one_player_may_leave_the_number_out() {
    for ids in [(0, 1), (1, 0), (0, 0), (1, 1)] {
        let (a, b) = (peer(1), peer(2));
        let mut lobby = lobby_with(&[(a, "alice", 1200), (b, "bob", 1200)]);
        let mut ledger = Ledger::new();
        pair(&mut lobby, &mut ledger, &[a, b]);
        let (ra, _) = report(&mut lobby, &mut ledger, a, b, ids.0, 5, 3);
        let (rb, _) = report(&mut lobby, &mut ledger, b, a, ids.1, 3, 5);
        assert_eq!((ra, rb), (1216, 1184));
        assert_eq!(ledger.matches.len(), 1);
        let id = if ids.0 == 1 { 1 } else { 2 };
        assert_eq!(status(&ledger, id), MatchStatus::Played);
    }
}

#[test]
fn registrations_and_ratings_take_the_next_number() {
    let (a, b) = (peer(1), peer(2));
    let mut lobby = Lobby::new();
    let mut ledger = Ledger::new();
    let mut seen: Vec<RatingProof> = Vec::new();
    let register = |lobby: &mut Lobby, ledger: &mut Ledger| {
        let request = GatewayRequest::Register {
            username: "alice".to_string(),
            rating: 0,
            proof: None,
        };
        match on_gateway_request(lobby, ledger, &key(), &gateway(), &a, request, NOW) {
            Some(GatewayResponse::Registered { proof: Some(p), .. }) => {
                assert_eq!(p.seq, last_seq(lobby, &a));
                p
            }
            other => panic!("unexpected {other:?}"),
        }
    };
    seen.push(register(&mut lobby, &mut ledger));
    seen.push(register(&mut lobby, &mut ledger));
    for id in [0, 0, 0, 1] {
        seen.push(report(&mut lobby, &mut ledger, a, b, id, 5, 3).1.unwrap());
    }
    seen.push(register(&mut lobby, &mut ledger));
    let revoked = revoke_match_state(&mut lobby, &mut ledger, &key(), &gateway(), 1, NOW);
    assert!(revoked.unwrap().is_ok());
    seen.push(report(&mut lobby, &mut ledger, a, b, 1, 5, 3).1.unwrap());
    // Whoever leaves and comes back is where they were.
    let base = Multiaddr::parse("/ip4/1.2.3.4/tcp/4001").unwrap();
    client_gone(&mut lobby, &a);
    client_connected(&mut lobby, &ledger, &a, &base);
    seen.push(report(&mut lobby, &mut ledger, a, b, 1, 5, 3).1.unwrap());
    client_gone(&mut lobby, &a);
    seen.push(register(&mut lobby, &mut ledger));
    let seqs: Vec<u64> = seen.iter().map(|p| p.seq).collect();
    // Answers that move nothing have the number to come, and do not take it.
    assert_eq!(seqs, vec![1, 2, 3, 4, 4, 4, 4, 6, 6, 6]);
    assert_eq!(last_seq(&lobby, &a), 6);
    let ratings: Vec<i32> = seen.iter().map(|p| p.rating).collect();
    assert_eq!(ratings, vec![800, 800, 816, 816, 816, 816, 816, 800, 800, 800]);
    for p in &seen {
        assert!(verify_proof(&key(), &a, p));
    }
    // Nor does one that is shown to the gateway change the rating.
    let again = report(&mut lobby, &mut ledger, a, b, 1, 5, 3).1.unwrap();
    assert_eq!((again.rating, again.seq), (800, 7));
    let request = GatewayRequest::Register {
        username: "alice".to_string(),
        rating: 0,
        proof: Some(again),
    };
    match on_gateway_request(&mut lobby, &mut ledger, &key(), &gateway(), &a, request, NOW) {
        Some(GatewayResponse::Registered { rating, proof: Some(p), .. }) => {
            assert_eq!((rating, p.rating, p.seq), (800, 800, 8));
        }
        other => panic!("unexpected {other:?}"),
    }
}

#[test]
fn the_last_correction_of_a_played_match_decides() {
    let (a, b) = (peer(1), peer(2));
    let mut lobby = lobby_with(&[(a, "alice", 1200), (b, "bob", 1200)]);
    let mut ledger = Ledger::new();
    report(&mut lobby, &mut ledger, a, b, 1, 5, 3);
    report(&mut lobby, &mut ledger, b, a, 1, 3, 5);
    let alice_first = a.less(&b);
    for (mine, theirs, want) in [(3, 5, 1184), (4, 4, 1200), (5, 2, 1216)] {
        let (x, y) = if alice_first { (mine, theirs) } else { (theirs, mine) };
        let edited = edit_match_state(&mut lobby, &mut ledger, &key(), &gateway(), 1, x, y, NOW);
        assert!(edited.unwrap().is_ok());
        assert_eq!(rating(&lobby, &a), want);
        assert_eq!(rating(&lobby, &b), 2400 - want);
    }
    assert_eq!((last_seq(&lobby, &a), last_seq(&lobby, &b)), (4, 4));
}

#[test]
fn revoked_match_restores_before_ratings() {
    let (a, b) = (peer(1), peer(2));
    let mut lobby = lobby_with(&[(a, "alice", 1200), (b, "bob", 1200)]);
    let mut ledger = Ledger::new();
    report(&mut lobby, &mut ledger, a, b, 1, 5, 3);
    report(&mut lobby, &mut ledger, b, a, 1, 3, 5);
    assert_eq!(rating(&lobby, &a), 1216);
    assert_eq!(rating(&lobby, &b), 1184);

    let revoked = revoke_match_state(&mut lobby, &mut ledger, &key(), &gateway(), 1, NOW)
        .unwrap()
        .unwrap();
    assert_eq!(revoked.len(), 2);
    assert_eq!(revoked[0].before, 1200);
    assert_eq!(revoked[1].before, 1200);
    assert!(revoked[0].proof.is_some());
    assert!(revoked[1].proof.is_some());

    assert_eq!(rating(&lobby, &a), 1200);
    assert_eq!(rating(&lobby, &b), 1200);
    assert_eq!(last_seq(&lobby, &a), 2);
    assert_eq!(last_seq(&lobby, &b), 2);
    assert_eq!(status(&ledger, 1).label(), "revoked");

    let again = revoke_match_state(&mut lobby, &mut ledger, &key(), &gateway(), 1, NOW).unwrap();
    assert_eq!(again.err().unwrap(), "la partida #1 ya fue revocada");
}

#[test]
fn revoking_unknown_match_fails() {
    let (a, b) = (peer(1), peer(2));
    let mut lobby = lobby_with(&[(a, "alice", 1200), (b, "bob", 1200)]);
    let mut ledger = Ledger::new();
    let r = revoke_match_state(&mut lobby, &mut ledger, &key(), &gateway(), 999, NOW).unwrap();
    assert_eq!(r.err().unwrap(), "la partida #999 no existe");
    let big = revoke_match_state(&mut lobby, &mut ledger, &key(), &gateway(), u64::MAX, NOW);
    assert!(big.unwrap().is_err());
}

#[test]
fn matches_of_unknown_players_cannot_be_moderated() {
    let (a, b) = (peer(1), peer(2));
    let mut lobby = lobby_with(&[(a, "alice", 1200), (b, "bob", 1200)]);
    let mut ledger = Ledger::new();
    report(&mut lobby, &mut ledger, a, b, 1, 5, 3);
    let mut row = ledger.matches.get(&1).unwrap().copied();
    row.player_a = "nobody".to_string();
    ledger.replace_match(1, row);
    let r = revoke_match_state(&mut lobby, &mut ledger, &key(), &gateway(), 1, NOW).unwrap();
    assert_eq!(r.err().unwrap(), "la partida #1 tiene participantes inválidos");
}

#[test]
fn edit_match_score_recomputes_elo_and_updates_storage() {
    let (a, b) = (peer(1), peer(2));
    let mut lobby = lobby_with(&[(a, "alice", 1200), (b, "bob", 1200)]);
    let mut ledger = Ledger::new();
    report(&mut lobby, &mut ledger, a, b, 1, 5, 3);
    report(&mut lobby, &mut ledger, b, a, 1, 3, 5);
    assert_eq!(rating(&lobby, &a), 1216);
    assert_eq!(rating(&lobby, &b), 1184);

    let edited = edit_match_state(&mut lobby, &mut ledger, &key(), &gateway(), 1, 3, 5, NOW)
        .unwrap()
        .unwrap();
    assert_eq!(edited.len(), 2);
    for p in &edited {
        let expected = if p.my_score == 5 { 1216 } else { 1184 };
        assert_eq!(p.rating, expected);
        assert_eq!(p.opponent_score, 8 - p.my_score);
        assert!(p.proof.is_some());
    }
    assert_eq!(rating(&lobby, &a) + rating(&lobby, &b), 2400);
    assert_ne!(rating(&lobby, &a), rating(&lobby, &b));
    assert!(rating(&lobby, &a) == 1216 || rating(&lobby, &b) == 1216);
    let row = ledger.matches.get(&1).unwrap();
    assert_eq!((row.score_a, row.score_b), (3, 5));
    assert_eq!((row.after_a, row.after_b), (1184, 1216));
    assert!(row.edited_at.is_some());

    let high = edit_match_state(&mut lobby, &mut ledger, &key(), &gateway(), 1, 99, 5, NOW).unwrap();
    assert_eq!(high.err().unwrap(), "marcador inválido (permitido 0..=25)");
    revoke_match_state(&mut lobby, &mut ledger, &key(), &gateway(), 1, NOW).unwrap().unwrap();
    assert!(edit_match_state(&mut lobby, &mut ledger, &key(), &gateway(), 1, 5, 5, NOW)
        .unwrap()
        .is_err());
}

#[test]
fn list_matches_json_is_valid() {
    let (a, b) = (peer(1), peer(2));
    let mut lobby = lobby_with(&[(a, "alice", 1500), (b, "bob", 1500)]);
    let mut ledger = Ledger::new();
    report(&mut lobby, &mut ledger, a, b, 1, 5, 4);
    let body = list_matches_json(&ledger);
    let parsed: serde_json::Value = serde_json::from_str(&body).unwrap();
    let matches = parsed["matches"].as_array().unwrap();
    assert_eq!(matches.len(), 1);
    assert_eq!(matches[0]["id"], 1);
    let usernames = [
        matches[0]["username_a"].as_str().unwrap(),
        matches[0]["username_b"].as_str().unwrap(),
    ];
    assert!(usernames.contains(&"alice"));
    assert!(usernames.contains(&"bob"));
    let scores = [
        matches[0]["score_a"].as_i64().unwrap(),
        matches[0]["score_b"].as_i64().unwrap(),
    ];
    assert_eq!(scores.iter().min(), Some(&4));
    assert_eq!(scores.iter().max(), Some(&5));
    assert_eq!(matches[0]["status"], "pending");
    assert_eq!(matches[0]["created_at"], NOW);
    assert!(matches[0]["revoked_at"].is_null());
    let reported = [
        matches[0]["reported_a"].as_bool().unwrap(),
        matches[0]["reported_b"].as_bool().unwrap(),
    ];
    assert_ne!(reported[0], reported[1]);
}

#[test]
fn the_listing_has_the_latest_matches_first() {
    let (a, b) = (peer(1), peer(2));
    let mut lobby = lobby_with(&[(a, "alice", 1500), (b, "bob", 1500)]);
    let mut ledger = Ledger::new();
    for n in 0..310u32 {
        report(&mut lobby, &mut ledger, a, b, 0, n, n + 1);
    }
    report(&mut lobby, &mut ledger, a, b, 0, u32::MAX, 0);
    assert_eq!(ledger.matches.len(), 311);
    let parsed: serde_json::Value = serde_json::from_str(&list_matches_json(&ledger)).unwrap();
    let matches = parsed["matches"].as_array().unwrap();
    assert_eq!(matches.len(), 299);
    assert_eq!(matches[0]["id"], 310);
    assert_eq!(matches[298]["id"], 12);
}

#[test]
fn moderation_commands_tell_connected_players() {
    let (a, b) = (peer(1), peer(2));
    let mut lobby = lobby_with(&[(a, "alice", 1200)]);
    let mut ledger = Ledger::new();
    report(&mut lobby, &mut ledger, a, b, 1, 5, 3);
    let cmd = HttpCmd::Edit { id: 1, score_a: 0, score_b: 0 };
    let reply = on_http_command(&mut lobby, &mut ledger, &key(), &gateway(), cmd, NOW).unwrap();
    let body: serde_json::Value = serde_json::from_str(&reply.result.unwrap()).unwrap();
    assert_eq!(body["ok"], true);
    assert_eq!(body["score_a"], 0);
    assert_eq!(reply.pushes.len(), 1);
    assert_eq!(reply.pushes[0].0, a);
    let cmd = HttpCmd::Revoke { id: 1 };
    let reply = on_http_command(&mut lobby, &mut ledger, &key(), &gateway(), cmd, NOW).unwrap();
    let body: serde_json::Value = serde_json::from_str(&reply.result.unwrap()).unwrap();
    assert_eq!(body["match_id"], 1);
    match &reply.pushes[0].1 {
        GatewayRequest::MatchRevoked { match_id, rating, proof } => {
            assert_eq!((*match_id, *rating), (1, 1200));
            assert!(verify_proof(&key(), &a, proof.as_ref().unwrap()));
        }
        other => panic!("unexpected {other:?}"),
    }
    let reply = on_http_command(&mut lobby, &mut ledger, &key(), &gateway(), cmd, NOW).unwrap();
    assert_eq!(reply.result, Err("la partida #1 ya fue revocada".to_string()));
    let reply = on_http_command(&mut lobby, &mut ledger, &key(), &gateway(), HttpCmd::List, NOW);
    assert!(reply.unwrap().result.unwrap().contains("revoked"));
}

#[test]
fn registering_certifies_and_ignores_replays() {
    let p = peer(3);
    let mut lobby = Lobby::new();
    let mut ledger = Ledger::new();
    let base = Multiaddr::parse("/ip4/1.2.3.4/tcp/4001").unwrap();
    client_connected(&mut lobby, &ledger, &p, &base);
    let ask = |proof: Option<RatingProof>| GatewayRequest::Register {
        username: "ana".to_string(),
        rating: 9000,
        proof,
    };
    let call = |lobby: &mut Lobby, ledger: &mut Ledger, req: GatewayRequest| {
        on_gateway_request(lobby, ledger, &key(), &gateway(), &p, req, NOW).unwrap()
    };
    match call(&mut lobby, &mut ledger, ask(None)) {
        GatewayResponse::Registered { username, rating, rank, proof } => {
            assert_eq!((username.as_str(), rating, rank.as_str()), ("ana", 800, "Brick"));
            assert!(verify_proof(&key(), &p, &proof.unwrap()));
        }
        other => panic!("unexpected {other:?}"),
    }
    assert_eq!(ledger.load_rating(&p), Some((800, 1)));
    let high = proof_for(&key(), &gateway(), &p, 1500, 7).unwrap();
    match call(&mut lobby, &mut ledger, ask(Some(high))) {
        GatewayResponse::Registered { rating, proof, .. } => {
            assert_eq!(rating, 1500);
            assert_eq!(proof.unwrap().seq, 8);
        }
        other => panic!("unexpected {other:?}"),
    }
    let old = proof_for(&key(), &gateway(), &p, 2000, 7).unwrap();
    match call(&mut lobby, &mut ledger, ask(Some(old))) {
        GatewayResponse::Registered { rating, .. } => assert_eq!(rating, 1500),
        other => panic!("unexpected {other:?}"),
    }
    let mut forged = proof_for(&key(), &gateway(), &p, 2000, 99).unwrap();
    forged.rating = 3000;
    match call(&mut lobby, &mut ledger, ask(Some(forged))) {
        GatewayResponse::Registered { rating, .. } => assert_eq!(rating, 1500),
        other => panic!("unexpected {other:?}"),
    }
    let last = proof_for(&key(), &gateway(), &p, 2000, u64::MAX).unwrap();
    let r = on_gateway_request(
        &mut lobby, &mut ledger, &key(), &gateway(), &p, ask(Some(last)), NOW,
    );
    assert!(r.is_none());
}

#[test]
fn calls_are_answered() {
    let p = peer(3);
    let mut lobby = Lobby::new();
    let mut ledger = Ledger::new();
    let mut call = |req: GatewayRequest| {
        on_gateway_request(&mut lobby, &mut ledger, &key(), &gateway(), &p, req, NOW).unwrap()
    };
    assert_eq!(call(GatewayRequest::Ping), GatewayResponse::Pong);
    assert_eq!(call(GatewayRequest::QueueMatch), GatewayResponse::Queued { position: 0 });
    assert_eq!(call(GatewayRequest::QueueMatch), GatewayResponse::Queued { position: 0 });
    assert_eq!(call(GatewayRequest::LeaveQueue), GatewayResponse::Dequeued);
    let found = GatewayRequest::MatchFound {
        match_id: 1,
        opponent: String::new(),
        addresses: Vec::new(),
    };
    assert_eq!(
        call(found),
        GatewayResponse::Error("MatchFound is server→client only".to_string())
    );
    let corrected = GatewayRequest::MatchCorrected {
        match_id: 1,
        my_score: 0,
        opponent_score: 0,
        rating: 0,
        proof: None,
    };
    assert_eq!(
        call(corrected),
        GatewayResponse::Error("MatchCorrected is server→client only".to_string())
    );
    match call(GatewayRequest::ReportResult {
        match_id: 0,
        opponent: peer(4).to_base58(),
        my_score: 5,
        opponent_score: 0,
    }) {
        GatewayResponse::Rating { rating, rank, .. } => {
            assert_eq!((rating, rank.as_str()), (816, "Brick"));
        }
        other => panic!("unexpected {other:?}"),
    }
}

#[test]
fn matchmaking_pairs_neighbours() {
    let ps: Vec<PeerId> = (1..=5).map(peer).collect();
    let mut lobby = lobby_with(&[
        (ps[0], "a", 2000),
        (ps[1], "b", 800),
        (ps[2], "c", 1500),
        (ps[3], "d", 900),
        (ps[4], "e", 100),
    ]);
    let mut ledger = Ledger::new();
    let base = Multiaddr::parse("/ip4/1.2.3.4/tcp/4001").unwrap();
    for p in &ps {
        client_connected(&mut lobby, &ledger, p, &base);
        let r = on_gateway_request(
            &mut lobby, &mut ledger, &key(), &gateway(), p, GatewayRequest::QueueMatch, NOW,
        );
        assert!(r.is_some());
    }
    let pushes = run_matchmaking(&mut lobby, &ledger, &gateway(), &base);
    assert_eq!(pushes.len(), 4);
    let whom: Vec<PeerId> = pushes.iter().map(|p| p.0).collect();
    assert_eq!(whom, vec![ps[1], ps[3], ps[2], ps[0]]);
    assert_eq!(lobby.queue, vec![ps[4]]);
    assert_eq!(lobby.next_id, 3);
    match &pushes[0].1 {
        GatewayRequest::MatchFound { match_id, opponent, addresses } => {
            assert_eq!(*match_id, 1);
            assert_eq!(*opponent, outside_peer(4).to_base58());
            assert_eq!(addresses.len(), 1);
            let want = format!(
                "/ip4/1.2.3.4/tcp/4001/p2p/{}/p2p-circuit/p2p/{}",
                outside_peer(200),
                outside_peer(4)
            );
            assert_eq!(addresses[0], want);
            let addr: libp2p::Multiaddr = want.parse().unwrap();
            assert_eq!(addr.to_string(), addresses[0]);
        }
        other => panic!("unexpected {other:?}"),
    }
    assert!(run_matchmaking(&mut lobby, &ledger, &gateway(), &base).is_empty());
    client_gone(&mut lobby, &ps[4]);
    assert!(lobby.queue.is_empty());
    assert!(!lobby.players.contains(&ps[4]));
}

#[test]
fn connecting_uses_the_stored_rating() {
    let p = peer(7);
    let mut lobby = Lobby::new();
    let mut ledger = Ledger::new();
    ledger.upsert_rating(&p, "ana", 1300, 4);
    let base = Multiaddr::parse("/ip4/1.2.3.4/tcp/4001").unwrap();
    let seen = Multiaddr::parse("/ip4/9.9.9.9/tcp/4001").unwrap();
    client_connected(&mut lobby, &ledger, &p, &base);
    client_connected(&mut lobby, &ledger, &p, &base);
    client_identified(&mut lobby, &ledger, &p, &seen);
    let e = lobby.players.get(&p).unwrap();
    assert_eq!((e.rating, e.last_seq), (1300, 4));
    let texts: Vec<String> = e.base_addresses.iter().map(|a| a.to_text()).collect();
    assert_eq!(texts, vec!["/ip4/1.2.3.4/tcp/4001", "/ip4/9.9.9.9/tcp/4001"]);
    let q = peer(8);
    client_identified(&mut lobby, &ledger, &q, &seen);
    assert_eq!(lobby.players.get(&q).unwrap().rating, START_RATING);
}

#[test]
fn match_numbers_are_above_the_stored_ones() {
    let (a, b) = (peer(1), peer(2));
    let mut lobby = lobby_with(&[(a, "alice", 1200), (b, "bob", 1200)]);
    lobby.next_id = 41;
    let mut ledger = Ledger::new();
    report(&mut lobby, &mut ledger, a, b, 0, 5, 3);
    let mut fresh = Lobby::new();
    assert_eq!(alloc_match_id(&mut fresh, &ledger), 42);
    assert_eq!(alloc_match_id(&mut fresh, &ledger), 43);
}

#[test]
fn peers_compare_and_print_like_the_outside_ones() {
    for i in 1..20u8 {
        for j in 1..20u8 {
            assert_eq!(peer(i).less(&peer(j)), outside_peer(i) < outside_peer(j));
        }
        let text = outside_peer(i).to_base58();
        assert_eq!(peer(i).to_base58(), text);
        assert_eq!(PeerId::parse(&text), Some(peer(i)));
        assert_eq!(peer(i).to_bytes(), outside_peer(i).to_bytes());
        assert_eq!(short_peer(&peer(i)), format!("{}...{}", &text[..8], &text[text.len() - 4..]));
    }
    assert_eq!(PeerId::parse("0OIl"), None);
    for bad in [&[][..], &[0][..], &[0, 1][..], &[1, 0][..], &[0, 43, 1][..], &[0x12, 65][..]] {
        assert!(PeerId::from_bytes(bad).is_none());
        assert!(libp2p::PeerId::from_bytes(bad).is_err());
    }
    assert!(PeerId::from_bytes(&[0, 1, 9]).is_some());
    assert!(libp2p::PeerId::from_bytes(&[0, 1, 9]).is_ok());
}

fn strings(args: &[&str]) -> Vec<String> {
    args.iter().map(|s| s.to_string()).collect()
}

#[test]
fn the_command_line_is_read() {
    let a = parse_args(&strings(&[])).ok().unwrap();
    assert_eq!(a.listen.to_text(), "/ip4/0.0.0.0/tcp/4001");
    assert_eq!((a.public_host.as_str(), a.http_port), ("127.0.0.1", 8080));
    let a = parse_args(&strings(&[
        "--listen", "/ip4/127.0.0.1/tcp/9", "--public", "h", "--db", "d", "--key", "k", "--http",
        "0", "--add-moderator", "zap", "--role", "admin",
    ]))
    .ok()
    .unwrap();
    assert_eq!(a.listen.to_text(), "/ip4/127.0.0.1/tcp/9");
    assert_eq!((a.db_path.as_str(), a.key_path.as_str(), a.http_port), ("d", "k", 0));
    assert_eq!(a.add_moderator.as_deref(), Some("zap"));
    assert_eq!(a.role, ModRole::Admin);
    assert!(a.remove_moderator.is_none());
    assert!(matches!(parse_args(&strings(&["--help", "x"])), Err(Stop::Help)));
    assert!(matches!(parse_args(&strings(&["--db"])), Err(Stop::NeedsValue(f)) if f == "--db"));
    assert!(matches!(parse_args(&strings(&["--listen", "x"])), Err(Stop::BadListen(_))));
    assert!(matches!(parse_args(&strings(&["--http", "70000"])), Err(Stop::BadPort(_))));
    assert!(matches!(parse_args(&strings(&["--role", "root"])), Err(Stop::BadRole(_))));
    assert!(matches!(parse_args(&strings(&["--what"])), Err(Stop::Unknown(f)) if f == "--what"));
    assert_eq!(needs_value_text("--db"), "--db needs a value");
    assert!(unknown_text("--what").starts_with("unknown argument '--what'\n\nponged-gateway"));
}

#[test]
fn the_advertised_address_has_the_listening_port() {
    let listen = Multiaddr::parse("/ip4/0.0.0.0/tcp/4001").unwrap();
    assert_eq!(default_base("9.8.7.6", &listen).unwrap().to_text(), "/ip4/9.8.7.6/tcp/4001");
    assert_eq!(default_base("host", &listen).err(), Some(NoBase::BadHost));
    let no_port = Multiaddr::parse("/ip4/0.0.0.0").unwrap();
    assert_eq!(default_base("9.8.7.6", &no_port).err(), Some(NoBase::NoPort));
    assert_eq!(SigningKey::from_file(&[7; 32]).unwrap().secret, [7; 32]);
    assert!(SigningKey::from_file(&[7; 31]).is_none());
}

#[test]
fn a_certificate_outlives_what_is_stored() {
    let (a, b) = (peer(1), peer(2));
    let mut lobby = lobby_with(&[(a, "alice", 1200), (b, "bob", 1200)]);
    let mut ledger = Ledger::new();
    let (rating, proof) = report(&mut lobby, &mut ledger, a, b, 1, 5, 3);
    let kept = proof.unwrap();
    let mut lobby = Lobby::new();
    let mut ledger = Ledger::new();
    let ask = GatewayRequest::Register {
        username: "alice".to_string(),
        rating: 0,
        proof: Some(kept.clone()),
    };
    let answer =
        on_gateway_request(&mut lobby, &mut ledger, &key(), &gateway(), &a, ask, NOW).unwrap();
    match answer {
        GatewayResponse::Registered { rating: restored, proof, .. } => {
            assert_eq!(restored, rating);
            assert_eq!(proof.unwrap().seq, kept.seq + 1);
        }
        other => panic!("unexpected {other:?}"),
    }
    assert_eq!(ledger.load_rating(&a), Some((1216, kept.seq + 1)));
    let other = SigningKey { secret: [201; 32] };
    assert!(!verify_proof(&other, &a, &kept));
}
