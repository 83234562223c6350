use ponged::client::ReconnectionState;
use ponged::game::{
    broadcast_snapshot, clamp_speed, displayed_score, game_over_title, match_is_over, GuestView,
    RemoteFrames, Score, SimClock, SimCommand, SimState,
};
use ponged::net::NetCommand;
use ponged::peer::PeerId;
use ponged::protocol::{GameSnapshot, Point2, Request};

#[test]
fn five_points_win() {
    let mut s = Score::new();
    for _ in 0..4 {
        s.goal(true);
        s.goal(false);
    }
    assert_eq!(s, Score { player: 4, opponent: 4, over: false });
    s.goal(false);
    assert!(s.over);
    s.goal(true);
    assert_eq!(s, Score { player: 4, opponent: 5, over: true });
}

#[test]
fn points_are_seen_from_our_side() {
    let s = Score { player: 3, opponent: 1, over: false };
    let w = GameSnapshot { player_score: 4, opponent_score: 2, ..GameSnapshot::default() };
    assert_eq!(displayed_score(true, &s, &Some(w)), Some((3, 1)));
    assert_eq!(displayed_score(false, &s, &Some(w)), Some((2, 4)));
    assert_eq!(displayed_score(false, &s, &None), None);
}

#[test]
fn the_host_says_when_the_match_is_over() {
    let s = Score { player: 5, opponent: 1, over: true };
    let w = GameSnapshot { match_over: true, ..GameSnapshot::default() };
    assert!(match_is_over(true, &s, &None));
    assert!(!match_is_over(true, &Score::new(), &Some(w)));
    assert!(match_is_over(false, &Score::new(), &Some(w)));
    assert!(!match_is_over(false, &s, &Some(GameSnapshot::default())));
    assert!(!match_is_over(false, &s, &None));
}

#[test]
fn the_end_is_announced() {
    assert_eq!(game_over_title(5, 3), "You win! 5 - 3");
    assert_eq!(game_over_title(3, 5), "You lose! 3 - 5");
    assert_eq!(game_over_title(0, 5), "YOU JUST GOT PONGED!");
    assert_eq!(game_over_title(0, 4), "You lose! 0 - 4");
}

#[test]
fn rallies_have_a_fastest_speed() {
    let clamp = |f: f32| f32::from_bits(clamp_speed(f.to_bits()));
    assert_eq!(clamp(0.5), 1.0);
    assert_eq!(clamp(-3.0), 1.0);
    assert_eq!(clamp(1.7), 1.7);
    assert_eq!(clamp(2.5), 2.5);
    assert_eq!(clamp(9.0), 2.5);
    assert_eq!(clamp(f32::INFINITY), 2.5);
    assert_eq!(clamp(f32::NEG_INFINITY), 1.0);
    assert!(clamp(f32::NAN).is_nan());
}

#[test]
fn a_new_host_goes_on() {
    let mut st = SimState::new(None);
    assert_eq!(f32::from_bits(st.player_paddle.x), -380.0);
    assert_eq!(f32::from_bits(st.opponent_paddle.x), 380.0);
    assert_eq!(f32::from_bits(st.ball_velocity.x), -2.0);
    assert_eq!(f32::from_bits(st.ball_velocity.y), 2.0);
    st.score = Score { player: 3, opponent: 1, over: false };
    st.seq = 77;
    st.player_paddle.y = 12.5f32.to_bits();
    let there = SimState::new(Some(st.build_snapshot()));
    assert_eq!(there.score, Score { player: 1, opponent: 3, over: false });
    assert_eq!(there.seq, 77);
    assert_eq!(f32::from_bits(there.opponent_paddle.y), 12.5);
    let back = SimState::new(Some(there.build_snapshot()));
    assert_eq!(back.score, st.score);
    assert_eq!(back.player_paddle, st.player_paddle);
}

#[test]
fn commands_reach_the_simulation() {
    let mut st = SimState::new(None);
    st.apply(SimCommand::SetPlayerVelocity(1));
    st.apply(SimCommand::RemotePaddle(2));
    assert_eq!((st.player_velocity, st.opponent_target_y), (1, 2));
}

#[test]
fn the_clock_pays_what_it_owes() {
    let mut clock = SimClock::new();
    let due = clock.advance(16_000_000);
    assert_eq!((due.steps, due.snapshot), (1, false));
    assert_eq!(clock.owed, 375_000);
    let due = clock.advance(17_333_000);
    assert_eq!((due.steps, due.snapshot), (1, true));
    assert_eq!(clock.since_snapshot, 0);
    assert_eq!(clock.advance(u64::MAX).steps, 8);
}

#[test]
fn old_snapshots_are_dropped() {
    let at = |seq: u64| GameSnapshot { seq, ..GameSnapshot::default() };
    let mut f = RemoteFrames::new();
    assert!(f.promote(at(3)));
    assert!(!f.promote(at(3)));
    assert!(!f.promote(at(2)));
    assert!(f.promote(at(5)));
    assert_eq!(f.prev.unwrap().seq, 3);
    assert_eq!(f.curr.unwrap().seq, 5);
}

#[test]
fn guests_send_their_paddle() {
    let key = libp2p::identity::Keypair::ed25519_from_bytes([1; 32]).unwrap();
    let rival = PeerId::from_bytes(&key.public().to_peer_id().to_bytes()).unwrap();
    let p = |x: f32, y: f32| Point2 { x: x.to_bits(), y: y.to_bits() };
    let view = GuestView {
        ball: p(10.0, 1.0),
        ball_velocity: p(2.0, 0.0),
        player_paddle: p(-380.0, 7.0),
        opponent_paddle: p(380.0, -7.0),
    };
    let mut seq = 0;
    let score = Score::new();
    let here = ReconnectionState::new();
    let out = broadcast_snapshot(&mut seq, false, &view, &score, &None, &Some(rival), &here);
    assert_eq!(seq, 1);
    match &out[0] {
        NetCommand::SendRequest { request: Request::State(s), .. } => {
            assert_eq!(s.seq, 0);
            assert_eq!(f32::from_bits(s.player_paddle.y), 7.0);
            assert!(!s.is_host);
        }
        _ => panic!("no state sent"),
    }
    assert!(broadcast_snapshot(&mut seq, false, &view, &score, &None, &None, &here).is_empty());
}
