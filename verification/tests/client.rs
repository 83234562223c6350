use ponged::addr::{circuit_addresses, is_circuit, multiaddr_to_socket, port_of, Host, Multiaddr};
use ponged::chat::{
    chat_line, name_in_chat, on_chat_message, record_ping, submit_chat, ChatBuffer, PingHistory,
};
use ponged::client::{
    cancel_pairing, drop_peer, enter_pending_match, leave_match, on_enter_playing,
    on_game_request, on_gateway_request, on_gateway_response, on_identity, on_match_found,
    on_peer_connected,
    on_exit_playing, on_peer_disconnected, on_peer_identified, on_relay_reservation, on_rendezvous_discovered, press_play,
    update_discovery, update_prematch, update_reconnection, Credentials, MatchState,
    PreMatchButton, ReconnectionState, Screen, NAMESPACE,
};
use ponged::graph::{initial_angle, orbit_speed, peer_hash, update_node_graph, wanted_nodes};
use ponged::history::MatchHistory;
use ponged::labels::{
    dialog_label, dialog_remaining, elo_label, gateway_line, load_settings, peer_label, record_line, release_found,
    save_name, status_line, update_onboarding, update_options, visible_players, you_line,
    OptionsButton,
};
use ponged::net::{
    is_gateway_agent, on_swarm_event, GatewayState, NetCommand, NetEvent, SwarmAction, SwarmInput,
};
use ponged::peer::{short_peer, PeerId};
use ponged::prematch::{PreMatch, Timer};
use ponged::protocol::{GameSnapshot, GatewayRequest, GatewayResponse, Request};
use ponged::servers::{load_gateway_addresses, sort_servers_by_ping, ServerEntry};
use ponged::table::Table;

const SECOND: u64 = 1_000_000_000;

fn outside_peer(n: u8) -> libp2p::PeerId {
    let key = libp2p::identity::Keypair::ed25519_from_bytes([n; 32]).unwrap();
    key.public().to_peer_id()
}

fn peer(n: u8) -> PeerId {
    PeerId::from_bytes(&outside_peer(n).to_bytes()).unwrap()
}

fn addr(text: &str) -> Multiaddr {
    Multiaddr::parse(text).unwrap()
}

fn who() -> Credentials {
    Credentials { username: "ana".to_string(), rating: 900, proof: None }
}

fn connected_gateway() -> GatewayState {
    let mut g = GatewayState::new();
    g.addr = Some(addr("/ip4/1.2.3.4/tcp/4001"));
    g.peer = Some(peer(9));
    g.connected = true;
    g.reserved = true;
    g
}

fn history() -> MatchHistory {
    let mut h = MatchHistory::new();
    h.ensure_open(Vec::new(), Table::new());
    h
}

#[test]
fn addresses_are_read_and_written() {
    let a = addr("/ip4/1.2.3.4/tcp/4001");
    assert_eq!(a.to_text(), "/ip4/1.2.3.4/tcp/4001");
    assert_eq!(port_of(&a), Some(4001));
    assert_eq!(multiaddr_to_socket(&a), Some((Host::V4(0x01020304), 4001)));
    let six = addr("/ip6/::1/tcp/5");
    assert_eq!(multiaddr_to_socket(&six), Some((Host::V6(1), 5)));
    assert!(multiaddr_to_socket(&addr("/dns4/example.org/tcp/1")).is_none());
    assert!(Multiaddr::parse("nothing").is_none());
    assert!(!is_circuit(&a));
    let texts = circuit_addresses(&vec![a], &peer(1), &peer(2));
    let want = format!(
        "/ip4/1.2.3.4/tcp/4001/p2p/{}/p2p-circuit/p2p/{}",
        outside_peer(1),
        outside_peer(2)
    );
    assert_eq!(texts, vec![want.clone()]);
    let c = addr(&want);
    assert!(is_circuit(&c));
    assert_eq!(
        c.base().to_text(),
        format!("/ip4/1.2.3.4/tcp/4001/p2p/{}/p2p-circuit", outside_peer(1))
    );
}

#[test]
fn gateways_are_asked_for_a_route() {
    assert!(is_gateway_agent("pong-gateway/1.0.0"));
    assert!(!is_gateway_agent("pong/1.0.0"));
    let mut g = GatewayState::new();
    g.addr = Some(addr("/ip4/1.2.3.4/tcp/4001"));
    assert!(on_identity(&mut g, &peer(9), "pong/1.0.0").is_empty());
    assert!(!g.connected);
    let out = on_identity(&mut g, &peer(9), "pong-gateway/1.0.0");
    assert_eq!(out.len(), 1);
    match &out[0] {
        NetCommand::Listen(a) => assert_eq!(
            a.to_text(),
            format!("/ip4/1.2.3.4/tcp/4001/p2p/{}/p2p-circuit", outside_peer(9))
        ),
        _ => panic!("no route asked for"),
    }
    assert_eq!(g.peer, Some(peer(9)));
    assert!(on_relay_reservation(&mut g, &who(), &peer(8), true).is_empty());
    assert!(!g.reserved);
    let out = on_relay_reservation(&mut g, &who(), &peer(9), true);
    assert!(g.reserved);
    assert!(matches!(
        &out[0],
        NetCommand::SendGatewayRequest { request: GatewayRequest::Register { username, rating: 900, .. }, .. }
            if username == "ana"
    ));
    assert!(matches!(
        &out[1],
        NetCommand::RendezvousRegister { namespace, .. } if namespace == NAMESPACE
    ));
}

#[test]
fn answers_of_the_gateway_are_adopted() {
    let mut g = connected_gateway();
    let registered = GatewayResponse::Registered {
        username: "ana".to_string(),
        rating: 1300,
        rank: "Silver".to_string(),
        proof: None,
    };
    let r = on_gateway_response(&mut g, true, &peer(9), registered.clone());
    assert!(matches!(
        r.commands[0],
        NetCommand::SendGatewayRequest { request: GatewayRequest::QueueMatch, .. }
    ));
    assert_eq!(r.adopted.unwrap().rating, 1300);
    assert_eq!(g.rank.as_deref(), Some("Silver"));
    assert!(on_gateway_response(&mut g, false, &peer(9), registered).commands.is_empty());
    on_gateway_response(&mut g, true, &peer(9), GatewayResponse::Queued { position: 3 });
    assert!(g.queued);
    on_gateway_response(&mut g, true, &peer(9), GatewayResponse::Dequeued);
    assert!(!g.queued);
    let r = on_gateway_response(&mut g, true, &peer(9), GatewayResponse::Error("x".to_string()));
    assert!(r.adopted.is_none());
}

#[test]
fn matches_found_are_dialled_and_replace_a_pairing() {
    let mut state = MatchState::new();
    let mut pre = PreMatch::new();
    let mut g = connected_gateway();
    let mut h = history();
    pre.begin(peer(2));
    let found = GatewayRequest::MatchFound {
        match_id: 7,
        opponent: peer(3).to_base58(),
        addresses: vec!["/ip4/1.1.1.1/tcp/1".to_string(), "bad".to_string()],
    };
    let r = on_gateway_request(&mut state, &mut pre, &mut g, &mut h, found);
    assert_eq!(r.commands.len(), 2);
    assert!(matches!(
        &r.commands[0],
        NetCommand::SendRequest { peer: p, request: Request::DeclineMatch } if *p == peer(2)
    ));
    assert!(matches!(&r.commands[1], NetCommand::Dial(a) if a.to_text() == "/ip4/1.1.1.1/tcp/1"));
    assert_eq!(pre.opponent, Some(peer(3)));
    assert!(pre.is_rejected(&peer(2)));
    assert_eq!(state.active_match, 7);
    let out = on_match_found(&mut state, &mut pre, &peer(4), 7, &Vec::new());
    assert_eq!(out.len(), 1);
    assert_eq!((state.matched, pre.opponent), (Some(peer(4)), Some(peer(4))));
    let unreadable = GatewayRequest::MatchFound {
        match_id: 8,
        opponent: "?".to_string(),
        addresses: Vec::new(),
    };
    on_gateway_request(&mut state, &mut pre, &mut g, &mut h, unreadable);
    assert_eq!(state.active_match, 7);
}

#[test]
fn moderated_ratings_are_adopted() {
    let mut state = MatchState::new();
    let mut pre = PreMatch::new();
    let mut g = connected_gateway();
    let mut h = history();
    let revoked = GatewayRequest::MatchRevoked { match_id: 4, rating: 1200, proof: None };
    let r = on_gateway_request(&mut state, &mut pre, &mut g, &mut h, revoked);
    assert_eq!(r.adopted.unwrap().rating, 1200);
    assert_eq!((g.rating, g.rank.as_deref()), (1200, Some("Silver")));
    let corrected = GatewayRequest::MatchCorrected {
        match_id: 4,
        my_score: 0,
        opponent_score: 5,
        rating: 980,
        proof: None,
    };
    on_gateway_request(&mut state, &mut pre, &mut g, &mut h, corrected);
    assert_eq!(g.rank.as_deref(), Some("Brick"));
}

#[test]
fn both_have_to_accept() {
    let (a, b) = (peer(1), peer(2));
    let g = GatewayState::new();
    let mut state = MatchState::new();
    state.local = Some(a);
    let mut pre = PreMatch::new();
    let mut names: Table<PeerId, String> = Table::new();
    on_game_request(&mut state, &mut pre, &mut names, &b, &Request::InviteToPlay);
    assert_eq!(pre.opponent, Some(b));
    let out = update_prematch(
        &mut state, &mut pre, false, &g, &vec![b], Some(PreMatchButton::Accept), 0,
    );
    assert!(matches!(
        out[0],
        NetCommand::SendRequest { request: Request::AcceptMatch, .. }
    ));
    assert!(pre.countdown.is_none());
    on_game_request(&mut state, &mut pre, &mut names, &b, &Request::AcceptMatch);
    assert!(pre.countdown.is_some());
    let label = dialog_label(&pre, &names, 5).unwrap();
    assert_eq!(dialog_remaining(&pre), Some(5 * SECOND));
    assert_eq!(label, format!("¡Aceptada! {}\nLa partida empieza en 5…", short_peer(&b)));
    let out = update_prematch(&mut state, &mut pre, false, &g, &vec![b], None, 5 * SECOND);
    assert!(out.is_empty());
    assert_eq!(state.opponent, Some(b));
    assert_eq!(state.next, Some(Screen::Playing));
    assert_eq!(state.is_host, outside_peer(1) < outside_peer(2));
    let mut other = MatchState::new();
    other.local = Some(b);
    let mut other_pre = PreMatch::new();
    on_game_request(&mut other, &mut other_pre, &mut names, &a, &Request::MatchStart);
    assert_ne!(other.is_host, state.is_host);
}

#[test]
fn pairings_run_out_or_are_rejected() {
    let b = peer(2);
    let g = GatewayState::new();
    let mut state = MatchState::new();
    let mut pre = PreMatch::new();
    pre.begin(b);
    let names: Table<PeerId, String> = Table::new();
    let label = dialog_label(&pre, &names, 20).unwrap();
    assert_eq!(dialog_remaining(&pre), Some(20 * SECOND));
    assert_eq!(
        label,
        format!("Emparejado con {}\n¿Aceptas la partida?  (20 s)", short_peer(&b))
    );
    let out = update_prematch(&mut state, &mut pre, false, &g, &vec![b], None, 20 * SECOND);
    assert!(pre.idle());
    assert!(pre.is_rejected(&b));
    assert!(matches!(out[0], NetCommand::SendRequest { request: Request::DeclineMatch, .. }));
    pre.forgive();
    assert!(!pre.is_rejected(&b));
    pre.begin(b);
    update_prematch(
        &mut state, &mut pre, false, &g, &vec![b], Some(PreMatchButton::Reject), 0,
    );
    assert!(pre.idle());
    assert!(dialog_label(&pre, &names, 0).is_none());
    assert!(cancel_pairing(&mut pre).is_empty());
}

#[test]
fn searching_invites_whoever_is_there() {
    let mut g = connected_gateway();
    let mut pre = PreMatch::new();
    let mut search = false;
    let peers = vec![peer(9), peer(3), peer(4)];
    let out = press_play(&mut search, &mut g, &who(), &peers, &mut pre, None);
    assert!(search);
    assert_eq!(out.len(), 2);
    assert!(matches!(
        &out[1],
        NetCommand::SendRequest { peer: p, request: Request::InviteToPlay } if *p == peer(3)
    ));
    assert_eq!(pre.opponent, Some(peer(3)));
    press_play(&mut search, &mut g, &who(), &peers, &mut pre, None);
    assert!(!search);
    assert!(pre.idle());
    let mut unknown = GatewayState::new();
    let out = press_play(&mut search, &mut unknown, &who(), &Vec::new(), &mut pre, Some("??"));
    assert!(matches!(&out[0], NetCommand::Dial(a) if a.to_text() == "/ip4/127.0.0.1/tcp/4001"));
}

#[test]
fn discovery_asks_at_once_and_then_by_the_clock() {
    let g = connected_gateway();
    let mut timer = Timer::repeating(5 * SECOND);
    let mut was_ready = false;
    assert_eq!(update_discovery(&mut timer, &mut was_ready, true, &g, 1).len(), 1);
    assert!(update_discovery(&mut timer, &mut was_ready, true, &g, 1).is_empty());
    assert_eq!(update_discovery(&mut timer, &mut was_ready, true, &g, 5 * SECOND).len(), 1);
    assert!(update_discovery(&mut timer, &mut was_ready, false, &g, 5 * SECOND).is_empty());
    assert!(!was_ready);
    let found = vec![
        (peer(3), vec![addr("/ip4/1.1.1.1/tcp/1")]),
        (peer(4), vec![addr("/ip4/2.2.2.2/tcp/2")]),
    ];
    let out = on_rendezvous_discovered(&vec![peer(3)], &found);
    assert_eq!(out.len(), 1);
    assert!(matches!(&out[0], NetCommand::Dial(a) if a.to_text() == "/ip4/2.2.2.2/tcp/2"));
}

#[test]
fn timers_tick() {
    let mut t = Timer::once(10);
    assert!(!t.tick(4));
    assert!(t.tick(6));
    assert!(!t.tick(1));
    t.reset();
    assert!(t.tick(100));
    let mut t = Timer::repeating(10);
    assert!(t.tick(25));
    assert_eq!(t.elapsed, 5);
    let mut t = Timer::once(1_500_000_000);
    t.tick(400_000_000);
    assert_eq!(t.remaining(), 1_100_000_000);
    t.tick(2_000_000_000);
    assert_eq!(t.remaining(), 0);
}

#[test]
fn guests_take_over_and_hosts_wait() {
    let b = peer(2);
    let mut state = MatchState::new();
    let mut reconn = ReconnectionState::new();
    state.screen = Screen::Playing;
    state.opponent = Some(b);
    assert!(on_peer_disconnected(&mut state, &mut reconn, &b, false));
    assert!(state.is_host);
    assert!(!on_peer_disconnected(&mut state, &mut reconn, &b, true));
    assert!(reconn.active);
    assert_eq!(state.next, Some(Screen::Menu));
    update_reconnection(&mut reconn, 9 * SECOND);
    assert!(reconn.active);
    let mut peers = vec![peer(3)];
    let pre = PreMatch::new();
    let (out, back) =
        on_peer_connected(&mut peers, &mut state, &pre, &mut reconn, &"ana".to_string(), &b);
    assert!(back);
    assert!(!reconn.active);
    assert!(matches!(
        &out[0],
        NetCommand::SendRequest { request: Request::Hello { name }, .. } if name == "ana"
    ));
    assert_eq!(peers, vec![peer(3), b]);
    drop_peer(&mut peers, &peer(3));
    assert_eq!(peers, vec![b]);
    state.screen = Screen::Playing;
    on_peer_disconnected(&mut state, &mut reconn, &b, true);
    update_reconnection(&mut reconn, 10 * SECOND);
    assert!(!reconn.active);
    assert!(reconn.target.is_none());
}

#[test]
fn leaving_hands_the_match_over() {
    let b = peer(2);
    let mut state = MatchState::new();
    state.screen = Screen::Playing;
    state.opponent = Some(b);
    state.is_host = true;
    let snapshot = GameSnapshot { seq: 5, ..GameSnapshot::default() };
    let out = leave_match(&mut state, Some(snapshot));
    assert!(out.iter().any(|c| matches!(
        c,
        NetCommand::SendRequest { request: Request::MigrateHost(s), .. } if s.seq == 5
    )));
    let mut state = MatchState::new();
    let mut names: Table<PeerId, String> = Table::new();
    let mut pre = PreMatch::new();
    state.screen = Screen::Playing;
    let r = on_game_request(
        &mut state, &mut pre, &mut names, &b, &Request::MigrateHost(snapshot),
    );
    assert_eq!(r.seed, Some(snapshot));
    assert!(state.is_host);
    assert!(matches!(
        r.commands[0],
        NetCommand::SendRequest { request: Request::HostMigrated, .. }
    ));
    on_game_request(&mut state, &mut pre, &mut names, &b, &Request::MatchAbort);
    assert_eq!(state.next, Some(Screen::Menu));
}

#[test]
fn playing_ends_the_search() {
    let mut g = connected_gateway();
    g.queued = true;
    let mut search = true;
    let out = on_enter_playing(&mut search, &g);
    assert!(!search);
    assert!(matches!(
        out[0],
        NetCommand::SendGatewayRequest { request: GatewayRequest::LeaveQueue, .. }
    ));
    let mut state = MatchState::new();
    state.pending = Some(peer(2));
    state.opponent = Some(peer(1));
    state.active_match = 7;
    on_exit_playing(&mut state);
    assert_eq!((state.opponent, state.active_match), (None, 0));
    enter_pending_match(&mut state);
    assert_eq!(state.next, Some(Screen::Playing));
    assert_eq!(state.opponent, Some(peer(2)));
}

#[test]
fn players_are_challenged_once_they_are_known() {
    let g = connected_gateway();
    let mut pre = PreMatch::new();
    assert!(on_peer_identified(&mut pre, false, &g, &peer(2), "pong/1.0.0").is_empty());
    assert!(on_peer_identified(&mut pre, true, &g, &peer(9), "pong-gateway/1.0.0").is_empty());
    let out = on_peer_identified(&mut pre, true, &g, &peer(2), "pong/1.0.0");
    assert!(matches!(out[0], NetCommand::SendRequest { request: Request::InviteToPlay, .. }));
    assert_eq!(pre.opponent, Some(peer(2)));
    assert!(on_peer_identified(&mut pre, true, &g, &peer(3), "pong/1.0.0").is_empty());
}

#[test]
fn chat_goes_to_everybody() {
    let mut buffer = ChatBuffer::new();
    let (sent, out) =
        submit_chat(&mut buffer, &"ana".to_string(), "hola", &vec![peer(1), peer(2)]);
    assert!(sent);
    assert_eq!(out.len(), 2);
    let (sent, out) = submit_chat(&mut buffer, &"ana".to_string(), "", &vec![peer(1)]);
    assert!(!sent);
    assert!(out.is_empty());
    let mut names: Table<PeerId, String> = Table::new();
    names.insert(peer(1), "eva".to_string());
    on_chat_message(&mut buffer, &names, &peer(1), &"buenas".to_string());
    assert_eq!(chat_line(&buffer.messages[1]), "eva: buenas");
    assert_eq!(name_in_chat(&names, &peer(1)), "eva");
    for n in 0..60 {
        on_chat_message(&mut buffer, &names, &peer(1), &n.to_string());
    }
    assert_eq!(buffer.messages.len(), 50);
    assert_eq!(buffer.messages[49].text, "59");
}

fn server(address: &str, ping_ms: Option<u64>) -> ServerEntry {
    ServerEntry { address: address.to_string(), ping_ms }
}

#[test]
fn servers_are_sorted_by_ping() {
    let sorted = sort_servers_by_ping(vec![
        server("a", None),
        server("b", Some(30)),
        server("c", Some(10)),
        server("d", Some(30)),
        server("e", None),
    ]);
    let order: Vec<&str> = sorted.iter().map(|s| s.address.as_str()).collect();
    assert_eq!(order, vec!["c", "b", "d", "a", "e"]);
    let mut pings = PingHistory { entries: Table::new() };
    for now in 0..70u64 {
        record_ping(&mut pings, &sorted, now);
    }
    let list = pings.entries.get(&"c".to_string()).unwrap();
    assert_eq!(list.entries.len(), 60);
    assert_eq!((list.entries[59].timestamp, list.entries[59].latency_ms), (69, 10));
    assert_eq!(pings.entries.get(&"a".to_string()).unwrap().entries[0].latency_ms, 0);
}

#[test]
fn gateway_addresses_come_from_the_file_or_the_environment() {
    let from_file = load_gateway_addresses(Some(vec![server("f", None)]), Some("e"));
    assert_eq!(from_file[0].address, "f");
    let from_env = load_gateway_addresses(None, Some(" a , ,b"));
    let texts: Vec<&str> = from_env.iter().map(|s| s.address.as_str()).collect();
    assert_eq!(texts, vec!["a", "b"]);
}

#[test]
fn names_are_asked_for_and_saved() {
    let mut h = history();
    assert_eq!(load_settings(&h), ("Player".to_string(), true));
    let mut who = who();
    let mut asking = true;
    assert!(update_onboarding(&mut who, &mut h, false, None, "  ", &mut asking).is_empty());
    assert!(asking);
    update_onboarding(&mut who, &mut h, false, None, " eva ", &mut asking);
    assert!(!asking);
    assert_eq!(who.username, "eva");
    assert_eq!(load_settings(&h), ("eva".to_string(), false));
    let out = save_name(&mut who, &mut h, true, Some(peer(9)), "ana");
    assert!(matches!(
        &out[0],
        NetCommand::SendGatewayRequest { request: GatewayRequest::Register { username, .. }, .. }
            if username == "ana"
    ));
    assert!(save_name(&mut who, &mut h, true, Some(peer(9)), "ana").is_empty());
    let mut open = true;
    update_options(&mut who, &mut h, false, None, "leo", OptionsButton::Back, &mut open);
    assert_eq!((who.username.as_str(), open), ("ana", false));
    open = true;
    update_options(&mut who, &mut h, false, None, "leo", OptionsButton::Save, &mut open);
    assert_eq!((who.username.as_str(), open), ("leo", false));
}

#[test]
fn the_menu_says_what_goes_on() {
    let mut g = connected_gateway();
    let pre = PreMatch::new();
    let peers = vec![peer(9), peer(1)];
    assert_eq!(visible_players(&peers, &g.peer), 1);
    assert_eq!(status_line(&pre, true, &peers, &g), "Buscando… 1 jugador en el área.");
    assert_eq!(status_line(&pre, true, &vec![peer(9)], &g), "Buscando rivales en LAN y WAN…");
    assert_eq!(gateway_line(&g, &None), "Gateway: listo");
    assert_eq!(you_line("ana", &g, &None), "ana");
    assert_eq!(elo_label(&g, 30), "");
    g.rank = Some("Bronze".to_string());
    g.rating = 1060;
    g.queued = true;
    assert_eq!(gateway_line(&g, &None), "Gateway: en cola · rango Bronze");
    assert_eq!(you_line("ana", &g, &None), "ana  ·  Bronze");
    assert_eq!(elo_label(&g, 30), "1060 ELO · 30% para Silver");
    g.rating = 2400;
    g.rank = Some("Pong Legend".to_string());
    assert_eq!(elo_label(&g, 100), "2400 ELO · Pong Legend");
    assert_eq!(record_line(&history()), "");
    let mut names: Table<PeerId, String> = Table::new();
    assert_eq!(peer_label(&names, &peer(1)), short_peer(&peer(1)));
    names.insert(peer(1), "eva".to_string());
    assert_eq!(peer_label(&names, &peer(1)), "eva");
    let u = release_found(None, Some("u".to_string()));
    assert_eq!(u.latest_version.as_deref(), Some("unknown"));
    assert!(u.available);
}

#[test]
fn the_graph_follows_the_players() {
    let mut h: u32 = 2_166_136_261;
    for b in outside_peer(1).to_bytes() {
        h = (h ^ b as u32).wrapping_mul(16_777_619);
    }
    assert_eq!(peer_hash(&peer(1)), h);
    assert_eq!(initial_angle(&peer(1)), h % 628);
    assert_eq!(orbit_speed(&peer(1)), h % 100);
    let peers: Vec<PeerId> = (1..=20).map(peer).collect();
    let wanted = wanted_nodes(&peers, &Some(peer(2)));
    assert_eq!(wanted.len(), 12);
    assert!(!wanted.contains(&peer(2)));
    let change = update_node_graph(true, &vec![peer(30), peer(1)], &peers, &None);
    assert_eq!(change.remove, vec![peer(30)]);
    assert_eq!(change.add.len(), 11);
    let change = update_node_graph(false, &vec![peer(1)], &peers, &None);
    assert_eq!(change.remove, vec![peer(1)]);
    assert!(change.add.is_empty());
}

#[test]
fn swarm_events_become_actions() {
    let local = peer(1);
    let out = on_swarm_event(
        &local,
        false,
        SwarmInput::GameRequest { peer: peer(2), request: Request::InviteToPlay },
    );
    assert!(out.iter().any(|a| matches!(a, SwarmAction::AckGame)));
    assert!(out
        .iter()
        .any(|a| matches!(a, SwarmAction::Emit(NetEvent::GameRequest { .. }))));
    let out = on_swarm_event(
        &local,
        false,
        SwarmInput::Closed { peer: peer(2), still_connected: true },
    );
    assert!(out.is_empty());
    let out = on_swarm_event(
        &local,
        false,
        SwarmInput::Closed { peer: peer(2), still_connected: false },
    );
    assert!(matches!(&out[0], SwarmAction::Emit(NetEvent::PeerDisconnected(p)) if *p == peer(2)));
}
