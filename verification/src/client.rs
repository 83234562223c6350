//! The client's reactions to the network: the gateway, other players, and who
//! plays whom.
use vstd::prelude::*;

use crate::addr::{circuit_part, p2p_part, text_addr_parts, Multiaddr, PartView};
use crate::history::{after_correction, after_revocation, HistoryView, MatchHistory};
use crate::net::{
    base_addr_of, command_views, is_gateway_agent, no_commands, send, GatewayState,
    GatewayStateView, NetCommand, NetCommandView,
};
use crate::peer::{parsed_peer, peer_less, same_peer, PeerId};
use crate::prematch::{
    accepted_by, begun, cancelled, ends_with, no_pairing, once_of, self_accept, ticked, PreMatch,
    PreView, Timer, PREMATCH_RESUME_NANOS,
};
use crate::protocol::{
    copy_proof, proof_view, rank_for_rating, rank_of, texts, GameSnapshot, GatewayRequest,
    GatewayRequestView, GatewayResponse, GatewayResponseView, ProofView, RatingProof, Request,
    GATEWAY_AGENT_VERSION, RANKS,
};
use crate::table::{Same, Table};
use crate::text::contains_text;

verus! {

/// The address of the gateway that is dialled where no other is known.
pub const GATEWAY_DEFAULT_ADDR: &'static str = "/ip4/127.0.0.1/tcp/4001";

/// Where players make themselves known to each other.
pub const NAMESPACE: &'static str = "/pong/all";

/// How long an opponent who dropped out has to come back.
pub const RECONNECT_NANOS: u64 = 10_000_000_000;

/// How often a rendezvous server is asked while searching.
pub const DISCOVERY_NANOS: u64 = 5_000_000_000;

/// The two screens.
#[derive(Clone, Copy, PartialEq, Eq, Structural, Debug)]
pub enum Screen {
    Menu,
    Playing,
}

/// What the player does on the matchmaking screen.
#[derive(Clone, Copy, PartialEq, Eq, Structural, Debug)]
pub enum MatchIntent {
    Idle,
    Hosting,
}

/// Who we are and whom we play.
#[derive(Clone, Copy)]
pub struct MatchState {
    pub screen: Screen,
    /// The screen to go to next.
    pub next: Option<Screen>,
    pub local: Option<PeerId>,
    pub opponent: Option<PeerId>,
    /// A challenger to play with once the running match is torn down.
    pub pending: Option<PeerId>,
    /// Whether we run the simulation.
    pub is_host: bool,
    pub intent: MatchIntent,
    /// Whom the gateway matched us with and who is not connected yet.
    pub matched: Option<PeerId>,
    /// The gateway's number of the match, or zero.
    pub active_match: u64,
}

impl MatchState {
    pub fn new() -> (r: MatchState)
        ensures
            r == (MatchState {
                screen: Screen::Menu,
                next: None,
                local: None,
                opponent: None,
                pending: None,
                is_host: false,
                intent: MatchIntent::Idle,
                matched: None,
                active_match: 0,
            }),
    {
        MatchState {
            screen: Screen::Menu,
            next: None,
            local: None,
            opponent: None,
            pending: None,
            is_host: false,
            intent: MatchIntent::Idle,
            matched: None,
            active_match: 0,
        }
    }
}

/// What is done about an opponent who dropped out.
#[derive(Clone, Copy)]
pub struct ReconnectionState {
    pub target: Option<PeerId>,
    pub countdown: Option<Timer>,
    pub active: bool,
}

/// Nobody has dropped out.
pub open spec fn all_here() -> ReconnectionState {
    ReconnectionState { target: None, countdown: None, active: false }
}

impl ReconnectionState {
    pub fn new() -> (r: ReconnectionState)
        ensures
            r == all_here(),
    {
        ReconnectionState { target: None, countdown: None, active: false }
    }
}

/// What we register with.
pub struct Credentials {
    pub username: String,
    pub rating: i32,
    pub proof: Option<RatingProof>,
}

pub open spec fn register_view(c: Credentials) -> GatewayRequestView {
    GatewayRequestView::Register {
        username: c.username@,
        rating: c.rating,
        proof: proof_view(c.proof),
    }
}

pub fn register_request(c: &Credentials) -> (r: GatewayRequest)
    ensures
        r@ == register_view(*c),
{
    GatewayRequest::Register {
        username: c.username.clone(),
        rating: c.rating,
        proof: copy_proof(&c.proof),
    }
}

/// A command that sends a game message.
pub open spec fn to_player(peer: PeerId, request: Request) -> NetCommandView {
    NetCommandView::SendRequest { peer, request }
}

/// A command that sends a call to a gateway.
pub open spec fn to_gateway(peer: PeerId, request: GatewayRequestView) -> NetCommandView {
    NetCommandView::SendGatewayRequest { peer, request }
}

// ---------------------------------------------------------------------------
// The gateway
// ---------------------------------------------------------------------------

/// The request for a relayed route through the gateway.
pub open spec fn reservation(g: GatewayStateView, peer: PeerId) -> Seq<NetCommandView> {
    match base_addr_of(g) {
        Some(base) => seq![
            NetCommandView::Listen(base.push(p2p_part(peer)).push(circuit_part())),
        ],
        None => Seq::empty(),
    }
}

fn reserve(gateway: &GatewayState, peer: &PeerId) -> (r: Vec<NetCommand>)
    requires
        peer.wf(),
    ensures
        command_views(r@) == reservation(gateway@, *peer),
{
    let mut out = no_commands();
    if let Some(base) = gateway.base_addr() {
        let mut addr = base;
        addr.push_peer(peer);
        addr.push_circuit();
        send(&mut out, NetCommand::Listen(addr));
    }
    assert(command_views(out@) =~= reservation(gateway@, *peer));
    out
}

/// The gateway after a node has told what it is.
pub open spec fn identified(
    g: GatewayStateView,
    peer: PeerId,
    agent: Seq<char>,
) -> GatewayStateView {
    if contains_text(agent, GATEWAY_AGENT_VERSION@) {
        GatewayStateView { peer: Some(peer), connected: true, ..g }
    } else {
        g
    }
}

/// A node has told what it is. A gateway is asked for a relayed route.
pub fn on_identity(gateway: &mut GatewayState, peer: &PeerId, agent: &str) -> (r: Vec<NetCommand>)
    requires
        peer.wf(),
    ensures
        final(gateway)@ == identified(old(gateway)@, *peer, agent@),
        command_views(r@) == if contains_text(agent@, GATEWAY_AGENT_VERSION@) {
            reservation(final(gateway)@, *peer)
        } else {
            Seq::empty()
        },
{
    if !is_gateway_agent(agent) {
        return no_commands();
    }
    gateway.peer = Some(*peer);
    gateway.connected = true;
    reserve(gateway, peer)
}

/// The relayed route is there: we register and make ourselves known.
pub fn on_relay_reservation(
    gateway: &mut GatewayState,
    who: &Credentials,
    relay_peer: &PeerId,
    success: bool,
) -> (r: Vec<NetCommand>)
    ensures
        ({
            let ours = success && old(gateway)@.peer == Some(*relay_peer);
            &&& final(gateway)@ == if ours {
                GatewayStateView { reserved: true, ..old(gateway)@ }
            } else {
                old(gateway)@
            }
            &&& command_views(r@) == if ours {
                seq![
                    to_gateway(*relay_peer, register_view(*who)),
                    NetCommandView::RendezvousRegister {
                        peer: *relay_peer,
                        namespace: NAMESPACE@,
                    },
                ]
            } else {
                Seq::empty()
            }
        }),
{
    let mut out = no_commands();
    if success && same_peer(&gateway.peer, &Some(*relay_peer)) {
        gateway.reserved = true;
        send(
            &mut out,
            NetCommand::SendGatewayRequest { peer: *relay_peer, request: register_request(who) },
        );
        send(
            &mut out,
            NetCommand::RendezvousRegister { peer: *relay_peer, namespace: NAMESPACE.to_owned() },
        );
        assert(command_views(out@) =~= seq![
            to_gateway(*relay_peer, register_view(*who)),
            NetCommandView::RendezvousRegister { peer: *relay_peer, namespace: NAMESPACE@ },
        ]);
    }
    out
}

/// A rating that the gateway has certified, to be kept.
pub struct Adopted {
    pub rating: i32,
    pub proof: Option<RatingProof>,
}

pub open spec fn adopted_view(a: Option<Adopted>) -> Option<(i32, Option<ProofView>)> {
    match a {
        Some(a) => Some((a.rating, proof_view(a.proof))),
        None => None,
    }
}

/// What is done about a message, and the rating to keep.
pub struct Reaction {
    pub commands: Vec<NetCommand>,
    pub adopted: Option<Adopted>,
}

/// The gateway after its answer.
pub open spec fn answered(g: GatewayStateView, response: GatewayResponseView) -> GatewayStateView {
    match response {
        GatewayResponseView::Registered { username, rating, rank, proof } => GatewayStateView {
            rank: Some(rank),
            rating,
            queued: false,
            ..g
        },
        GatewayResponseView::Queued { position } => GatewayStateView { queued: true, ..g },
        GatewayResponseView::Dequeued => GatewayStateView { queued: false, ..g },
        GatewayResponseView::Rating { rating, rank, proof } => GatewayStateView {
            rank: Some(rank),
            rating,
            ..g
        },
        GatewayResponseView::Pong => g,
        GatewayResponseView::Error(text) => g,
    }
}

/// The rating that an answer certifies.
pub open spec fn certified(response: GatewayResponseView) -> Option<(i32, Option<ProofView>)> {
    match response {
        GatewayResponseView::Registered { username, rating, rank, proof } => Some((rating, proof)),
        GatewayResponseView::Rating { rating, rank, proof } => Some((rating, proof)),
        _ => None,
    }
}

/// The gateway has answered. Whoever is registered and searching joins the
/// queue; a certified rating is kept.
pub fn on_gateway_response(
    gateway: &mut GatewayState,
    search: bool,
    peer: &PeerId,
    response: GatewayResponse,
) -> (r: Reaction)
    ensures
        final(gateway)@ == answered(old(gateway)@, response@),
        command_views(r.commands@) == if response is Registered && search {
            seq![to_gateway(*peer, GatewayRequestView::QueueMatch)]
        } else {
            Seq::empty()
        },
        adopted_view(r.adopted) == certified(response@),
{
    let mut commands = no_commands();
    match response {
        GatewayResponse::Registered { username: _, rating, rank, proof } => {
            gateway.rank = Some(rank);
            gateway.rating = rating;
            gateway.queued = false;
            if search {
                send(
                    &mut commands,
                    NetCommand::SendGatewayRequest {
                        peer: *peer,
                        request: GatewayRequest::QueueMatch,
                    },
                );
                assert(command_views(commands@) =~= seq![
                    to_gateway(*peer, GatewayRequestView::QueueMatch),
                ]);
            }
            Reaction { commands, adopted: Some(Adopted { rating, proof }) }
        },
        GatewayResponse::Queued { position: _ } => {
            gateway.queued = true;
            Reaction { commands, adopted: None }
        },
        GatewayResponse::Dequeued => {
            gateway.queued = false;
            Reaction { commands, adopted: None }
        },
        GatewayResponse::Rating { rating, rank, proof } => {
            gateway.rank = Some(rank);
            gateway.rating = rating;
            Reaction { commands, adopted: Some(Adopted { rating, proof }) }
        },
        GatewayResponse::Pong => Reaction { commands, adopted: None },
        GatewayResponse::Error(_) => Reaction { commands, adopted: None },
    }
}

/// The commands that dial those of the texts that are addresses.
pub open spec fn dials(addresses: Seq<Seq<char>>) -> Seq<NetCommandView>
    decreases addresses.len(),
{
    if addresses.len() == 0 {
        Seq::empty()
    } else {
        let front = dials(addresses.drop_last());
        match text_addr_parts(addresses.last()) {
            Some(a) => front.push(NetCommandView::Dial(a)),
            None => front,
        }
    }
}

/// A pairing that gives way to another one is declined.
pub open spec fn declined(p: PreView) -> Seq<NetCommandView> {
    match p.opponent {
        Some(old_peer) => seq![to_player(old_peer, Request::DeclineMatch)],
        None => Seq::empty(),
    }
}

/// A pairing with the gateway's opponent, in place of any other.
pub open spec fn repaired(p: PreView, peer: PeerId) -> PreView {
    if p.opponent is Some {
        begun(cancelled(p), peer)
    } else {
        begun(p, peer)
    }
}

/// The gateway's view of us after a moderator has changed our rating.
pub open spec fn rerated(g: GatewayStateView, rating: i32) -> GatewayStateView {
    GatewayStateView { rating, rank: Some(RANKS[rank_of(rating as int)]@), ..g }
}

/// What a message of the gateway leads to.
pub struct Pushed {
    pub state: MatchState,
    pub pre: PreView,
    pub gateway: GatewayStateView,
    pub history: HistoryView,
    pub commands: Seq<NetCommandView>,
    pub adopted: Option<(i32, Option<ProofView>)>,
}

/// The gateway has matched us with a player who is yet to be reached.
pub open spec fn matched_with(s: MatchState, peer: PeerId, match_id: u64) -> MatchState {
    MatchState {
        matched: Some(peer),
        intent: MatchIntent::Hosting,
        active_match: match_id,
        ..s
    }
}

pub open spec fn pushed_of(
    s: MatchState,
    p: PreView,
    g: GatewayStateView,
    h: HistoryView,
    request: GatewayRequestView,
) -> Pushed {
    let same = Pushed {
        state: s,
        pre: p,
        gateway: g,
        history: h,
        commands: Seq::empty(),
        adopted: None,
    };
    match request {
        GatewayRequestView::MatchFound { match_id, opponent, addresses } => match parsed_peer(
            opponent,
        ) {
            Some(peer) => Pushed {
                state: matched_with(s, peer, match_id),
                pre: repaired(p, peer),
                commands: declined(p) + dials(addresses),
                ..same
            },
            None => same,
        },
        GatewayRequestView::MatchRevoked { match_id, rating, proof } => Pushed {
            history: after_revocation(h, match_id),
            gateway: rerated(g, rating),
            adopted: Some((rating, proof)),
            ..same
        },
        GatewayRequestView::MatchCorrected {
            match_id,
            my_score,
            opponent_score,
            rating,
            proof,
        } => Pushed {
            history: after_correction(h, match_id, my_score, opponent_score),
            gateway: rerated(g, rating),
            adopted: Some((rating, proof)),
            ..same
        },
        _ => same,
    }
}

fn dial_all(out: &mut Vec<NetCommand>, addresses: &Vec<String>)
    ensures
        command_views(final(out)@) == command_views(old(out)@) + dials(texts(addresses@)),
{
    let ghost ts = texts(addresses@);
    let ghost start = command_views(out@);
    let mut i: usize = 0;
    assert(ts.take(0) =~= Seq::empty());
    assert(start + dials(ts.take(0)) =~= start);
    while i < addresses.len()
        invariant
            0 <= i <= addresses.len(),
            ts == texts(addresses@),
            command_views(out@) == start + dials(ts.take(i as int)),
        decreases addresses.len() - i,
    {
        assert(ts.take(i + 1).drop_last() =~= ts.take(i as int));
        assert(ts.take(i + 1).last() == addresses@[i as int]@);
        if let Some(addr) = Multiaddr::parse(addresses[i].as_str()) {
            send(out, NetCommand::Dial(addr));
        }
        assert(command_views(out@) =~= start + dials(ts.take(i + 1)));
        i += 1;
    }
    assert(ts.take(ts.len() as int) =~= ts);
}

/// The gateway has matched us with `peer`: another pairing is declined, and
/// the addresses that can be read are dialled.
pub fn on_match_found(
    state: &mut MatchState,
    pre: &mut PreMatch,
    peer: &PeerId,
    match_id: u64,
    addresses: &Vec<String>,
) -> (r: Vec<NetCommand>)
    ensures
        *final(state) == matched_with(*old(state), *peer, match_id),
        final(pre)@ == repaired(old(pre)@, *peer),
        command_views(r@) == declined(old(pre)@) + dials(texts(addresses@)),
{
    let mut commands = no_commands();
    if let Some(old_peer) = pre.opponent {
        send(
            &mut commands,
            NetCommand::SendRequest { peer: old_peer, request: Request::DeclineMatch },
        );
        pre.cancel();
    }
    assert(command_views(commands@) =~= declined(old(pre)@));
    pre.begin(*peer);
    state.matched = Some(*peer);
    state.intent = MatchIntent::Hosting;
    state.active_match = match_id;
    dial_all(&mut commands, addresses);
    commands
}

/// The gateway has told us something unasked: a match was found, taken back
/// or corrected.
pub fn on_gateway_request(
    state: &mut MatchState,
    pre: &mut PreMatch,
    gateway: &mut GatewayState,
    history: &mut MatchHistory,
    request: GatewayRequest,
) -> (r: Reaction)
    requires
        old(history).wf(),
        old(history)@.rev < u32::MAX,
    ensures
        final(history).wf(),
        ({
            let e = pushed_of(
                *old(state),
                old(pre)@,
                old(gateway)@,
                old(history)@,
                request@,
            );
            &&& *final(state) == e.state
            &&& final(pre)@ == e.pre
            &&& final(gateway)@ == e.gateway
            &&& final(history)@ == e.history
            &&& command_views(r.commands@) == e.commands
            &&& adopted_view(r.adopted) == e.adopted
        }),
{
    let mut commands = no_commands();
    match request {
        GatewayRequest::MatchFound { match_id, opponent, addresses } => {
            let peer = match PeerId::parse(opponent.as_str()) {
                Some(p) => p,
                None => {
                    return Reaction { commands, adopted: None };
                },
            };
            commands = on_match_found(state, pre, &peer, match_id, &addresses);
            Reaction { commands, adopted: None }
        },
        GatewayRequest::MatchRevoked { match_id, rating, proof } => {
            history.mark_match_revoked(match_id);
            gateway.rating = rating;
            gateway.rank = Some(rank_for_rating(rating).to_owned());
            Reaction { commands, adopted: Some(Adopted { rating, proof }) }
        },
        GatewayRequest::MatchCorrected { match_id, my_score, opponent_score, rating, proof } => {
            history.correct_score(match_id, my_score, opponent_score);
            gateway.rating = rating;
            gateway.rank = Some(rank_for_rating(rating).to_owned());
            Reaction { commands, adopted: Some(Adopted { rating, proof }) }
        },
        _ => Reaction { commands, adopted: None },
    }
}

// ---------------------------------------------------------------------------
// Discovery
// ---------------------------------------------------------------------------

/// Whether a peer is in the list.
pub fn has_peer(peers: &Vec<PeerId>, peer: &PeerId) -> (r: bool)
    ensures
        r == peers@.contains(*peer),
{
    let mut i: usize = 0;
    while i < peers.len()
        invariant
            0 <= i <= peers.len(),
            forall|j: int| 0 <= j < i ==> peers@[j] != *peer,
        decreases peers.len() - i,
    {
        if peers[i].same(peer) {
            return true;
        }
        i += 1;
    }
    false
}

/// The commands that dial every address.
pub open spec fn dial_views(addrs: Seq<Multiaddr>) -> Seq<NetCommandView> {
    Seq::new(addrs.len(), |i: int| NetCommandView::Dial(addrs[i]@))
}

/// The commands that dial those of the first `n` players found whom we are not
/// connected to.
pub open spec fn dial_found(
    peers: Seq<PeerId>,
    found: Seq<(PeerId, Vec<Multiaddr>)>,
    n: nat,
) -> Seq<NetCommandView>
    decreases n,
{
    if n == 0 {
        Seq::empty()
    } else {
        let front = dial_found(peers, found, (n - 1) as nat);
        if peers.contains(found[n - 1].0) {
            front
        } else {
            front + dial_views(found[n - 1].1@)
        }
    }
}

/// Players were found: those whom we are not connected to are dialled.
pub fn on_rendezvous_discovered(peers: &Vec<PeerId>, found: &Vec<(PeerId, Vec<Multiaddr>)>) -> (r:
    Vec<NetCommand>)
    ensures
        command_views(r@) == dial_found(peers@, found@, found@.len()),
{
    let mut out = no_commands();
    let mut i: usize = 0;
    while i < found.len()
        invariant
            0 <= i <= found.len(),
            command_views(out@) == dial_found(peers@, found@, i as nat),
        decreases found.len() - i,
    {
        let peer = found[i].0;
        if !has_peer(peers, &peer) {
            let addrs = &found[i].1;
            let ghost start = command_views(out@);
            let mut j: usize = 0;
            assert(start + dial_views(addrs@).take(0) =~= start);
            while j < addrs.len()
                invariant
                    0 <= j <= addrs.len(),
                    command_views(out@) == start + dial_views(addrs@).take(j as int),
                decreases addrs.len() - j,
            {
                send(&mut out, NetCommand::Dial(addrs[j].copied()));
                assert(command_views(out@) =~= start + dial_views(addrs@).take(j + 1));
                j += 1;
            }
            assert(dial_views(addrs@).take(addrs@.len() as int) =~= dial_views(addrs@));
        }
        i += 1;
    }
    out
}

/// Whether the rendezvous server can be asked.
pub open spec fn can_discover(search: bool, g: GatewayStateView) -> bool {
    search && g.connected && g.reserved && g.peer is Some
}

/// While searching, asks the rendezvous server at once and then at every end
/// of the timer.
pub fn update_discovery(
    timer: &mut Timer,
    was_ready: &mut bool,
    search: bool,
    gateway: &GatewayState,
    delta: u64,
) -> (r: Vec<NetCommand>)
    ensures
        ({
            let ready = can_discover(search, gateway@);
            let fire = ready && (!*old(was_ready) || ticked(*old(timer), delta).finished);
            &&& *final(was_ready) == ready
            &&& *final(timer) == if ready {
                ticked(*old(timer), delta)
            } else {
                Timer { elapsed: 0, finished: false, ..*old(timer) }
            }
            &&& command_views(r@) == if fire {
                seq![
                    NetCommandView::RendezvousDiscover {
                        peer: gateway@.peer->0,
                        namespace: NAMESPACE@,
                    },
                ]
            } else {
                Seq::empty()
            }
        }),
{
    let mut out = no_commands();
    timer.tick(delta);
    let ready = search && gateway.connected && gateway.reserved;
    match gateway.peer {
        Some(peer) if ready => {
            let fire = !*was_ready || timer.finished;
            *was_ready = true;
            if fire {
                send(
                    &mut out,
                    NetCommand::RendezvousDiscover { peer, namespace: NAMESPACE.to_owned() },
                );
                assert(command_views(out@) =~= seq![
                    NetCommandView::RendezvousDiscover { peer, namespace: NAMESPACE@ },
                ]);
            }
        },
        _ => {
            timer.reset();
            *was_ready = false;
        },
    }
    out
}

// ---------------------------------------------------------------------------
// Matches
// ---------------------------------------------------------------------------

/// Whether we are the host against a player: the lower identity is.
pub open spec fn hosts(local: Option<PeerId>, peer: PeerId) -> bool {
    match local {
        Some(own) => peer_less(own, peer),
        None => true,
    }
}

/// A match against a player starts: at once, or after a running one is torn
/// down.
pub open spec fn started(s: MatchState, peer: PeerId) -> MatchState {
    let s1 = MatchState { opponent: Some(peer), is_host: hosts(s.local, peer), ..s };
    if s.screen is Playing {
        MatchState { pending: Some(peer), next: Some(Screen::Menu), ..s1 }
    } else {
        MatchState { next: Some(Screen::Playing), ..s1 }
    }
}

/// Exactly one of two players who know who they are is the host.
pub proof fn one_host(a: PeerId, b: PeerId)
    requires
        a != b,
    ensures
        hosts(Some(a), b) == !hosts(Some(b), a),
{
    crate::peer::peer_order_is_total(a, b);
}

pub fn start_match(state: &mut MatchState, peer: &PeerId)
    ensures
        *final(state) == started(*old(state), *peer),
{
    state.opponent = Some(*peer);
    state.is_host = match state.local {
        Some(own) => own.less(peer),
        None => true,
    };
    match state.screen {
        Screen::Playing => {
            state.pending = Some(*peer);
            state.next = Some(Screen::Menu);
        },
        Screen::Menu => {
            state.next = Some(Screen::Playing);
        },
    }
}

/// Ends a pairing: the opponent is told, and there is a pause before the next.
pub open spec fn pairing_cancelled(p: PreView) -> PreView {
    let p1 = if p.opponent is Some {
        cancelled(p)
    } else {
        p
    };
    PreView { resume: Some(once_of(PREMATCH_RESUME_NANOS)), ..p1 }
}

pub fn cancel_pairing(pre: &mut PreMatch) -> (r: Vec<NetCommand>)
    ensures
        final(pre)@ == pairing_cancelled(old(pre)@),
        command_views(r@) == declined(old(pre)@),
{
    let mut out = no_commands();
    if let Some(peer) = pre.opponent {
        send(&mut out, NetCommand::SendRequest { peer, request: Request::DeclineMatch });
        pre.cancel();
    }
    pre.resume = Some(Timer::once(PREMATCH_RESUME_NANOS));
    assert(command_views(out@) =~= declined(old(pre)@));
    out
}

/// What a game message leads to; `seed` is set where a simulation is to start
/// from it.
pub struct GameEffect {
    pub state: MatchState,
    pub pre: PreView,
    pub names: Map<PeerId, Seq<char>>,
    pub commands: Seq<NetCommandView>,
    pub seed: Option<GameSnapshot>,
}

pub open spec fn game_effect(
    s: MatchState,
    p: PreView,
    names: Map<PeerId, Seq<char>>,
    peer: PeerId,
    request: Request,
) -> GameEffect {
    let same = GameEffect { state: s, pre: p, names, commands: Seq::empty(), seed: None };
    match request {
        Request::Hello { name } => if name@.len() > 0 {
            GameEffect { names: names.insert(peer, name@), ..same }
        } else {
            same
        },
        Request::InviteToPlay => if s.screen is Menu {
            if p.opponent is None {
                GameEffect { pre: begun(p, peer), ..same }
            } else {
                same
            }
        } else {
            GameEffect {
                state: started(MatchState { intent: MatchIntent::Idle, ..s }, peer),
                commands: seq![to_player(peer, Request::MatchStart)],
                ..same
            }
        },
        Request::AcceptMatch => GameEffect { pre: accepted_by(p, peer), ..same },
        Request::DeclineMatch => if p.opponent == Some(peer) {
            GameEffect { pre: pairing_cancelled(p), commands: declined(p), ..same }
        } else {
            same
        },
        Request::MatchStart => GameEffect {
            state: started(MatchState { intent: MatchIntent::Idle, ..s }, peer),
            ..same
        },
        Request::MatchAbort => if s.screen is Playing && s.opponent == Some(peer) {
            GameEffect {
                state: MatchState { pending: None, next: Some(Screen::Menu), ..s },
                ..same
            }
        } else {
            same
        },
        Request::MigrateHost(snapshot) => {
            let s1 = MatchState {
                opponent: Some(peer),
                intent: MatchIntent::Idle,
                is_host: true,
                ..s
            };
            if s.screen is Playing {
                GameEffect {
                    state: s1,
                    commands: seq![to_player(peer, Request::HostMigrated)],
                    seed: Some(snapshot),
                    ..same
                }
            } else {
                GameEffect { state: MatchState { next: Some(Screen::Playing), ..s1 }, ..same }
            }
        },
        Request::State(snapshot) => same,
        Request::HostMigrated => same,
        Request::Chat { text } => same,
    }
}

/// What is done about a game message.
pub struct GameReaction {
    pub commands: Vec<NetCommand>,
    /// The state that a simulation is to start from.
    pub seed: Option<GameSnapshot>,
}

/// A player has sent us a message about a match.
pub fn on_game_request(
    state: &mut MatchState,
    pre: &mut PreMatch,
    names: &mut Table<PeerId, String>,
    peer: &PeerId,
    request: &Request,
) -> (r: GameReaction)
    requires
        old(names).wf(),
    ensures
        final(names).wf(),
        ({
            let e = game_effect(*old(state), old(pre)@, old(names)@, *peer, *request);
            &&& *final(state) == e.state
            &&& final(pre)@ == e.pre
            &&& final(names)@ == e.names
            &&& command_views(r.commands@) == e.commands
            &&& r.seed == e.seed
        }),
{
    let mut commands = no_commands();
    match request {
        Request::Hello { name } => {
            if !name.as_str().is_empty() {
                names.insert(*peer, name.clone());
            }
        },
        Request::InviteToPlay => match state.screen {
            Screen::Menu => {
                if pre.idle() {
                    pre.begin(*peer);
                }
            },
            Screen::Playing => {
                state.intent = MatchIntent::Idle;
                send(
                    &mut commands,
                    NetCommand::SendRequest { peer: *peer, request: Request::MatchStart },
                );
                assert(command_views(commands@) =~= seq![to_player(*peer, Request::MatchStart)]);
                start_match(state, peer);
            },
        },
        Request::AcceptMatch => {
            pre.accepted_peer(peer);
        },
        Request::DeclineMatch => {
            if same_peer(&pre.opponent, &Some(*peer)) {
                commands = cancel_pairing(pre);
            }
        },
        Request::MatchStart => {
            state.intent = MatchIntent::Idle;
            start_match(state, peer);
        },
        Request::MatchAbort => {
            if let Screen::Playing = state.screen {
                if same_peer(&state.opponent, &Some(*peer)) {
                    state.pending = None;
                    state.next = Some(Screen::Menu);
                }
            }
        },
        Request::MigrateHost(snapshot) => {
            state.opponent = Some(*peer);
            state.intent = MatchIntent::Idle;
            state.is_host = true;
            match state.screen {
                Screen::Playing => {
                    send(
                        &mut commands,
                        NetCommand::SendRequest { peer: *peer, request: Request::HostMigrated },
                    );
                    assert(command_views(commands@) =~= seq![
                        to_player(*peer, Request::HostMigrated),
                    ]);
                    return GameReaction { commands, seed: Some(*snapshot) };
                },
                Screen::Menu => {
                    state.next = Some(Screen::Playing);
                },
            }
        },
        Request::State(_) => {},
        Request::HostMigrated => {},
        Request::Chat { .. } => {},
    }
    GameReaction { commands, seed: None }
}

/// Leaving the queue, if we are in it.
pub open spec fn dequeue(g: GatewayStateView) -> Seq<NetCommandView> {
    match g.peer {
        Some(peer) if g.queued => seq![to_gateway(peer, GatewayRequestView::LeaveQueue)],
        _ => Seq::empty(),
    }
}

fn leave_queue_command(gateway: &GatewayState) -> (r: Vec<NetCommand>)
    ensures
        command_views(r@) == dequeue(gateway@),
{
    let mut out = no_commands();
    match gateway.peer {
        Some(peer) if gateway.queued => {
            send(
                &mut out,
                NetCommand::SendGatewayRequest { peer, request: GatewayRequest::LeaveQueue },
            );
            assert(command_views(out@) =~= dequeue(gateway@));
        },
        _ => {},
    }
    out
}

/// A match starts: the search is over.
pub fn on_enter_playing(search: &mut bool, gateway: &GatewayState) -> (r: Vec<NetCommand>)
    ensures
        *final(search) == false,
        command_views(r@) == dequeue(gateway@),
{
    *search = false;
    leave_queue_command(gateway)
}

/// A match is over: its opponent and its number are forgotten.
pub open spec fn exited(s: MatchState) -> MatchState {
    MatchState { opponent: None, active_match: 0, ..s }
}

/// The match is left. What it is recorded and reported with is gone after
/// this.
pub fn on_exit_playing(state: &mut MatchState)
    ensures
        *final(state) == exited(*old(state)),
{
    state.opponent = None;
    state.active_match = 0;
}

/// The challenger who waited for the end of a match is played now.
pub open spec fn pending_entered(s: MatchState) -> MatchState {
    if s.pending is Some {
        MatchState { opponent: s.pending, pending: None, next: Some(Screen::Playing), ..s }
    } else {
        s
    }
}

/// Finishes joining a match that was requested while another was running.
pub fn enter_pending_match(state: &mut MatchState)
    ensures
        *final(state) == pending_entered(*old(state)),
{
    if state.pending.is_some() {
        state.opponent = state.pending;
        state.pending = None;
        state.next = Some(Screen::Playing);
    }
}

/// The player leaves the match. A host whose simulation runs hands its state
/// to the opponent first.
pub fn leave_match(state: &mut MatchState, snapshot: Option<GameSnapshot>) -> (r: Vec<NetCommand>)
    ensures
        *final(state) == (MatchState { pending: None, next: Some(Screen::Menu), ..*old(state) }),
        command_views(r@) == match (old(state).opponent, snapshot) {
            (Some(peer), Some(s)) if old(state).screen is Playing && old(state).is_host => seq![
                to_player(peer, Request::MigrateHost(s)),
            ],
            _ => Seq::empty(),
        },
{
    let mut out = no_commands();
    let playing = match state.screen {
        Screen::Playing => true,
        Screen::Menu => false,
    };
    match (state.opponent, snapshot) {
        (Some(peer), Some(s)) if playing && state.is_host => {
            send(
                &mut out,
                NetCommand::SendRequest { peer, request: Request::MigrateHost(s) },
            );
            assert(command_views(out@) =~= seq![to_player(peer, Request::MigrateHost(s))]);
        },
        _ => {},
    }
    state.pending = None;
    state.next = Some(Screen::Menu);
    out
}

/// Whether a guest takes over when a player drops out.
pub open spec fn takes_over(s: MatchState, peer: PeerId, sim_running: bool) -> bool {
    s.opponent == Some(peer) && s.screen is Playing && !s.is_host && !sim_running
}

/// Who we play after a player dropped out.
pub open spec fn state_after_drop(s: MatchState, peer: PeerId, sim_running: bool) -> MatchState {
    if s.opponent != Some(peer) {
        s
    } else if takes_over(s, peer, sim_running) {
        MatchState { is_host: true, ..s }
    } else if s.screen is Playing {
        MatchState { pending: None, next: Some(Screen::Menu), ..s }
    } else {
        MatchState { pending: None, opponent: None, ..s }
    }
}

/// Whom we wait for after a player dropped out.
pub open spec fn reconnection_after_drop(
    s: MatchState,
    c: ReconnectionState,
    peer: PeerId,
    sim_running: bool,
) -> ReconnectionState {
    if s.opponent == Some(peer) && s.screen is Playing && !takes_over(s, peer, sim_running) {
        ReconnectionState {
            target: Some(peer),
            countdown: Some(once_of(RECONNECT_NANOS)),
            active: true,
        }
    } else {
        c
    }
}

/// A player has dropped out. If that was our host, we take over, from the
/// last state that is known; otherwise the match is over. Returns whether a
/// simulation is to start.
pub fn on_peer_disconnected(
    state: &mut MatchState,
    reconn: &mut ReconnectionState,
    peer: &PeerId,
    sim_running: bool,
) -> (r: bool)
    ensures
        *final(state) == state_after_drop(*old(state), *peer, sim_running),
        *final(reconn) == reconnection_after_drop(*old(state), *old(reconn), *peer, sim_running),
        r == takes_over(*old(state), *peer, sim_running),
{
    if !same_peer(&state.opponent, &Some(*peer)) {
        return false;
    }
    let playing = match state.screen {
        Screen::Playing => true,
        Screen::Menu => false,
    };
    if playing && !state.is_host && !sim_running {
        state.is_host = true;
        return true;
    }
    state.pending = None;
    if playing {
        reconn.target = Some(*peer);
        reconn.active = true;
        reconn.countdown = Some(Timer::once(RECONNECT_NANOS));
        state.next = Some(Screen::Menu);
    } else {
        state.opponent = None;
    }
    false
}

/// The list with a peer in it.
pub open spec fn with_peer(peers: Seq<PeerId>, peer: PeerId) -> Seq<PeerId> {
    if peers.contains(peer) {
        peers
    } else {
        peers.push(peer)
    }
}

/// What is sent to a player who has just connected: a greeting, and our
/// acceptance if the gateway matched us and it may have been lost.
pub open spec fn greetings(
    peers: Seq<PeerId>,
    matched: Option<PeerId>,
    p: PreView,
    username: String,
    peer: PeerId,
) -> Seq<NetCommandView> {
    let hello = if peers.contains(peer) {
        Seq::empty()
    } else {
        seq![to_player(peer, Request::Hello { name: username })]
    };
    let again = if matched == Some(peer) && p.self_accepted && p.opponent == Some(peer) {
        seq![to_player(peer, Request::AcceptMatch)]
    } else {
        Seq::empty()
    };
    hello + again
}

/// A player has connected. Returns what is sent, and whether an opponent who
/// dropped out is back.
pub fn on_peer_connected(
    peers: &mut Vec<PeerId>,
    state: &mut MatchState,
    pre: &PreMatch,
    reconn: &mut ReconnectionState,
    username: &String,
    peer: &PeerId,
) -> (r: (Vec<NetCommand>, bool))
    ensures
        final(peers)@ == with_peer(old(peers)@, *peer),
        *final(state) == if old(state).matched == Some(*peer) {
            MatchState { matched: None, ..*old(state) }
        } else {
            *old(state)
        },
        r.1 == (old(reconn).active && old(reconn).target == Some(*peer)),
        *final(reconn) == if r.1 {
            all_here()
        } else {
            *old(reconn)
        },
        command_views(r.0@) == greetings(
            old(peers)@,
            old(state).matched,
            pre@,
            *username,
            *peer,
        ),
{
    let mut out = no_commands();
    let is_matched = same_peer(&state.matched, &Some(*peer));
    let ghost hello = if peers@.contains(*peer) {
        Seq::<NetCommandView>::empty()
    } else {
        seq![to_player(*peer, Request::Hello { name: *username })]
    };
    if !has_peer(peers, peer) {
        peers.push(*peer);
        send(
            &mut out,
            NetCommand::SendRequest {
                peer: *peer,
                request: Request::Hello { name: username.clone() },
            },
        );
    }
    assert(command_views(out@) =~= hello);
    let back = reconn.active && same_peer(&reconn.target, &Some(*peer));
    if back {
        reconn.active = false;
        reconn.countdown = None;
        reconn.target = None;
    }
    if is_matched {
        state.matched = None;
        if pre.self_accepted && same_peer(&pre.opponent, &Some(*peer)) {
            send(
                &mut out,
                NetCommand::SendRequest { peer: *peer, request: Request::AcceptMatch },
            );
        }
    }
    assert(command_views(out@) =~= greetings(
        old(peers)@,
        old(state).matched,
        pre@,
        *username,
        *peer,
    ));
    (out, back)
}

/// The list without a peer.
pub fn drop_peer(peers: &mut Vec<PeerId>, peer: &PeerId)
    ensures
        final(peers)@ == crate::gateway::without_peer(old(peers)@, *peer),
{
    let mut kept: Vec<PeerId> = Vec::new();
    let mut i: usize = 0;
    assert(peers@.take(0) =~= Seq::empty());
    while i < peers.len()
        invariant
            0 <= i <= peers.len(),
            kept@ == crate::gateway::without_peer(peers@.take(i as int), *peer),
        decreases peers.len() - i,
    {
        let p = peers[i];
        assert(peers@.take(i + 1).drop_last() =~= peers@.take(i as int));
        if !p.same(peer) {
            kept.push(p);
        }
        i += 1;
    }
    assert(peers@.take(peers@.len() as int) =~= peers@);
    *peers = kept;
}

/// The reconnection after some time: given up when the countdown is over.
pub open spec fn reconnection_after(c: ReconnectionState, delta: u64) -> ReconnectionState {
    match (c.target, c.countdown) {
        (Some(peer), Some(t)) if c.active => if ends_with(t, delta) {
            ReconnectionState {
                target: None,
                countdown: Some(ticked(t, delta)),
                active: false,
            }
        } else {
            ReconnectionState { countdown: Some(ticked(t, delta)), ..c }
        },
        _ => c,
    }
}

/// Lets time pass for an opponent who dropped out.
pub fn update_reconnection(reconn: &mut ReconnectionState, delta: u64)
    ensures
        *final(reconn) == reconnection_after(*old(reconn), delta),
{
    if reconn.target.is_none() || !reconn.active {
        return ;
    }
    if let Some(countdown) = reconn.countdown {
        let mut t = countdown;
        let ended = t.tick(delta);
        reconn.countdown = Some(t);
        if ended {
            reconn.active = false;
            reconn.target = None;
        }
    }
}

// ---------------------------------------------------------------------------
// Searching
// ---------------------------------------------------------------------------

/// The first player in the list, from index `i` on, who may be challenged:
/// neither the gateway nor somebody with whom a pairing fell through.
pub open spec fn next_rival(
    peers: Seq<PeerId>,
    gateway: Option<PeerId>,
    rejected: Set<PeerId>,
    i: int,
) -> Option<PeerId>
    decreases peers.len() - i,
{
    if i < 0 || i >= peers.len() {
        None
    } else if gateway == Some(peers[i]) || rejected.contains(peers[i]) {
        next_rival(peers, gateway, rejected, i + 1)
    } else {
        Some(peers[i])
    }
}

/// Whom we challenge, if we are free to.
pub open spec fn rival_to_invite(
    p: PreView,
    gateway: Option<PeerId>,
    peers: Seq<PeerId>,
) -> Option<PeerId> {
    if p.opponent is Some {
        None
    } else {
        next_rival(peers, gateway, p.rejected, 0)
    }
}

pub open spec fn invited(p: PreView, gateway: Option<PeerId>, peers: Seq<PeerId>) -> PreView {
    match rival_to_invite(p, gateway, peers) {
        Some(peer) => begun(p, peer),
        None => p,
    }
}

pub open spec fn invitation(p: PreView, gateway: Option<PeerId>, peers: Seq<PeerId>) -> Seq<
    NetCommandView,
> {
    match rival_to_invite(p, gateway, peers) {
        Some(peer) => seq![to_player(peer, Request::InviteToPlay)],
        None => Seq::empty(),
    }
}

/// Challenges the first player who may be challenged.
pub fn invite_next_peer(pre: &mut PreMatch, gateway: &GatewayState, peers: &Vec<PeerId>) -> (r: Vec<
    NetCommand,
>)
    ensures
        final(pre)@ == invited(old(pre)@, gateway@.peer, peers@),
        command_views(r@) == invitation(old(pre)@, gateway@.peer, peers@),
{
    let mut out = no_commands();
    if !pre.idle() {
        return out;
    }
    let ghost p = pre@;
    let mut i: usize = 0;
    while i < peers.len()
        invariant
            0 <= i <= peers.len(),
            p == old(pre)@,
            pre@ == p,
            p.opponent is None,
            command_views(out@) == Seq::<NetCommandView>::empty(),
            next_rival(peers@, gateway@.peer, p.rejected, 0) == next_rival(
                peers@,
                gateway@.peer,
                p.rejected,
                i as int,
            ),
        decreases peers.len() - i,
    {
        let peer = peers[i];
        if !same_peer(&gateway.peer, &Some(peer)) && !pre.is_rejected(&peer) {
            pre.begin(peer);
            send(&mut out, NetCommand::SendRequest { peer, request: Request::InviteToPlay });
            assert(command_views(out@) =~= seq![to_player(peer, Request::InviteToPlay)]);
            return out;
        }
        i += 1;
    }
    out
}

/// Whether a node that has told what it is may be challenged: while we search
/// and are free, if it is a player with whom no pairing fell through.
pub open spec fn offers_match(
    p: PreView,
    search: bool,
    gateway: Option<PeerId>,
    peer: PeerId,
    agent: Seq<char>,
) -> bool {
    &&& search
    &&& p.opponent is None
    &&& !contains_text(agent, GATEWAY_AGENT_VERSION@)
    &&& gateway != Some(peer)
    &&& !p.rejected.contains(peer)
}

/// A node has told what it is; a player is challenged while we search.
pub fn on_peer_identified(
    pre: &mut PreMatch,
    search: bool,
    gateway: &GatewayState,
    peer: &PeerId,
    agent: &str,
) -> (r: Vec<NetCommand>)
    ensures
        ({
            let offer = offers_match(old(pre)@, search, gateway@.peer, *peer, agent@);
            &&& final(pre)@ == if offer {
                begun(old(pre)@, *peer)
            } else {
                old(pre)@
            }
            &&& command_views(r@) == if offer {
                seq![to_player(*peer, Request::InviteToPlay)]
            } else {
                Seq::empty()
            }
        }),
{
    let mut out = no_commands();
    if !search || !pre.idle() || is_gateway_agent(agent) {
        return out;
    }
    if same_peer(&gateway.peer, &Some(*peer)) || pre.is_rejected(peer) {
        return out;
    }
    pre.begin(*peer);
    send(&mut out, NetCommand::SendRequest { peer: *peer, request: Request::InviteToPlay });
    assert(command_views(out@) =~= seq![to_player(*peer, Request::InviteToPlay)]);
    out
}

/// The address of the first known gateway, or the default where none is known
/// or it cannot be read.
pub open spec fn gateway_target(first: Option<Seq<char>>) -> Option<Seq<PartView>> {
    let text = match first {
        Some(t) => t,
        None => GATEWAY_DEFAULT_ADDR@,
    };
    match text_addr_parts(text) {
        Some(a) => Some(a),
        None => text_addr_parts(GATEWAY_DEFAULT_ADDR@),
    }
}

fn target_address(first: Option<&str>) -> (r: Option<Multiaddr>)
    ensures
        crate::net::opt_addr(r) == gateway_target(
            match first {
                Some(t) => Some(t@),
                None => None,
            },
        ),
{
    let text = match first {
        Some(t) => t,
        None => GATEWAY_DEFAULT_ADDR,
    };
    match Multiaddr::parse(text) {
        Some(a) => Some(a),
        None => Multiaddr::parse(GATEWAY_DEFAULT_ADDR),
    }
}

/// How the search reaches the gateway: it is dialled, asked for a route, or
/// registered with, whichever comes next.
pub open spec fn search_gateway(
    g: GatewayStateView,
    target: Option<Seq<PartView>>,
) -> GatewayStateView {
    if g.peer is None {
        GatewayStateView {
            addr: target,
            peer: None,
            connected: false,
            reserved: false,
            queued: false,
            rank: None,
            rating: 0,
        }
    } else {
        g
    }
}

pub open spec fn search_commands(
    g: GatewayStateView,
    target: Option<Seq<PartView>>,
    who: Credentials,
) -> Seq<NetCommandView> {
    match g.peer {
        None => match target {
            Some(a) => seq![NetCommandView::Dial(a)],
            None => Seq::empty(),
        },
        Some(peer) => if g.connected && g.reserved {
            seq![to_gateway(peer, register_view(who))]
        } else if g.connected {
            reservation(g, peer)
        } else {
            Seq::empty()
        },
    }
}

/// Starts the search: over the gateway, and among the players who are here.
pub fn start_search(
    gateway: &mut GatewayState,
    who: &Credentials,
    peers: &Vec<PeerId>,
    pre: &mut PreMatch,
    first_server: Option<&str>,
) -> (r: Vec<NetCommand>)
    requires
        old(gateway)@.peer matches Some(p) ==> p.wf(),
    ensures
        ({
            let target = gateway_target(
                match first_server {
                    Some(t) => Some(t@),
                    None => None,
                },
            );
            &&& final(gateway)@ == search_gateway(old(gateway)@, target)
            &&& final(pre)@ == invited(old(pre)@, old(gateway)@.peer, peers@)
            &&& command_views(r@) == search_commands(old(gateway)@, target, *who) + invitation(
                old(pre)@,
                old(gateway)@.peer,
                peers@,
            )
        }),
{
    let target = target_address(first_server);
    let ghost t = crate::net::opt_addr(target);
    let mut out = no_commands();
    match gateway.peer {
        None => {
            let dial = match &target {
                Some(a) => Some(a.copied()),
                None => None,
            };
            *gateway = GatewayState {
                addr: target,
                peer: None,
                connected: false,
                reserved: false,
                queued: false,
                rank: None,
                rating: 0,
            };
            if let Some(a) = dial {
                send(&mut out, NetCommand::Dial(a));
            }
        },
        Some(peer) => {
            if gateway.connected && gateway.reserved {
                send(
                    &mut out,
                    NetCommand::SendGatewayRequest { peer, request: register_request(who) },
                );
            } else if gateway.connected {
                out = reserve(gateway, &peer);
            }
        },
    }
    assert(command_views(out@) =~= search_commands(old(gateway)@, t, *who));
    let mut more = invite_next_peer(pre, gateway, peers);
    let ghost a = command_views(out@);
    let ghost b = command_views(more@);
    out.append(&mut more);
    assert(command_views(out@) =~= a + b);
    out
}

/// Queueing again after a pairing fell through.
pub open spec fn requeue(g: GatewayStateView) -> Seq<NetCommandView> {
    match g.peer {
        Some(peer) if g.connected && g.reserved => seq![
            to_gateway(peer, GatewayRequestView::QueueMatch),
        ],
        _ => Seq::empty(),
    }
}

/// Whether the search goes on after a pause.
pub open spec fn resumes(p: PreView, search: bool) -> bool {
    p.opponent is None && search
}

/// Goes on with the search: back into the gateway's queue, and on to the next
/// player.
pub fn resume_search(
    pre: &mut PreMatch,
    search: bool,
    gateway: &GatewayState,
    peers: &Vec<PeerId>,
) -> (r: Vec<NetCommand>)
    ensures
        final(pre)@ == if resumes(old(pre)@, search) {
            invited(old(pre)@, gateway@.peer, peers@)
        } else {
            old(pre)@
        },
        command_views(r@) == if resumes(old(pre)@, search) {
            requeue(gateway@) + invitation(old(pre)@, gateway@.peer, peers@)
        } else {
            Seq::empty()
        },
{
    let mut out = no_commands();
    if !pre.idle() || !search {
        return out;
    }
    match gateway.peer {
        Some(peer) if gateway.connected && gateway.reserved => {
            send(
                &mut out,
                NetCommand::SendGatewayRequest { peer, request: GatewayRequest::QueueMatch },
            );
        },
        _ => {},
    }
    assert(command_views(out@) =~= requeue(gateway@));
    let mut more = invite_next_peer(pre, gateway, peers);
    let ghost a = command_views(out@);
    let ghost b = command_views(more@);
    out.append(&mut more);
    assert(command_views(out@) =~= a + b);
    out
}

/// The player presses the button that starts and stops the search.
pub fn press_play(
    search: &mut bool,
    gateway: &mut GatewayState,
    who: &Credentials,
    peers: &Vec<PeerId>,
    pre: &mut PreMatch,
    first_server: Option<&str>,
) -> (r: Vec<NetCommand>)
    requires
        old(gateway)@.peer matches Some(p) ==> p.wf(),
    ensures
        *final(search) == !*old(search),
        ({
            let g = old(gateway)@;
            let p = old(pre)@;
            let fresh = PreView { rejected: Set::empty(), ..p };
            let target = gateway_target(
                match first_server {
                    Some(t) => Some(t@),
                    None => None,
                },
            );
            if *old(search) {
                &&& final(gateway)@ == g
                &&& final(pre)@ == if p.opponent is Some {
                    pairing_cancelled(p)
                } else {
                    p
                }
                &&& command_views(r@) == dequeue(g) + declined(p)
            } else {
                &&& final(gateway)@ == search_gateway(g, target)
                &&& final(pre)@ == invited(fresh, g.peer, peers@)
                &&& command_views(r@) == search_commands(g, target, *who) + invitation(
                    fresh,
                    g.peer,
                    peers@,
                )
            }
        }),
{
    if *search {
        *search = false;
        let mut out = leave_queue_command(gateway);
        let ghost a = command_views(out@);
        if pre.opponent.is_some() {
            let mut more = cancel_pairing(pre);
            let ghost b = command_views(more@);
            out.append(&mut more);
            assert(command_views(out@) =~= a + b);
        } else {
            assert(a + declined(pre@) =~= a);
        }
        out
    } else {
        *search = true;
        pre.forgive();
        start_search(gateway, who, peers, pre, first_server)
    }
}

// ---------------------------------------------------------------------------
// The pairing dialog
// ---------------------------------------------------------------------------

/// What the player does in the dialog.
#[derive(Clone, Copy, PartialEq, Eq, Structural, Debug)]
pub enum PreMatchButton {
    Accept,
    Reject,
}

/// One step of the dialog: what has become of the pairing and what is sent.
pub struct DialogStep {
    pub state: MatchState,
    pub pre: PreView,
    pub commands: Seq<NetCommandView>,
}

/// The pairing after the pause before searching again was given time.
pub open spec fn pause_ticked(
    p: PreView,
    search: bool,
    g: GatewayStateView,
    peers: Seq<PeerId>,
    delta: u64,
) -> PreView {
    match p.resume {
        Some(t) => {
            let p1 = PreView { resume: Some(ticked(t, delta)), ..p };
            if ends_with(t, delta) {
                let p2 = PreView { resume: None, ..p };
                if resumes(p2, search) {
                    invited(p2, g.peer, peers)
                } else {
                    p2
                }
            } else {
                p1
            }
        },
        None => p,
    }
}

pub open spec fn pause_commands(
    p: PreView,
    search: bool,
    g: GatewayStateView,
    peers: Seq<PeerId>,
    delta: u64,
) -> Seq<NetCommandView> {
    match p.resume {
        Some(t) => {
            let p2 = PreView { resume: None, ..p };
            if ends_with(t, delta) && resumes(p2, search) {
                requeue(g) + invitation(p2, g.peer, peers)
            } else {
                Seq::empty()
            }
        },
        None => Seq::empty(),
    }
}

/// The dialog with an opponent: a refusal or the end of the wait cancels the
/// pairing, the end of the countdown starts the match.
pub open spec fn dialog_of(
    s: MatchState,
    p: PreView,
    button: Option<PreMatchButton>,
    delta: u64,
) -> DialogStep {
    match p.opponent {
        None => DialogStep { state: s, pre: p, commands: Seq::empty() },
        Some(opponent) => {
            let accepting = button == Some(PreMatchButton::Accept) && !p.self_accepted;
            let p1 = if accepting {
                self_accept(p)
            } else {
                p
            };
            let sent = if accepting {
                seq![to_player(opponent, Request::AcceptMatch)]
            } else {
                Seq::empty()
            };
            if button == Some(PreMatchButton::Reject) {
                DialogStep { state: s, pre: pairing_cancelled(p), commands: declined(p) }
            } else if p1.waiting is Some && ends_with(p1.waiting->0, delta) {
                let p2 = PreView { waiting: Some(ticked(p1.waiting->0, delta)), ..p1 };
                DialogStep {
                    state: s,
                    pre: pairing_cancelled(p2),
                    commands: sent + declined(p2),
                }
            } else {
                let p2 = PreView {
                    waiting: match p1.waiting {
                        Some(t) => Some(ticked(t, delta)),
                        None => None,
                    },
                    ..p1
                };
                if p2.countdown is Some && ends_with(p2.countdown->0, delta) {
                    DialogStep { state: started(s, opponent), pre: no_pairing(), commands: sent }
                } else {
                    let p3 = PreView {
                        countdown: match p2.countdown {
                            Some(t) => Some(ticked(t, delta)),
                            None => None,
                        },
                        ..p2
                    };
                    DialogStep { state: s, pre: p3, commands: sent }
                }
            }
        },
    }
}

/// Lets time pass for the pause before searching again.
fn tick_pause(
    pre: &mut PreMatch,
    search: bool,
    gateway: &GatewayState,
    peers: &Vec<PeerId>,
    delta: u64,
) -> (r: Vec<NetCommand>)
    ensures
        final(pre)@ == pause_ticked(old(pre)@, search, gateway@, peers@, delta),
        command_views(r@) == pause_commands(old(pre)@, search, gateway@, peers@, delta),
{
    let mut ended = false;
    if let Some(resume) = pre.resume {
        let mut t = resume;
        ended = t.tick(delta);
        pre.resume = Some(t);
    }
    if ended {
        pre.resume = None;
        resume_search(pre, search, gateway, peers)
    } else {
        no_commands()
    }
}

/// One step of the dialog with an opponent.
fn step_dialog(
    state: &mut MatchState,
    pre: &mut PreMatch,
    button: Option<PreMatchButton>,
    delta: u64,
) -> (r: Vec<NetCommand>)
    ensures
        ({
            let e = dialog_of(*old(state), old(pre)@, button, delta);
            &&& *final(state) == e.state
            &&& final(pre)@ == e.pre
            &&& command_views(r@) == e.commands
        }),
{
    let mut out = no_commands();
    let opponent = match pre.opponent {
        Some(p) => p,
        None => {
            return out;
        },
    };
    match button {
        Some(PreMatchButton::Accept) => {
            if !pre.self_accepted {
                send(
                    &mut out,
                    NetCommand::SendRequest { peer: opponent, request: Request::AcceptMatch },
                );
                pre.accept();
            }
        },
        Some(PreMatchButton::Reject) => {
            return cancel_pairing(pre);
        },
        None => {},
    }
    let ghost sent = command_views(out@);
    assert(sent =~= if button == Some(PreMatchButton::Accept) && !old(pre)@.self_accepted {
        seq![to_player(opponent, Request::AcceptMatch)]
    } else {
        Seq::empty()
    });
    if let Some(waiting) = pre.waiting {
        let mut t = waiting;
        let ended = t.tick(delta);
        pre.waiting = Some(t);
        if ended {
            let mut more = cancel_pairing(pre);
            let ghost b = command_views(more@);
            out.append(&mut more);
            assert(command_views(out@) =~= sent + b);
            return out;
        }
    }
    if let Some(countdown) = pre.countdown {
        let mut t = countdown;
        let ended = t.tick(delta);
        pre.countdown = Some(t);
        if ended {
            start_match(state, &opponent);
            pre.reset();
            return out;
        }
    }
    out
}

/// Drives the dialog of a pairing: lets time pass for the pause, the wait and
/// the countdown, and reacts to its buttons. The match starts when both have
/// accepted and the countdown is over.
pub fn update_prematch(
    state: &mut MatchState,
    pre: &mut PreMatch,
    search: bool,
    gateway: &GatewayState,
    peers: &Vec<PeerId>,
    button: Option<PreMatchButton>,
    delta: u64,
) -> (r: Vec<NetCommand>)
    ensures
        ({
            let p = pause_ticked(old(pre)@, search, gateway@, peers@, delta);
            let e = dialog_of(*old(state), p, button, delta);
            &&& *final(state) == e.state
            &&& final(pre)@ == e.pre
            &&& command_views(r@) == pause_commands(
                old(pre)@,
                search,
                gateway@,
                peers@,
                delta,
            ) + e.commands
        }),
{
    let mut out = tick_pause(pre, search, gateway, peers, delta);
    let ghost a = command_views(out@);
    let mut more = step_dialog(state, pre, button, delta);
    let ghost b = command_views(more@);
    out.append(&mut more);
    assert(command_views(out@) =~= a + b);
    out
}

// ---------------------------------------------------------------------------
// Laws
// ---------------------------------------------------------------------------

/// The dialog starts a match only if both players have accepted it, and the
/// match is the one they were paired for.
pub proof fn matches_start_by_agreement(
    s: MatchState,
    p: PreView,
    button: Option<PreMatchButton>,
    delta: u64,
)
    requires
        crate::prematch::sound(p),
        dialog_of(s, p, button, delta).state.next != s.next,
    ensures
        p.opp_accepted,
        p.self_accepted || button == Some(PreMatchButton::Accept),
        p.opponent is Some,
        dialog_of(s, p, button, delta).state.opponent == p.opponent,
{
}

/// Whoever challenges us during a match is the opponent of the next one.
pub proof fn challengers_are_played_next(s: MatchState, peer: PeerId)
    requires
        s.screen is Playing,
    ensures
        ({
            let left = started(s, peer);
            let entered = pending_entered(exited(MatchState { screen: Screen::Menu, ..left }));
            &&& left.next == Some(Screen::Menu)
            &&& entered.opponent == Some(peer)
            &&& entered.next == Some(Screen::Playing)
            &&& entered.is_host == hosts(s.local, peer)
            &&& entered.pending is None
        }),
{
}

/// The dialog keeps a pairing sound.
pub proof fn dialogs_stay_sound(
    s: MatchState,
    p: PreView,
    button: Option<PreMatchButton>,
    delta: u64,
)
    requires
        crate::prematch::sound(p),
    ensures
        crate::prematch::sound(dialog_of(s, p, button, delta).pre),
{
}

/// Nobody with whom a pairing fell through is challenged again, nor is the
/// gateway.
pub proof fn rejected_players_are_left_alone(
    peers: Seq<PeerId>,
    gateway: Option<PeerId>,
    rejected: Set<PeerId>,
    i: int,
)
    ensures
        next_rival(peers, gateway, rejected, i) matches Some(peer) ==> peers.contains(peer)
            && !rejected.contains(peer) && gateway != Some(peer),
    decreases peers.len() - i,
{
    if 0 <= i < peers.len() {
        if gateway == Some(peers[i]) || rejected.contains(peers[i]) {
            rejected_players_are_left_alone(peers, gateway, rejected, i + 1);
        }
    }
}

/// A guest whose host drops out takes over and stays in the match, without
/// going back to the menu.
pub proof fn guests_take_over(s: MatchState, c: ReconnectionState, peer: PeerId)
    requires
        s.opponent == Some(peer),
        s.screen is Playing,
        !s.is_host,
    ensures
        state_after_drop(s, peer, false).is_host,
        state_after_drop(s, peer, false).next == s.next,
        state_after_drop(s, peer, false).opponent == s.opponent,
        reconnection_after_drop(s, c, peer, false) == c,
{
}

/// A node is taken for the gateway exactly if it says that it is one; nothing
/// else that is known of the gateway changes.
pub proof fn gateways_say_that_they_are(g: GatewayStateView, peer: PeerId, agent: Seq<char>)
    ensures
        !contains_text(agent, "pong-gateway/1.0.0"@) ==> identified(g, peer, agent) == g,
        contains_text(agent, "pong-gateway/1.0.0"@) ==> ({
            let got = identified(g, peer, agent);
            &&& got.peer == Some(peer) && got.connected
            &&& got.addr == g.addr && got.reserved == g.reserved && got.queued == g.queued
            &&& got.rank == g.rank && got.rating == g.rating
        }),
{
}

/// The relayed route that is asked for goes through the gateway: the dialled
/// address, the gateway's peer and the mark of a relayed route.
pub proof fn reservations_go_through_the_gateway(
    g: GatewayStateView,
    peer: PeerId,
    base: Seq<PartView>,
)
    ensures
        base_addr_of(g) is None ==> reservation(g, peer).len() == 0,
        base_addr_of(g) == Some(base) ==> reservation(g, peer).len() == 1 && (reservation(
            g,
            peer,
        )[0] matches NetCommandView::Listen(route) && route.len() == base.len() + 2
            && route.take(base.len() as int) == base && route[base.len() as int] == p2p_part(peer)
            && route[base.len() + 1int] == circuit_part()),
{
    if base_addr_of(g) == Some(base) {
        let route = base.push(p2p_part(peer)).push(circuit_part());
        assert(route.take(base.len() as int) =~= base);
    }
}

/// What the gateway answers is believed: rating and rank as told, and whether
/// we wait. What it does not speak of stays.
pub proof fn answers_are_believed(
    g: GatewayStateView,
    username: Seq<char>,
    rating: i32,
    rank: Seq<char>,
    proof: Option<ProofView>,
    position: u32,
)
    ensures
        ({
            let got = answered(g, GatewayResponseView::Registered { username, rating, rank, proof });
            got == (GatewayStateView { rating, rank: Some(rank), queued: false, ..g })
        }),
        ({
            let got = answered(g, GatewayResponseView::Rating { rating, rank, proof });
            got == (GatewayStateView { rating, rank: Some(rank), ..g })
        }),
        ({
            let got = answered(g, GatewayResponseView::Queued { position });
            got.queued && got == (GatewayStateView { queued: got.queued, ..g })
        }),
        ({
            let got = answered(g, GatewayResponseView::Dequeued);
            !got.queued && got == (GatewayStateView { queued: got.queued, ..g })
        }),
        answered(g, GatewayResponseView::Pong) == g,
        certified(GatewayResponseView::Registered { username, rating, rank, proof }) == Some(
            (rating, proof),
        ),
        certified(GatewayResponseView::Rating { rating, rank, proof }) == Some((rating, proof)),
        certified(GatewayResponseView::Queued { position }) is None,
        certified(GatewayResponseView::Dequeued) is None,
        certified(GatewayResponseView::Pong) is None,
{
}

/// An answer that is an error changes nothing and certifies nothing.
pub proof fn errors_change_nothing(g: GatewayStateView, text: Seq<char>)
    ensures
        answered(g, GatewayResponseView::Error(text)) == g,
        certified(GatewayResponseView::Error(text)) is None,
{
}

/// Every text that is an address is dialled, in order; others are passed over.
pub proof fn readable_addresses_are_dialled(a: Seq<Seq<char>>, b: Seq<Seq<char>>, t: Seq<char>)
    ensures
        dials(a + b) == dials(a) + dials(b),
        text_addr_parts(t) matches Some(parts) ==> dials(seq![t]) == seq![
            NetCommandView::Dial(parts),
        ],
        text_addr_parts(t) is None ==> dials(seq![t]).len() == 0,
    decreases b.len(),
{
    assert(seq![t].drop_last() =~= Seq::empty());
    assert(dials(seq![t].drop_last()) =~= Seq::empty());
    assert(text_addr_parts(t) matches Some(parts) ==> dials(seq![t]) =~= seq![
        NetCommandView::Dial(parts),
    ]);
    if b.len() == 0 {
        assert(a + b =~= a);
        assert(dials(a) + dials(b) =~= dials(a));
    } else {
        readable_addresses_are_dialled(a, b.drop_last(), t);
        assert((a + b).drop_last() =~= a + b.drop_last());
        assert((a + b).last() == b.last());
        assert(dials(a + b) =~= dials(a) + dials(b));
    }
}

/// A match that the gateway has found is the one that we are paired for, under
/// its number, whatever was before: another pairing is declined and remembered,
/// and the ways to the opponent are dialled. Rating and history stay.
pub proof fn found_matches_replace_others(
    s: MatchState,
    p: PreView,
    g: GatewayStateView,
    h: HistoryView,
    match_id: u64,
    opponent: Seq<char>,
    addresses: Seq<Seq<char>>,
    peer: PeerId,
)
    requires
        parsed_peer(opponent) == Some(peer),
    ensures
        ({
            let e = pushed_of(
                s,
                p,
                g,
                h,
                GatewayRequestView::MatchFound { match_id, opponent, addresses },
            );
            &&& e.state.matched == Some(peer) && e.state.active_match == match_id
            &&& e.state.intent is Hosting
            &&& e.state == (MatchState {
                matched: e.state.matched,
                active_match: e.state.active_match,
                intent: e.state.intent,
                ..s
            })
            &&& e.pre.opponent == Some(peer) && !e.pre.self_accepted && !e.pre.opp_accepted
            &&& e.pre.waiting is Some && e.pre.countdown is None && e.pre.resume is None
            &&& forall|x: PeerId| #[trigger]
                e.pre.rejected.contains(x) <==> p.rejected.contains(x) || p.opponent == Some(x)
            &&& p.opponent is None ==> e.commands == dials(addresses)
            &&& p.opponent matches Some(old_peer) ==> e.commands.len() == 1 + dials(
                addresses,
            ).len() && e.commands[0] == (NetCommandView::SendRequest {
                peer: old_peer,
                request: Request::DeclineMatch,
            }) && e.commands.skip(1) == dials(addresses)
            &&& e.gateway == g && e.history == h && e.adopted is None
        }),
{
    let e = pushed_of(
        s,
        p,
        g,
        h,
        GatewayRequestView::MatchFound { match_id, opponent, addresses },
    );
    if p.opponent is None {
        assert(e.commands =~= dials(addresses));
    } else {
        assert(e.commands.skip(1) =~= dials(addresses));
    }
}

/// A match against nobody is no match.
pub proof fn matches_need_an_opponent(
    s: MatchState,
    p: PreView,
    g: GatewayStateView,
    h: HistoryView,
    match_id: u64,
    opponent: Seq<char>,
    addresses: Seq<Seq<char>>,
)
    requires
        parsed_peer(opponent) is None,
    ensures
        ({
            let e = pushed_of(
                s,
                p,
                g,
                h,
                GatewayRequestView::MatchFound { match_id, opponent, addresses },
            );
            e.state == s && e.pre == p && e.gateway == g && e.history == h && e.commands.len() == 0
                && e.adopted is None
        }),
{
}

/// A match that a moderator has taken back or corrected is so in the history,
/// and the rating that the gateway tells is ours, with its rank and its
/// certificate. Nothing else changes, and nothing is sent.
pub proof fn moderation_reaches_the_player(
    s: MatchState,
    p: PreView,
    g: GatewayStateView,
    h: HistoryView,
    match_id: u64,
    my_score: u32,
    opponent_score: u32,
    rating: i32,
    proof: Option<ProofView>,
)
    ensures
        ({
            let taken = pushed_of(
                s,
                p,
                g,
                h,
                GatewayRequestView::MatchRevoked { match_id, rating, proof },
            );
            let edited = pushed_of(
                s,
                p,
                g,
                h,
                GatewayRequestView::MatchCorrected {
                    match_id,
                    my_score,
                    opponent_score,
                    rating,
                    proof,
                },
            );
            let rank = RANKS[rank_of(rating as int)]@;
            &&& taken.history == after_revocation(h, match_id)
            &&& edited.history == after_correction(h, match_id, my_score, opponent_score)
            &&& taken.gateway == (GatewayStateView { rating, rank: Some(rank), ..g })
            &&& edited.gateway == taken.gateway
            &&& taken.adopted == Some((rating, proof)) && edited.adopted == Some((rating, proof))
            &&& taken.state == s && edited.state == s
            &&& taken.pre == p && edited.pre == p
            &&& taken.commands.len() == 0 && edited.commands.len() == 0
        }),
{
}

/// Of the players found, those whom we are not connected to are dialled at all
/// of their addresses, and the others at none.
pub proof fn strangers_are_dialled(
    peers: Seq<PeerId>,
    found: Seq<(PeerId, Vec<Multiaddr>)>,
    n: nat,
)
    requires
        n < found.len(),
    ensures
        peers.contains(found[n as int].0) ==> dial_found(peers, found, n + 1) == dial_found(
            peers,
            found,
            n,
        ),
        !peers.contains(found[n as int].0) ==> ({
            let addrs = found[n as int].1@;
            let before = dial_found(peers, found, n);
            let all = dial_found(peers, found, n + 1);
            &&& all.len() == before.len() + addrs.len()
            &&& all.take(before.len() as int) == before
            &&& forall|i: int|
                0 <= i < addrs.len() ==> all[before.len() + i] == NetCommandView::Dial(
                    (#[trigger] addrs[i])@,
                )
        }),
        dial_found(peers, found, 0).len() == 0,
{
    let before = dial_found(peers, found, n);
    let all = dial_found(peers, found, n + 1);
    if !peers.contains(found[n as int].0) {
        assert(all =~= before + dial_views(found[n as int].1@));
        assert(all.take(before.len() as int) =~= before);
    }
}

/// A match that starts is against the player named, and the one with the lower
/// identity runs it. During another match that one is left first, and the new
/// opponent waits. Nothing else is forgotten.
pub proof fn matches_start_against_the_opponent(s: MatchState, peer: PeerId)
    ensures
        ({
            let got = started(s, peer);
            &&& got.opponent == Some(peer)
            &&& s.local matches Some(own) ==> (got.is_host <==> peer_less(own, peer))
            &&& s.local is None ==> got.is_host
            &&& s.screen is Menu ==> got.next == Some(Screen::Playing) && got.pending == s.pending
            &&& s.screen is Playing ==> got.next == Some(Screen::Menu) && got.pending == Some(peer)
            &&& got.screen == s.screen && got.local == s.local && got.intent == s.intent
            &&& got.matched == s.matched && got.active_match == s.active_match
        }),
{
}

/// A pairing that is given up is declined to its opponent, who is remembered,
/// and there is a pause of eight seconds before the next.
pub proof fn cancelled_pairings_are_declined(p: PreView, x: PeerId)
    ensures
        ({
            let c = pairing_cancelled(p);
            &&& c.opponent is None
            &&& p.opponent is Some ==> c.waiting is None && c.countdown is None
            &&& c.resume is Some && crate::prematch::nanos_left(c.resume->0) == 8_000_000_000
            &&& c.rejected.contains(x) <==> p.rejected.contains(x) || p.opponent == Some(x)
            &&& p.opponent is None ==> declined(p).len() == 0
            &&& p.opponent matches Some(peer) ==> declined(p) == seq![
                NetCommandView::SendRequest { peer, request: Request::DeclineMatch },
            ]
        }),
{
}

/// A greeting tells the name of whoever sent it, and a name of nothing is none.
/// No other message touches the names.
pub proof fn greetings_tell_names(
    s: MatchState,
    p: PreView,
    names: Map<PeerId, Seq<char>>,
    peer: PeerId,
    name: String,
    request: Request,
)
    ensures
        ({
            let e = game_effect(s, p, names, peer, Request::Hello { name });
            &&& name@.len() > 0 ==> e.names == names.insert(peer, name@)
            &&& name@.len() == 0 ==> e.names == names
            &&& e.state == s && e.pre == p && e.commands.len() == 0 && e.seed is None
            &&& !(request is Hello) ==> game_effect(s, p, names, peer, request).names == names
        }),
{
}

/// An invitation opens a pairing with whoever sent it, in the menu and if there
/// is none; during a match it is answered with the start of the next one.
pub proof fn invitations_open_a_pairing(
    s: MatchState,
    p: PreView,
    names: Map<PeerId, Seq<char>>,
    peer: PeerId,
)
    ensures
        ({
            let e = game_effect(s, p, names, peer, Request::InviteToPlay);
            &&& e.seed is None
            &&& s.screen is Menu ==> e.state == s && e.commands.len() == 0
            &&& s.screen is Menu && p.opponent is None ==> e.pre.opponent == Some(peer)
                && e.pre.waiting is Some && !e.pre.self_accepted && !e.pre.opp_accepted
            &&& s.screen is Menu && p.opponent is Some ==> e.pre == p
            &&& s.screen is Playing ==> e.pre == p && e.state.opponent == Some(peer)
                && e.state.pending == Some(peer) && e.state.next == Some(Screen::Menu)
                && e.state.intent is Idle && e.commands == seq![
                NetCommandView::SendRequest { peer, request: Request::MatchStart },
            ]
        }),
{
}

/// The opponent's acceptance and refusal count, nobody else's; a refusal ends
/// the pairing and is answered.
pub proof fn only_the_opponent_decides(
    s: MatchState,
    p: PreView,
    names: Map<PeerId, Seq<char>>,
    peer: PeerId,
)
    ensures
        ({
            let yes = game_effect(s, p, names, peer, Request::AcceptMatch);
            let no = game_effect(s, p, names, peer, Request::DeclineMatch);
            &&& yes.state == s && no.state == s && yes.commands.len() == 0
            &&& yes.seed is None && no.seed is None
            &&& p.opponent != Some(peer) ==> yes.pre == p && no.pre == p && no.commands.len() == 0
            &&& p.opponent == Some(peer) ==> yes.pre.opp_accepted && yes.pre.opponent == p.opponent
                && yes.pre.self_accepted == p.self_accepted
            &&& p.opponent == Some(peer) && p.self_accepted ==> yes.pre.countdown is Some
            &&& p.opponent == Some(peer) ==> no.pre.opponent is None && no.pre.rejected.contains(
                peer,
            ) && no.pre.resume is Some && no.commands == seq![
                NetCommandView::SendRequest { peer, request: Request::DeclineMatch },
            ]
        }),
{
}

/// Being told to start starts the match against whoever said so; only the
/// opponent of a running match can end it.
pub proof fn starts_and_ends_come_from_the_opponent(
    s: MatchState,
    p: PreView,
    names: Map<PeerId, Seq<char>>,
    peer: PeerId,
)
    ensures
        ({
            let go = game_effect(s, p, names, peer, Request::MatchStart);
            let end = game_effect(s, p, names, peer, Request::MatchAbort);
            &&& go.state.opponent == Some(peer) && go.state.intent is Idle
            &&& s.screen is Menu ==> go.state.next == Some(Screen::Playing)
            &&& s.screen is Playing ==> go.state.next == Some(Screen::Menu) && go.state.pending
                == Some(peer)
            &&& s.local matches Some(own) ==> (go.state.is_host <==> peer_less(own, peer))
            &&& go.pre == p && end.pre == p && go.commands.len() == 0 && end.commands.len() == 0
            &&& go.seed is None && end.seed is None
            &&& !(s.screen is Playing && s.opponent == Some(peer)) ==> end.state == s
            &&& s.screen is Playing && s.opponent == Some(peer) ==> end.state.next == Some(
                Screen::Menu,
            ) && end.state.pending is None && end.state == (MatchState {
                next: end.state.next,
                pending: end.state.pending,
                ..s
            })
        }),
{
}

/// Who is handed the host's part is the host from then on, against whoever
/// handed it over. During a match the simulation goes on from the very state
/// that was handed over, which is confirmed.
pub proof fn handed_over_matches_go_on(
    s: MatchState,
    p: PreView,
    names: Map<PeerId, Seq<char>>,
    peer: PeerId,
    snapshot: GameSnapshot,
)
    ensures
        ({
            let e = game_effect(s, p, names, peer, Request::MigrateHost(snapshot));
            &&& e.state.is_host && e.state.opponent == Some(peer) && e.state.intent is Idle
            &&& e.pre == p
            &&& s.screen is Playing ==> e.seed == Some(snapshot) && e.state.next == s.next
                && e.commands == seq![
                NetCommandView::SendRequest { peer, request: Request::HostMigrated },
            ]
            &&& s.screen is Menu ==> e.seed is None && e.state.next == Some(Screen::Playing)
                && e.commands.len() == 0
            &&& e.state.pending == s.pending && e.state.active_match == s.active_match
            &&& e.state.matched == s.matched && e.state.local == s.local
        }),
{
}

/// Snapshots, confirmations and chat change nothing of the match.
pub proof fn other_messages_change_nothing(
    s: MatchState,
    p: PreView,
    names: Map<PeerId, Seq<char>>,
    peer: PeerId,
    request: Request,
)
    requires
        request is State || request is HostMigrated || request is Chat,
    ensures
        ({
            let e = game_effect(s, p, names, peer, request);
            e.state == s && e.pre == p && e.names == names && e.commands.len() == 0 && e.seed
                is None
        }),
{
}

/// Who waits in the queue of the gateway leaves it by saying so to the gateway,
/// and goes back by asking again, if there is a route; nobody else says
/// anything.
pub proof fn queueing_is_said_to_the_gateway(g: GatewayStateView, peer: PeerId)
    ensures
        g.peer == Some(peer) && g.queued ==> dequeue(g) == seq![
            NetCommandView::SendGatewayRequest { peer, request: GatewayRequestView::LeaveQueue },
        ],
        g.peer is None || !g.queued ==> dequeue(g).len() == 0,
        g.peer == Some(peer) && g.connected && g.reserved ==> requeue(g) == seq![
            NetCommandView::SendGatewayRequest { peer, request: GatewayRequestView::QueueMatch },
        ],
        g.peer is None || !g.connected || !g.reserved ==> requeue(g).len() == 0,
{
}

/// After a match its opponent and its number are forgotten, and only these;
/// whoever waited for its end is played then.
pub proof fn exits_forget_the_match(s: MatchState, peer: PeerId)
    ensures
        exited(s).opponent is None && exited(s).active_match == 0,
        exited(s) == (MatchState {
            opponent: exited(s).opponent,
            active_match: exited(s).active_match,
            ..s
        }),
        s.pending is None ==> pending_entered(s) == s,
        s.pending == Some(peer) ==> pending_entered(s).opponent == Some(peer) && pending_entered(
            s,
        ).next == Some(Screen::Playing) && pending_entered(s).pending is None && pending_entered(
            s,
        ).is_host == s.is_host && pending_entered(s).active_match == s.active_match,
{
}

/// Somebody else who drops out does not matter. A host whose guest drops out is
/// back in the menu and waits ten seconds for them; in the menu an opponent who
/// drops out is forgotten.
pub proof fn dropping_out_ends_the_match(
    s: MatchState,
    c: ReconnectionState,
    peer: PeerId,
    sim_running: bool,
)
    ensures
        ({
            let got = state_after_drop(s, peer, sim_running);
            let waits = reconnection_after_drop(s, c, peer, sim_running);
            &&& s.opponent != Some(peer) ==> got == s && waits == c && !takes_over(
                s,
                peer,
                sim_running,
            )
            &&& s.opponent == Some(peer) && s.screen is Playing && (s.is_host || sim_running) ==> {
                &&& !takes_over(s, peer, sim_running)
                &&& got.next == Some(Screen::Menu) && got.pending is None
                &&& got.opponent == s.opponent && got.is_host == s.is_host
                &&& waits.active && waits.target == Some(peer)
                &&& waits.countdown is Some && crate::prematch::nanos_left(waits.countdown->0)
                    == 10_000_000_000
            }
            &&& s.opponent == Some(peer) && s.screen is Menu ==> got.opponent is None && got.pending
                is None && got.next == s.next && waits == c
            &&& s.opponent == Some(peer) && s.screen is Playing && !s.is_host && !sim_running
                ==> takes_over(s, peer, sim_running) && got.is_host && got.pending == s.pending
        }),
{
}

/// Waiting for an opponent who dropped out ends when the countdown is over, and
/// goes on until then.
pub proof fn waiting_ends_with_the_countdown(
    c: ReconnectionState,
    peer: PeerId,
    t: Timer,
    delta: u64,
)
    requires
        c.active,
        c.target == Some(peer),
        c.countdown == Some(t),
        !t.repeating,
        !t.finished,
        t.elapsed <= t.duration,
    ensures
        ({
            let got = reconnection_after(c, delta);
            let left = crate::prematch::nanos_left(t);
            &&& delta < left ==> got.active && got.target == Some(peer) && got.countdown is Some
                && crate::prematch::nanos_left(got.countdown->0) == left - delta
            &&& delta >= left ==> !got.active && got.target is None
        }),
{
}

/// Nobody is waited for who did not drop out.
pub proof fn nobody_is_waited_for_in_vain(c: ReconnectionState, delta: u64)
    requires
        !c.active || c.target is None || c.countdown is None,
    ensures
        reconnection_after(c, delta) == c,
{
}

/// A player who connects is in the list once, behind those before; they are
/// greeted with our name the first time, and told that we accepted if the
/// gateway matched us and we did.
pub proof fn newcomers_are_greeted(
    peers: Seq<PeerId>,
    matched: Option<PeerId>,
    p: PreView,
    username: String,
    peer: PeerId,
)
    ensures
        with_peer(peers, peer).contains(peer),
        peers.contains(peer) ==> with_peer(peers, peer) == peers,
        !peers.contains(peer) ==> with_peer(peers, peer) == peers.push(peer),
        ({
            let said = greetings(peers, matched, p, username, peer);
            let again = matched == Some(peer) && p.self_accepted && p.opponent == Some(peer);
            &&& said.len() == (if peers.contains(peer) {
                0int
            } else {
                1
            }) + (if again {
                1int
            } else {
                0
            })
            &&& !peers.contains(peer) ==> said[0] == (NetCommandView::SendRequest {
                peer,
                request: Request::Hello { name: username },
            })
            &&& again ==> said.last() == (NetCommandView::SendRequest {
                peer,
                request: Request::AcceptMatch,
            })
        }),
{
    if !peers.contains(peer) {
        assert(peers.push(peer)[peers.len() as int] == peer);
    }
}

/// The player challenged is the first who may be: whoever stands before them is
/// the gateway or somebody with whom a pairing fell through, and if nobody is
/// challenged everybody is one of these.
pub proof fn the_first_free_player_is_challenged(
    peers: Seq<PeerId>,
    gateway: Option<PeerId>,
    rejected: Set<PeerId>,
    from: int,
    j: int,
)
    requires
        0 <= from <= j < peers.len(),
        gateway != Some(peers[j]),
        !rejected.contains(peers[j]),
    ensures
        next_rival(peers, gateway, rejected, from) is Some,
        (forall|k: int|
            from <= k < j ==> gateway == Some(#[trigger] peers[k]) || rejected.contains(peers[k]))
            ==> next_rival(peers, gateway, rejected, from) == Some(peers[j]),
    decreases peers.len() - from,
{
    if gateway == Some(peers[from]) || rejected.contains(peers[from]) {
        the_first_free_player_is_challenged(peers, gateway, rejected, from + 1, j);
    }
}

/// Whoever is challenged is sent an invitation, once, and is the opponent of
/// the pairing that then begins; while there is one nobody is challenged.
pub proof fn challenges_are_sent(
    p: PreView,
    gateway: Option<PeerId>,
    peers: Seq<PeerId>,
    peer: PeerId,
)
    ensures
        p.opponent is Some ==> invited(p, gateway, peers) == p && invitation(
            p,
            gateway,
            peers,
        ).len() == 0,
        p.opponent is None && next_rival(peers, gateway, p.rejected, 0) is None ==> invited(
            p,
            gateway,
            peers,
        ) == p && invitation(p, gateway, peers).len() == 0,
        p.opponent is None && next_rival(peers, gateway, p.rejected, 0) == Some(peer) ==> ({
            let got = invited(p, gateway, peers);
            &&& got.opponent == Some(peer) && !got.self_accepted && !got.opp_accepted
            &&& got.waiting is Some && got.rejected == p.rejected
            &&& invitation(p, gateway, peers) == seq![
                NetCommandView::SendRequest { peer, request: Request::InviteToPlay },
            ]
        }),
{
}

/// A node that has told what it is is challenged exactly if we search, are not
/// paired, and it is a player with whom no pairing fell through.
pub proof fn only_players_are_challenged(
    p: PreView,
    search: bool,
    gateway: Option<PeerId>,
    peer: PeerId,
    agent: Seq<char>,
)
    ensures
        offers_match(p, search, gateway, peer, agent) <==> search && p.opponent is None
            && gateway != Some(peer) && !p.rejected.contains(peer) && !contains_text(
            agent,
            "pong-gateway/1.0.0"@,
        ),
{
}

/// The gateway that is dialled is the first that is known, if its address can
/// be read, and else the one on this machine.
pub proof fn the_first_gateway_is_dialled(t: Seq<char>)
    ensures
        text_addr_parts(t) is Some ==> gateway_target(Some(t)) == text_addr_parts(t),
        text_addr_parts(t) is None ==> gateway_target(Some(t)) == text_addr_parts(
            "/ip4/127.0.0.1/tcp/4001"@,
        ),
        gateway_target(None) == text_addr_parts("/ip4/127.0.0.1/tcp/4001"@),
{
}

/// A search that starts without a gateway dials one and knows nothing else of
/// it; with a gateway it registers, or asks for the route that is missing, and
/// forgets nothing.
pub proof fn searches_go_over_the_gateway(
    g: GatewayStateView,
    target: Option<Seq<PartView>>,
    who: Credentials,
    peer: PeerId,
)
    ensures
        g.peer is Some ==> search_gateway(g, target) == g,
        g.peer is None ==> ({
            let got = search_gateway(g, target);
            got.addr == target && got.peer is None && !got.connected && !got.reserved && !got.queued
                && got.rank is None && got.rating == 0
        }),
        g.peer is None ==> (target matches Some(a) ==> search_commands(g, target, who) == seq![
            NetCommandView::Dial(a),
        ]),
        g.peer is None && target is None ==> search_commands(g, target, who).len() == 0,
        g.peer == Some(peer) && g.connected && g.reserved ==> search_commands(g, target, who)
            == seq![
            NetCommandView::SendGatewayRequest {
                peer,
                request: GatewayRequestView::Register {
                    username: who.username@,
                    rating: who.rating,
                    proof: proof_view(who.proof),
                },
            },
        ],
        g.peer == Some(peer) && g.connected && !g.reserved ==> search_commands(g, target, who)
            == reservation(g, peer),
        g.peer is Some && !g.connected ==> search_commands(g, target, who).len() == 0,
{
}

/// The rendezvous server is asked while we search and there is a gateway with a
/// route; a search goes on after a pause if we still search and are free.
pub proof fn searching_needs_a_reason(search: bool, g: GatewayStateView, p: PreView)
    ensures
        can_discover(search, g) <==> search && g.connected && g.reserved && g.peer is Some,
        resumes(p, search) <==> search && p.opponent is None,
{
}

/// The pause after a pairing fell through runs down; when it is over the search
/// goes on, with the queue and the next player, if we still search and are
/// free.
pub proof fn searches_go_on_after_the_pause(
    p: PreView,
    search: bool,
    g: GatewayStateView,
    peers: Seq<PeerId>,
    delta: u64,
    t: Timer,
)
    requires
        p.resume == Some(t),
        !t.repeating,
        !t.finished,
        t.elapsed <= t.duration,
    ensures
        ({
            let got = pause_ticked(p, search, g, peers, delta);
            let said = pause_commands(p, search, g, peers, delta);
            let left = crate::prematch::nanos_left(t);
            &&& delta < left ==> said.len() == 0 && got.resume is Some
                && crate::prematch::nanos_left(got.resume->0) == left - delta && got.opponent
                == p.opponent && got.rejected == p.rejected && got.waiting == p.waiting
                && got.countdown == p.countdown
            &&& delta >= left && !(search && p.opponent is None) ==> said.len() == 0 && got.resume
                is None && got.opponent == p.opponent && got.rejected == p.rejected
            &&& delta >= left && search && p.opponent is None ==> got.resume is None && got.opponent
                == next_rival(peers, g.peer, p.rejected, 0) && said == requeue(g) + invitation(
                p,
                g.peer,
                peers,
            )
        }),
{
}

/// Without a pause nothing goes on by itself.
pub proof fn pauses_are_needed(
    p: PreView,
    search: bool,
    g: GatewayStateView,
    peers: Seq<PeerId>,
    delta: u64,
)
    requires
        p.resume is None,
    ensures
        pause_ticked(p, search, g, peers, delta) == p,
        pause_commands(p, search, g, peers, delta).len() == 0,
{
}

/// The player's own word in the dialog: accepting is said to the opponent once,
/// and refusing ends the pairing and is said too. Without a pairing there is
/// nothing to say.
pub proof fn the_players_word_counts(
    s: MatchState,
    p: PreView,
    peer: PeerId,
    button: Option<PreMatchButton>,
    delta: u64,
)
    ensures
        p.opponent is None ==> ({
            let e = dialog_of(s, p, button, delta);
            e.state == s && e.pre == p && e.commands.len() == 0
        }),
        p.opponent == Some(peer) ==> ({
            let no = dialog_of(s, p, Some(PreMatchButton::Reject), delta);
            let yes = dialog_of(s, p, Some(PreMatchButton::Accept), delta);
            let quiet = dialog_of(s, p, None, delta);
            &&& no.state == s && no.pre.opponent is None && no.pre.rejected.contains(peer)
                && no.pre.resume is Some
            &&& no.commands == seq![
                NetCommandView::SendRequest { peer, request: Request::DeclineMatch },
            ]
            &&& !p.self_accepted ==> yes.commands.len() > 0 && yes.commands[0] == (
            NetCommandView::SendRequest { peer, request: Request::AcceptMatch })
            &&& p.self_accepted ==> yes == quiet
        }),
{
}

/// Silence ends a pairing when the wait is over: the opponent is told, and
/// remembered.
pub proof fn silence_cancels_the_pairing(
    s: MatchState,
    p: PreView,
    peer: PeerId,
    t: Timer,
    delta: u64,
)
    requires
        p.opponent == Some(peer),
        p.waiting == Some(t),
        p.countdown is None,
        !t.repeating,
        !t.finished,
        t.elapsed <= t.duration,
    ensures
        ({
            let e = dialog_of(s, p, None, delta);
            let left = crate::prematch::nanos_left(t);
            &&& e.state == s
            &&& delta >= left ==> e.pre.opponent is None && e.pre.rejected.contains(peer)
                && e.pre.resume is Some && e.commands == seq![
                NetCommandView::SendRequest { peer, request: Request::DeclineMatch },
            ]
            &&& delta < left ==> e.pre.opponent == Some(peer) && e.commands.len() == 0
                && e.pre.waiting is Some && crate::prematch::nanos_left(e.pre.waiting->0) == left
                - delta && e.pre.self_accepted == p.self_accepted && e.pre.opp_accepted
                == p.opp_accepted
        }),
{
    let e = dialog_of(s, p, None, delta);
    if ends_with(t, delta) {
        let p2 = PreView { waiting: Some(ticked(t, delta)), ..p };
        assert(e.commands =~= declined(p2));
    }
}

/// The match starts when the countdown is over, against the opponent of the
/// pairing, of which nothing is left; before that it does not.
pub proof fn the_countdown_starts_the_match(
    s: MatchState,
    p: PreView,
    peer: PeerId,
    t: Timer,
    delta: u64,
)
    requires
        p.opponent == Some(peer),
        p.countdown == Some(t),
        p.waiting is None,
        !t.repeating,
        !t.finished,
        t.elapsed <= t.duration,
    ensures
        ({
            let e = dialog_of(s, p, None, delta);
            let left = crate::prematch::nanos_left(t);
            &&& e.commands.len() == 0
            &&& delta >= left ==> e.state.opponent == Some(peer) && e.pre.opponent is None
                && e.pre.countdown is None
            &&& delta >= left && s.screen is Menu ==> e.state.next == Some(Screen::Playing)
            &&& delta >= left ==> (s.local matches Some(own) ==> (e.state.is_host <==> peer_less(
                own,
                peer,
            )))
            &&& delta < left ==> e.state == s && e.pre.opponent == Some(peer) && e.pre.countdown
                is Some && crate::prematch::nanos_left(e.pre.countdown->0) == left - delta
        }),
{
}

} // verus!
