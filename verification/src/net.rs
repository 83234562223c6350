//! The network side of the game: what the game asks of the network, what the
//! network tells the game, and what is known of the gateway.
use vstd::prelude::*;

use crate::addr::{
    base_of, has_circuit, is_circuit, only_the_peer_is_taken_off, p2p_part, Multiaddr, PartView,
};
use crate::ledger::opt_text;
use crate::peer::PeerId;
use crate::protocol::{
    GatewayRequest, GatewayRequestView, GatewayResponse, Request, Response, GATEWAY_AGENT_VERSION,
};
use crate::text::{contains, contains_text};

verus! {

/// The protocol of the game's own messages.
pub const GAME_PROTOCOL: &'static str = "/pong/state/1.0.0";

/// The agent version that the game advertises.
pub const AGENT_VERSION: &'static str = "pong/1.0.0";

/// What the game asks of the network.
pub enum NetCommand {
    Dial(Multiaddr),
    Listen(Multiaddr),
    /// Sends a game message to a player.
    SendRequest { peer: PeerId, request: Request },
    /// Sends a call to a gateway.
    SendGatewayRequest { peer: PeerId, request: GatewayRequest },
    /// Makes us known on a rendezvous server.
    RendezvousRegister { peer: PeerId, namespace: String },
    /// Asks a rendezvous server who else is there.
    RendezvousDiscover { peer: PeerId, namespace: String },
}

pub enum NetCommandView {
    Dial(Seq<PartView>),
    Listen(Seq<PartView>),
    SendRequest { peer: PeerId, request: Request },
    SendGatewayRequest { peer: PeerId, request: GatewayRequestView },
    RendezvousRegister { peer: PeerId, namespace: Seq<char> },
    RendezvousDiscover { peer: PeerId, namespace: Seq<char> },
}

impl View for NetCommand {
    type V = NetCommandView;

    open spec fn view(&self) -> NetCommandView {
        match *self {
            NetCommand::Dial(a) => NetCommandView::Dial(a@),
            NetCommand::Listen(a) => NetCommandView::Listen(a@),
            NetCommand::SendRequest { peer, request } => NetCommandView::SendRequest {
                peer,
                request,
            },
            NetCommand::SendGatewayRequest { peer, request } => NetCommandView::SendGatewayRequest {
                peer,
                request: request@,
            },
            NetCommand::RendezvousRegister {
                peer,
                namespace,
            } => NetCommandView::RendezvousRegister { peer, namespace: namespace@ },
            NetCommand::RendezvousDiscover {
                peer,
                namespace,
            } => NetCommandView::RendezvousDiscover { peer, namespace: namespace@ },
        }
    }
}

pub open spec fn command_views(v: Seq<NetCommand>) -> Seq<NetCommandView> {
    Seq::new(v.len(), |i: int| v[i]@)
}

/// Appends a command.
pub fn send(out: &mut Vec<NetCommand>, command: NetCommand)
    ensures
        command_views(final(out)@) == command_views(old(out)@).push(command@),
{
    out.push(command);
    assert(command_views(out@) =~= command_views(old(out)@).push(command@));
}

/// No commands.
pub fn no_commands() -> (r: Vec<NetCommand>)
    ensures
        command_views(r@) == Seq::<NetCommandView>::empty(),
{
    let r: Vec<NetCommand> = Vec::new();
    assert(command_views(r@) =~= Seq::empty());
    r
}

/// What the network tells the game.
pub enum NetEvent {
    /// Our own identity.
    LocalPeerId(PeerId),
    Listening(Multiaddr),
    PeerConnected(PeerId),
    PeerDisconnected(PeerId),
    PeerPinged { peer: PeerId, rtt_nanos: u64 },
    Identity { peer: PeerId, agent: String },
    GameRequest { peer: PeerId, request: Request },
    GameResponse { peer: PeerId, response: Response },
    GatewayResponse { peer: PeerId, response: GatewayResponse },
    GatewayRequest { peer: PeerId, request: GatewayRequest },
    RelayReservation { relay_peer: PeerId, success: bool },
    RendezvousDiscovered { peers: Vec<(PeerId, Vec<Multiaddr>)> },
    DcutrEstablished { peer: PeerId },
    Error(String),
}

/// Whether an agent version is a gateway's.
pub fn is_gateway_agent(agent: &str) -> (r: bool)
    ensures
        r == contains_text(agent@, GATEWAY_AGENT_VERSION@),
{
    contains(agent, GATEWAY_AGENT_VERSION)
}

/// What is known of the gateway.
pub struct GatewayState {
    /// The address that was dialled.
    pub addr: Option<Multiaddr>,
    pub peer: Option<PeerId>,
    pub connected: bool,
    /// A relayed route through the gateway is reserved.
    pub reserved: bool,
    /// We are waiting for an opponent.
    pub queued: bool,
    pub rank: Option<String>,
    pub rating: i32,
}

pub struct GatewayStateView {
    pub addr: Option<Seq<PartView>>,
    pub peer: Option<PeerId>,
    pub connected: bool,
    pub reserved: bool,
    pub queued: bool,
    pub rank: Option<Seq<char>>,
    pub rating: i32,
}

pub open spec fn opt_addr(a: Option<Multiaddr>) -> Option<Seq<PartView>> {
    match a {
        Some(a) => Some(a@),
        None => None,
    }
}

impl View for GatewayState {
    type V = GatewayStateView;

    open spec fn view(&self) -> GatewayStateView {
        GatewayStateView {
            addr: opt_addr(self.addr),
            peer: self.peer,
            connected: self.connected,
            reserved: self.reserved,
            queued: self.queued,
            rank: opt_text(self.rank),
            rating: self.rating,
        }
    }
}

/// The dialled address without a peer at its end.
pub open spec fn base_addr_of(g: GatewayStateView) -> Option<Seq<PartView>> {
    match g.addr {
        Some(a) => Some(base_of(a)),
        None => None,
    }
}

impl GatewayState {
    /// Nothing is known yet.
    pub fn new() -> (r: GatewayState)
        ensures
            r@ == (GatewayStateView {
                addr: None,
                peer: None,
                connected: false,
                reserved: false,
                queued: false,
                rank: None,
                rating: 0,
            }),
    {
        GatewayState {
            addr: None,
            peer: None,
            connected: false,
            reserved: false,
            queued: false,
            rank: None,
            rating: 0,
        }
    }

    /// The dialled address without a peer at its end, to build relayed routes
    /// from.
    pub fn base_addr(&self) -> (r: Option<Multiaddr>)
        ensures
            opt_addr(r) == base_addr_of(self@),
    {
        match &self.addr {
            Some(a) => Some(a.base()),
            None => None,
        }
    }
}

// ---------------------------------------------------------------------------
// The swarm
// ---------------------------------------------------------------------------

/// What happens in the swarm.
pub enum SwarmInput {
    NewListenAddr(Multiaddr),
    Connected(PeerId),
    /// A connection was closed; others to the same peer may remain.
    Closed { peer: PeerId, still_connected: bool },
    Pinged { peer: PeerId, rtt_nanos: u64 },
    Identified { peer: PeerId, agent: String },
    GameRequest { peer: PeerId, request: Request },
    GameResponse { peer: PeerId, response: Response },
    GatewayRequest { peer: PeerId, request: GatewayRequest },
    GatewayResponse { peer: PeerId, response: GatewayResponse },
    Discovered { peers: Vec<(PeerId, Vec<Multiaddr>)> },
    ReservationAccepted(PeerId),
    HolePunched { peer: PeerId, ok: bool },
    /// A player was found on the local network.
    LocalPeer { addr: Multiaddr, connected: bool },
}

/// What is then done.
pub enum SwarmAction {
    /// The address may be told to others.
    AddExternal(Multiaddr),
    /// The game is told.
    Emit(NetEvent),
    /// A game message is acknowledged.
    AckGame,
    /// A message of the gateway is acknowledged.
    AckGateway,
    /// The running simulation gets the height of the other paddle.
    FeedPaddle(u32),
    Dial(Multiaddr),
}

/// What is done when something happens in the swarm.
pub open spec fn swarm_actions(local: PeerId, sim_running: bool, input: SwarmInput) -> Seq<
    SwarmAction,
> {
    match input {
        SwarmInput::NewListenAddr(a) => if has_circuit(a@) {
            seq![
                SwarmAction::AddExternal(a),
                SwarmAction::Emit(
                    NetEvent::RelayReservation { relay_peer: local, success: true },
                ),
            ]
        } else {
            seq![SwarmAction::Emit(NetEvent::Listening(a))]
        },
        SwarmInput::Connected(peer) => seq![SwarmAction::Emit(NetEvent::PeerConnected(peer))],
        SwarmInput::Closed { peer, still_connected } => if still_connected {
            Seq::empty()
        } else {
            seq![SwarmAction::Emit(NetEvent::PeerDisconnected(peer))]
        },
        SwarmInput::Pinged { peer, rtt_nanos } => seq![
            SwarmAction::Emit(NetEvent::PeerPinged { peer, rtt_nanos }),
        ],
        SwarmInput::Identified { peer, agent } => seq![
            SwarmAction::Emit(NetEvent::Identity { peer, agent }),
        ],
        SwarmInput::GameRequest { peer, request } => {
            let told = SwarmAction::Emit(NetEvent::GameRequest { peer, request });
            match request {
                Request::State(snapshot) if sim_running => seq![
                    SwarmAction::AckGame,
                    SwarmAction::FeedPaddle(snapshot.player_paddle.y),
                    told,
                ],
                _ => seq![SwarmAction::AckGame, told],
            }
        },
        SwarmInput::GameResponse { peer, response } => seq![
            SwarmAction::Emit(NetEvent::GameResponse { peer, response }),
        ],
        SwarmInput::GatewayRequest { peer, request } => seq![
            SwarmAction::AckGateway,
            SwarmAction::Emit(NetEvent::GatewayRequest { peer, request }),
        ],
        SwarmInput::GatewayResponse { peer, response } => seq![
            SwarmAction::Emit(NetEvent::GatewayResponse { peer, response }),
        ],
        SwarmInput::Discovered { peers } => seq![
            SwarmAction::Emit(NetEvent::RendezvousDiscovered { peers }),
        ],
        SwarmInput::ReservationAccepted(relay_peer) => seq![
            SwarmAction::Emit(NetEvent::RelayReservation { relay_peer, success: true }),
        ],
        SwarmInput::HolePunched { peer, ok } => if ok {
            seq![SwarmAction::Emit(NetEvent::DcutrEstablished { peer })]
        } else {
            Seq::empty()
        },
        SwarmInput::LocalPeer { addr, connected } => if connected {
            Seq::empty()
        } else {
            seq![SwarmAction::Dial(addr)]
        },
    }
}

/// Decides what is done when something happens in the swarm. The height of
/// the guest's paddle goes straight to a running simulation, so that a host
/// whose window is hidden keeps playing.
pub fn on_swarm_event(local: &PeerId, sim_running: bool, input: SwarmInput) -> (r: Vec<SwarmAction>)
    ensures
        r@ == swarm_actions(*local, sim_running, input),
{
    let mut out: Vec<SwarmAction> = Vec::new();
    match input {
        SwarmInput::NewListenAddr(a) => {
            if is_circuit(&a) {
                out.push(SwarmAction::AddExternal(a));
                out.push(
                    SwarmAction::Emit(
                        NetEvent::RelayReservation { relay_peer: *local, success: true },
                    ),
                );
            } else {
                out.push(SwarmAction::Emit(NetEvent::Listening(a)));
            }
        },
        SwarmInput::Connected(peer) => {
            out.push(SwarmAction::Emit(NetEvent::PeerConnected(peer)));
        },
        SwarmInput::Closed { peer, still_connected } => {
            if !still_connected {
                out.push(SwarmAction::Emit(NetEvent::PeerDisconnected(peer)));
            }
        },
        SwarmInput::Pinged { peer, rtt_nanos } => {
            out.push(SwarmAction::Emit(NetEvent::PeerPinged { peer, rtt_nanos }));
        },
        SwarmInput::Identified { peer, agent } => {
            out.push(SwarmAction::Emit(NetEvent::Identity { peer, agent }));
        },
        SwarmInput::GameRequest { peer, request } => {
            out.push(SwarmAction::AckGame);
            if sim_running {
                if let Request::State(snapshot) = &request {
                    out.push(SwarmAction::FeedPaddle(snapshot.player_paddle.y));
                }
            }
            out.push(SwarmAction::Emit(NetEvent::GameRequest { peer, request }));
        },
        SwarmInput::GameResponse { peer, response } => {
            out.push(SwarmAction::Emit(NetEvent::GameResponse { peer, response }));
        },
        SwarmInput::GatewayRequest { peer, request } => {
            out.push(SwarmAction::AckGateway);
            out.push(SwarmAction::Emit(NetEvent::GatewayRequest { peer, request }));
        },
        SwarmInput::GatewayResponse { peer, response } => {
            out.push(SwarmAction::Emit(NetEvent::GatewayResponse { peer, response }));
        },
        SwarmInput::Discovered { peers } => {
            out.push(SwarmAction::Emit(NetEvent::RendezvousDiscovered { peers }));
        },
        SwarmInput::ReservationAccepted(relay_peer) => {
            out.push(SwarmAction::Emit(NetEvent::RelayReservation { relay_peer, success: true }));
        },
        SwarmInput::HolePunched { peer, ok } => {
            if ok {
                out.push(SwarmAction::Emit(NetEvent::DcutrEstablished { peer }));
            }
        },
        SwarmInput::LocalPeer { addr, connected } => {
            if !connected {
                out.push(SwarmAction::Dial(addr));
            }
        },
    }
    assert(out@ =~= swarm_actions(*local, sim_running, input));
    out
}

/// Taking the peer off the end of an address that has none changes nothing,
/// and doing it twice is doing it once where no two peers end the address.
pub proof fn base_addresses_are_stable(g: GatewayStateView, a: Seq<PartView>)
    requires
        g.addr == Some(a),
        a.len() < 2 || !(a[a.len() - 2].kind is P2p),
    ensures
        base_addr_of(GatewayStateView { addr: base_addr_of(g), ..g }) == base_addr_of(g),
{
}

/// The way to a gateway is the address that was dialled, without the peer that
/// it may end in; where none was dialled there is none.
pub proof fn the_dialled_address_is_the_base(
    g: GatewayStateView,
    parts: Seq<PartView>,
    peer: PeerId,
)
    ensures
        g.addr == Some(parts.push(p2p_part(peer))) ==> base_addr_of(g) == Some(parts),
        g.addr == Some(parts) && parts.len() > 0 && !(parts.last().kind is P2p) ==> base_addr_of(g)
            == Some(parts),
        g.addr is None ==> base_addr_of(g) is None,
{
    only_the_peer_is_taken_off(parts, peer);
}

/// What a player says or asks reaches the game as it was sent and from whom,
/// and is acknowledged once, before that.
pub proof fn messages_reach_the_game(
    local: PeerId,
    sim_running: bool,
    peer: PeerId,
    request: Request,
    call: GatewayRequest,
)
    ensures
        ({
            let game = swarm_actions(
                local,
                sim_running,
                SwarmInput::GameRequest { peer, request },
            );
            let pushed = swarm_actions(
                local,
                sim_running,
                SwarmInput::GatewayRequest { peer, request: call },
            );
            &&& game.len() == if sim_running && request is State {
                3int
            } else {
                2
            }
            &&& game[0] is AckGame
            &&& game.last() == SwarmAction::Emit(NetEvent::GameRequest { peer, request })
            &&& sim_running ==> (request matches Request::State(s) ==> game[1]
                == SwarmAction::FeedPaddle(s.player_paddle.y))
            &&& pushed.len() == 2 && pushed[0] is AckGateway
            &&& pushed[1] == SwarmAction::Emit(NetEvent::GatewayRequest { peer, request: call })
        }),
{
}

/// The simulation hears of the other paddle alone, and only while it runs.
pub proof fn only_snapshots_feed_the_simulation(local: PeerId, input: SwarmInput, i: int)
    requires
        0 <= i < swarm_actions(local, false, input).len(),
    ensures
        !(swarm_actions(local, false, input)[i] is FeedPaddle),
{
}

/// Answers, pings and greetings reach the game from whom they came; nothing
/// else is done about them.
pub proof fn answers_reach_the_game(
    local: PeerId,
    sim_running: bool,
    peer: PeerId,
    response: Response,
    answer: GatewayResponse,
    rtt_nanos: u64,
    agent: String,
)
    ensures
        swarm_actions(local, sim_running, SwarmInput::GameResponse { peer, response }) == seq![
            SwarmAction::Emit(NetEvent::GameResponse { peer, response }),
        ],
        swarm_actions(local, sim_running, SwarmInput::GatewayResponse { peer, response: answer })
            == seq![SwarmAction::Emit(NetEvent::GatewayResponse { peer, response: answer })],
        swarm_actions(local, sim_running, SwarmInput::Pinged { peer, rtt_nanos }) == seq![
            SwarmAction::Emit(NetEvent::PeerPinged { peer, rtt_nanos }),
        ],
        swarm_actions(local, sim_running, SwarmInput::Identified { peer, agent }) == seq![
            SwarmAction::Emit(NetEvent::Identity { peer, agent }),
        ],
{
}

/// A peer is there with its first connection and gone with its last; a relayed
/// address is told to others as a reservation, any other as one we listen on;
/// a player on the local network is dialled unless connected.
pub proof fn connections_are_told(
    local: PeerId,
    sim_running: bool,
    peer: PeerId,
    a: Multiaddr,
    peers: Vec<(PeerId, Vec<Multiaddr>)>,
)
    ensures
        swarm_actions(local, sim_running, SwarmInput::Connected(peer)) == seq![
            SwarmAction::Emit(NetEvent::PeerConnected(peer)),
        ],
        swarm_actions(local, sim_running, SwarmInput::Closed { peer, still_connected: false })
            == seq![SwarmAction::Emit(NetEvent::PeerDisconnected(peer))],
        swarm_actions(
            local,
            sim_running,
            SwarmInput::Closed { peer, still_connected: true },
        ).len() == 0,
        has_circuit(a@) ==> swarm_actions(local, sim_running, SwarmInput::NewListenAddr(a)) == seq![
            SwarmAction::AddExternal(a),
            SwarmAction::Emit(NetEvent::RelayReservation { relay_peer: local, success: true }),
        ],
        !has_circuit(a@) ==> swarm_actions(local, sim_running, SwarmInput::NewListenAddr(a))
            == seq![SwarmAction::Emit(NetEvent::Listening(a))],
        swarm_actions(local, sim_running, SwarmInput::ReservationAccepted(peer)) == seq![
            SwarmAction::Emit(NetEvent::RelayReservation { relay_peer: peer, success: true }),
        ],
        swarm_actions(local, sim_running, SwarmInput::Discovered { peers }) == seq![
            SwarmAction::Emit(NetEvent::RendezvousDiscovered { peers }),
        ],
        swarm_actions(local, sim_running, SwarmInput::HolePunched { peer, ok: true }) == seq![
            SwarmAction::Emit(NetEvent::DcutrEstablished { peer }),
        ],
        swarm_actions(local, sim_running, SwarmInput::HolePunched { peer, ok: false }).len() == 0,
        swarm_actions(local, sim_running, SwarmInput::LocalPeer { addr: a, connected: false })
            == seq![SwarmAction::Dial(a)],
        swarm_actions(
            local,
            sim_running,
            SwarmInput::LocalPeer { addr: a, connected: true },
        ).len() == 0,
{
}

} // verus!
