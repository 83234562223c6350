//! The texts of the menu, and what its name fields do.
use vstd::prelude::*;

use crate::client::{register_request, register_view, to_gateway, Credentials};
use crate::history::{count_results, with_setting, HistoryView, MatchHistory};
use crate::ledger::opt_text;
use crate::net::{
    command_views, no_commands, send, GatewayState, GatewayStateView, NetCommand, NetCommandView,
};
use crate::peer::{base58, same_peer, short_peer, short_text, PeerId};
use crate::prematch::{nanos_left, PreMatch, PreView};
use crate::protocol::{next_rank_name, rank_of, RANKS};
use crate::table::Table;
use crate::text::{decimal, decimal_of, signed_decimal, signed_decimal_of, trim, trim_of};

verus! {

/// The name of a player who has not chosen one.
pub const DEFAULT_NAME: &'static str = "Player";

/// The name at the start: the stored one unless it is blank, and whether the
/// player is to be asked for one.
pub open spec fn initial_name(stored: Option<Seq<char>>) -> (Seq<char>, bool) {
    match stored {
        Some(n) if trim_of(n).len() > 0 => (n, false),
        _ => (DEFAULT_NAME@, true),
    }
}

pub fn load_settings(history: &MatchHistory) -> (r: (String, bool))
    requires
        history.wf(),
    ensures
        (r.0@, r.1) == initial_name(crate::history::setting(history@, "username"@)),
{
    if let Some(n) = history.load_username() {
        if !trim(n.as_str()).as_str().is_empty() {
            return (n, false);
        }
    }
    (DEFAULT_NAME.to_owned(), true)
}

/// Whether a new name was entered.
pub open spec fn renames(username: Seq<char>, input: Seq<char>) -> bool {
    trim_of(input).len() > 0 && username != trim_of(input)
}

/// What taking a name over does: a new one is the player's from then on, it is
/// stored and, while searching, the gateway is told. `taken` is whether there
/// is one.
pub open spec fn name_taken(
    who: Credentials,
    after: Credentials,
    h: HistoryView,
    h_after: HistoryView,
    search: bool,
    gateway: Option<PeerId>,
    input: Seq<char>,
    taken: bool,
    commands: Seq<NetCommandView>,
) -> bool {
    &&& after.username@ == if taken {
        trim_of(input)
    } else {
        who.username@
    }
    &&& after.rating == who.rating
    &&& after.proof == who.proof
    &&& h_after == if taken {
        with_setting(h, "username"@, trim_of(input))
    } else {
        h
    }
    &&& commands == match gateway {
        Some(peer) if taken && search => seq![to_gateway(peer, register_view(after))],
        _ => Seq::empty(),
    }
}

/// Takes over the name that was entered, if it is a new one.
pub fn save_name(
    who: &mut Credentials,
    history: &mut MatchHistory,
    search: bool,
    gateway: Option<PeerId>,
    input: &str,
) -> (r: Vec<NetCommand>)
    requires
        old(history).wf(),
    ensures
        final(history).wf(),
        name_taken(
            *old(who),
            *final(who),
            old(history)@,
            final(history)@,
            search,
            gateway,
            input@,
            renames(old(who).username@, input@),
            command_views(r@),
        ),
{
    let mut out = no_commands();
    let name = trim(input);
    if name.as_str().is_empty() || name == who.username {
        return out;
    }
    history.save_username(name.as_str());
    who.username = name;
    match gateway {
        Some(peer) if search => {
            send(&mut out, NetCommand::SendGatewayRequest { peer, request: register_request(who) });
            assert(command_views(out@) =~= seq![to_gateway(peer, register_view(*who))]);
        },
        _ => {},
    }
    out
}

/// The buttons of the options.
#[derive(Clone, Copy, PartialEq, Eq, Structural, Debug)]
pub enum OptionsButton {
    Save,
    Back,
}

/// Reacts to a button of the options; both close them.
pub fn update_options(
    who: &mut Credentials,
    history: &mut MatchHistory,
    search: bool,
    gateway: Option<PeerId>,
    input: &str,
    button: OptionsButton,
    open: &mut bool,
) -> (r: Vec<NetCommand>)
    requires
        old(history).wf(),
    ensures
        final(history).wf(),
        !*final(open),
        name_taken(
            *old(who),
            *final(who),
            old(history)@,
            final(history)@,
            search,
            gateway,
            input@,
            button is Save && renames(old(who).username@, input@),
            command_views(r@),
        ),
{
    *open = false;
    match button {
        OptionsButton::Save => save_name(who, history, search, gateway, input),
        OptionsButton::Back => no_commands(),
    }
}

/// The first question for a name: answered by a name that is not blank.
pub fn update_onboarding(
    who: &mut Credentials,
    history: &mut MatchHistory,
    search: bool,
    gateway: Option<PeerId>,
    input: &str,
    asking: &mut bool,
) -> (r: Vec<NetCommand>)
    requires
        old(history).wf(),
    ensures
        final(history).wf(),
        *final(asking) == (*old(asking) && trim_of(input@).len() == 0),
        name_taken(
            *old(who),
            *final(who),
            old(history)@,
            final(history)@,
            search,
            gateway,
            input@,
            *old(asking) && renames(old(who).username@, input@),
            command_views(r@),
        ),
{
    if !*asking || trim(input).as_str().is_empty() {
        return no_commands();
    }
    *asking = false;
    save_name(who, history, search, gateway, input)
}

// ---------------------------------------------------------------------------
// Lines
// ---------------------------------------------------------------------------

/// The line about ourselves: the name, with the rank or else the identity.
pub open spec fn you_of(username: Seq<char>, rank: Option<Seq<char>>, local: Option<PeerId>) -> Seq<
    char,
> {
    match (rank, local) {
        (Some(rank), _) => username + "  ·  "@ + rank,
        (None, Some(id)) => username + "  ·  "@ + short_text(base58(id)),
        (None, None) => username,
    }
}

pub fn you_line(username: &str, gateway: &GatewayState, local: &Option<PeerId>) -> (r: String)
    requires
        *local matches Some(p) ==> p.wf(),
    ensures
        r@ == you_of(username@, gateway@.rank, *local),
{
    let mut out = username.to_owned();
    match (&gateway.rank, local) {
        (Some(rank), _) => {
            out.append("  ·  ");
            out.append(rank.as_str());
        },
        (None, Some(id)) => {
            out.append("  ·  ");
            out.append(short_peer(id).as_str());
        },
        (None, None) => {},
    }
    out
}

/// How many of the players are not the gateway.
pub open spec fn visible_of(peers: Seq<PeerId>, gateway: Option<PeerId>) -> nat
    decreases peers.len(),
{
    if peers.len() == 0 {
        0
    } else {
        visible_of(peers.drop_last(), gateway) + if gateway == Some(peers.last()) {
            0nat
        } else {
            1nat
        }
    }
}

pub fn visible_players(peers: &Vec<PeerId>, gateway: &Option<PeerId>) -> (r: usize)
    ensures
        r == visible_of(peers@, *gateway),
{
    let mut n: usize = 0;
    let mut i: usize = 0;
    assert(peers@.take(0) =~= Seq::empty());
    while i < peers.len()
        invariant
            0 <= i <= peers.len(),
            n <= i,
            n == visible_of(peers@.take(i as int), *gateway),
        decreases peers.len() - i,
    {
        assert(peers@.take(i + 1).drop_last() =~= peers@.take(i as int));
        if !same_peer(gateway, &Some(peers[i])) {
            n += 1;
        }
        i += 1;
    }
    assert(peers@.take(peers@.len() as int) =~= peers@);
    n
}

/// The line about the search.
pub open spec fn status_of(paired: bool, search: bool, visible: nat) -> Seq<char> {
    if paired {
        "¡Partida encontrada! Confirma en la ventana para empezar."@
    } else if !search {
        "Listo. Pulsa Jugar para buscar rivales (LAN + WAN)."@
    } else if visible == 0 {
        "Buscando rivales en LAN y WAN…"@
    } else {
        "Buscando… "@ + decimal_of(visible) + " jugador"@ + (if visible == 1 {
            ""@
        } else {
            "es"@
        }) + " en el área."@
    }
}

pub fn status_line(
    pre: &PreMatch,
    search: bool,
    peers: &Vec<PeerId>,
    gateway: &GatewayState,
) -> (r: String)
    ensures
        r@ == status_of(pre@.opponent is Some, search, visible_of(peers@, gateway@.peer)),
{
    let visible: usize = visible_players(peers, &gateway.peer);
    if !pre.idle() {
        return "¡Partida encontrada! Confirma en la ventana para empezar.".to_owned();
    }
    if !search {
        return "Listo. Pulsa Jugar para buscar rivales (LAN + WAN).".to_owned();
    }
    if visible == 0 {
        return "Buscando rivales en LAN y WAN…".to_owned();
    }
    let mut out = "Buscando… ".to_owned();
    out.append(decimal(visible as u64).as_str());
    out.append(" jugador");
    out.append(if visible == 1 { "" } else { "es" });
    out.append(" en el área.");
    out
}

/// The line about the gateway.
pub open spec fn gateway_line_of(g: GatewayStateView, matched: Option<PeerId>) -> Seq<char> {
    match matched {
        Some(peer) => "¡Emparejado! Conectando con "@ + short_text(base58(peer)),
        None => if !g.connected {
            "Gateway: no conectado"@
        } else if !g.reserved {
            "Gateway: conectado, reservando relay…"@
        } else if !g.queued {
            match g.rank {
                Some(rank) => "Gateway: listo · rango "@ + rank,
                None => "Gateway: listo"@,
            }
        } else {
            match g.rank {
                Some(rank) => "Gateway: en cola · rango "@ + rank,
                None => "Gateway: buscando rival…"@,
            }
        },
    }
}

pub fn gateway_line(gateway: &GatewayState, matched: &Option<PeerId>) -> (r: String)
    requires
        *matched matches Some(p) ==> p.wf(),
    ensures
        r@ == gateway_line_of(gateway@, *matched),
{
    if let Some(peer) = matched {
        let mut out = "¡Emparejado! Conectando con ".to_owned();
        out.append(short_peer(peer).as_str());
        return out;
    }
    if !gateway.connected {
        return "Gateway: no conectado".to_owned();
    }
    if !gateway.reserved {
        return "Gateway: conectado, reservando relay…".to_owned();
    }
    match &gateway.rank {
        Some(rank) => {
            let mut out = if gateway.queued {
                "Gateway: en cola · rango ".to_owned()
            } else {
                "Gateway: listo · rango ".to_owned()
            };
            out.append(rank.as_str());
            out
        },
        None => if gateway.queued {
            "Gateway: buscando rival…".to_owned()
        } else {
            "Gateway: listo".to_owned()
        },
    }
}

/// The line about won, lost and drawn matches.
pub open spec fn record_of(wins: nat, losses: nat, draws: nat) -> Seq<char> {
    if wins + losses + draws == 0 {
        Seq::empty()
    } else {
        "Récord: "@ + decimal_of(wins) + "V / "@ + decimal_of(losses) + "D / "@ + decimal_of(draws)
            + "E"@
    }
}

pub fn record_line(history: &MatchHistory) -> (r: String)
    requires
        history.records@.len() <= u32::MAX,
    ensures
        r@ == record_of(
            count_results(history@.records, 1),
            count_results(history@.records, -1),
            count_results(history@.records, 0),
        ),
{
    let (wins, losses, draws) = history.wins_losses();
    if wins == 0 && losses == 0 && draws == 0 {
        return String::new();
    }
    let mut out = "Récord: ".to_owned();
    out.append(decimal(wins as u64).as_str());
    out.append("V / ");
    out.append(decimal(losses as u64).as_str());
    out.append("D / ");
    out.append(decimal(draws as u64).as_str());
    out.append("E");
    out
}

/// The label of the progress bar: the rating, and how far it is to the next
/// rank, or the rank where there is none above it.
pub open spec fn elo_label_of(rank: Option<Seq<char>>, rating: i32, percent: i32) -> Seq<char> {
    match rank {
        None => Seq::empty(),
        Some(rank) => if rating >= 2400 {
            signed_decimal_of(rating as int) + " ELO · "@ + rank
        } else {
            signed_decimal_of(rating as int) + " ELO · "@ + signed_decimal_of(percent as int)
                + "% para "@ + RANKS[rank_of(rating as int) + 1]@
        },
    }
}

/// The label of the progress bar, given the rounded percentage.
pub fn elo_label(gateway: &GatewayState, percent: i32) -> (r: String)
    ensures
        r@ == elo_label_of(gateway@.rank, gateway@.rating, percent),
{
    let rank = match &gateway.rank {
        Some(rank) => rank,
        None => {
            return String::new();
        },
    };
    let mut out = signed_decimal(gateway.rating as i64);
    out.append(" ELO · ");
    match next_rank_name(gateway.rating) {
        Some(next) => {
            out.append(signed_decimal(percent as i64).as_str());
            out.append("% para ");
            out.append(next);
        },
        None => {
            out.append(rank.as_str());
        },
    }
    out
}

/// How a player is called: by the name learned unless it is blank, else by a
/// short identity.
pub open spec fn label_of(names: Map<PeerId, Seq<char>>, peer: PeerId) -> Seq<char> {
    if names.contains_key(peer) && trim_of(names[peer]).len() > 0 {
        names[peer]
    } else {
        short_text(base58(peer))
    }
}

pub fn peer_label(names: &Table<PeerId, String>, peer: &PeerId) -> (r: String)
    requires
        names.wf(),
        peer.wf(),
    ensures
        r@ == label_of(names@, *peer),
{
    if let Some(name) = names.get(peer) {
        if !trim(name.as_str()).as_str().is_empty() {
            return name.clone();
        }
    }
    short_peer(peer)
}

/// The nanoseconds that the pairing dialog counts down: those of the wait for
/// an answer, or else those of the countdown.
pub open spec fn dialog_nanos(p: PreView) -> Option<int> {
    match (p.waiting, p.countdown) {
        (Some(t), _) => Some(nanos_left(t)),
        (None, Some(t)) => Some(nanos_left(t)),
        (None, None) => None,
    }
}

/// The nanoseconds that the pairing dialog counts down, if it does.
pub fn dialog_remaining(pre: &PreMatch) -> (r: Option<u64>)
    ensures
        match r {
            Some(n) => dialog_nanos(pre@) == Some(n as int),
            None => dialog_nanos(pre@) is None,
        },
{
    match (pre.waiting, pre.countdown) {
        (Some(t), _) => Some(t.remaining()),
        (None, Some(t)) => Some(t.remaining()),
        (None, None) => None,
    }
}

/// The text of the pairing dialog, with the seconds that are left.
pub open spec fn dialog_text(p: PreView, who: Seq<char>, seconds: int) -> Seq<char> {
    match (p.waiting, p.countdown) {
        (Some(_), _) => "Emparejado con "@ + who + "\n¿Aceptas la partida?  ("@
            + signed_decimal_of(seconds) + " s)"@,
        (None, Some(_)) => "¡Aceptada! "@ + who + "\nLa partida empieza en "@ + signed_decimal_of(
            seconds,
        ) + "…"@,
        (None, None) => "Emparejado con "@ + who + "…"@,
    }
}

/// The text of the pairing dialog, if there is a pairing. The seconds are those
/// of `dialog_remaining`, as the screen rounds them.
pub fn dialog_label(pre: &PreMatch, names: &Table<PeerId, String>, seconds: i32) -> (r: Option<
    String,
>)
    requires
        names.wf(),
        pre@.opponent matches Some(p) ==> p.wf(),
    ensures
        match pre@.opponent {
            Some(peer) => opt_text(r) == Some(
                dialog_text(pre@, label_of(names@, peer), seconds as int),
            ),
            None => r is None,
        },
{
    let peer = match pre.opponent {
        Some(p) => p,
        None => {
            return None;
        },
    };
    let who = peer_label(names, &peer);
    let out = match (pre.waiting, pre.countdown) {
        (Some(_), _) => {
            let mut out = "Emparejado con ".to_owned();
            out.append(who.as_str());
            out.append("\n¿Aceptas la partida?  (");
            out.append(signed_decimal(seconds as i64).as_str());
            out.append(" s)");
            out
        },
        (None, Some(_)) => {
            let mut out = "¡Aceptada! ".to_owned();
            out.append(who.as_str());
            out.append("\nLa partida empieza en ");
            out.append(signed_decimal(seconds as i64).as_str());
            out.append("…");
            out
        },
        (None, None) => {
            let mut out = "Emparejado con ".to_owned();
            out.append(who.as_str());
            out.append("…");
            out
        },
    };
    Some(out)
}

/// What is known of a newer version.
pub struct UpdateInfo {
    pub latest_version: Option<String>,
    pub available: bool,
    pub release_url: Option<String>,
}

/// A release was found: its tag and page, as far as they are given.
pub fn release_found(tag: Option<String>, url: Option<String>) -> (r: UpdateInfo)
    ensures
        r.available,
        opt_text(r.latest_version) == Some(
            match tag {
                Some(t) => t@,
                None => "unknown"@,
            },
        ),
        opt_text(r.release_url) == Some(
            match url {
                Some(t) => t@,
                None => ""@,
            },
        ),
{
    UpdateInfo {
        latest_version: Some(
            match tag {
                Some(t) => t,
                None => "unknown".to_owned(),
            },
        ),
        available: true,
        release_url: Some(
            match url {
                Some(t) => t,
                None => "".to_owned(),
            },
        ),
    }
}

// ---------------------------------------------------------------------------
// Laws
// ---------------------------------------------------------------------------

/// A stored name that is not blank is the player's, as it is; without one the
/// player is called so, and asked.
pub proof fn stored_names_are_kept(name: Seq<char>)
    ensures
        trim_of(name).len() > 0 ==> initial_name(Some(name)) == (name, false),
        trim_of(name).len() == 0 ==> initial_name(Some(name)) == initial_name(None),
        initial_name(None) == ("Player"@, true),
{
}

/// A name is new if it is not blank and, without the blanks around it, not the
/// one that the player has.
pub proof fn new_names_are_not_blank(username: Seq<char>, input: Seq<char>)
    ensures
        renames(username, input) <==> trim_of(input).len() > 0 && trim_of(input) != username,
{
}

/// A name that is taken is stored and said to the gateway while we search,
/// beside the rating and the certificate that we have; one that is not changes
/// nothing and is said to nobody.
pub proof fn taken_names_are_stored_and_told(
    who: Credentials,
    after: Credentials,
    h: HistoryView,
    h_after: HistoryView,
    search: bool,
    peer: PeerId,
    input: Seq<char>,
    taken: bool,
    commands: Seq<NetCommandView>,
)
    requires
        name_taken(who, after, h, h_after, search, Some(peer), input, taken, commands),
    ensures
        after.rating == who.rating && after.proof == who.proof,
        taken ==> after.username@ == trim_of(input),
        taken && h.open ==> crate::history::setting(h_after, "username"@) == Some(trim_of(input)),
        taken && search ==> commands == seq![
            NetCommandView::SendGatewayRequest {
                peer,
                request: crate::protocol::GatewayRequestView::Register {
                    username: trim_of(input),
                    rating: who.rating,
                    proof: crate::protocol::proof_view(who.proof),
                },
            },
        ],
        !taken || !search ==> commands.len() == 0,
        !taken ==> after.username@ == who.username@ && h_after == h,
{
}

/// The line about ourselves starts with our name; the rank stands behind it, or
/// else what is known of our identity.
pub proof fn we_are_called_by_our_name(username: Seq<char>, rank: Seq<char>, id: PeerId)
    ensures
        you_of(username, Some(rank), None) == username + "  ·  "@ + rank,
        you_of(username, Some(rank), Some(id)) == you_of(username, Some(rank), None),
        you_of(username, None, Some(id)) == username + "  ·  "@ + short_text(base58(id)),
        you_of(username, None, None) == username,
{
}

/// Every player in sight counts once, and the gateway not at all.
pub proof fn players_in_sight_are_counted(
    peers: Seq<PeerId>,
    gateway: Option<PeerId>,
    peer: PeerId,
)
    ensures
        visible_of(Seq::empty(), gateway) == 0,
        gateway == Some(peer) ==> visible_of(peers.push(peer), gateway) == visible_of(
            peers,
            gateway,
        ),
        gateway != Some(peer) ==> visible_of(peers.push(peer), gateway) == visible_of(
            peers,
            gateway,
        ) + 1,
{
    assert(peers.push(peer).drop_last() =~= peers);
}

/// A match that was found is told whatever else there is; before a search there
/// is nothing to tell of players; one player is told in the singular.
pub proof fn the_search_is_told(search: bool, visible: nat)
    ensures
        status_of(true, search, visible)
            == "¡Partida encontrada! Confirma en la ventana para empezar."@,
        status_of(false, false, visible) == "Listo. Pulsa Jugar para buscar rivales (LAN + WAN)."@,
        status_of(false, true, 0) == "Buscando rivales en LAN y WAN…"@,
        visible > 1 ==> status_of(false, true, visible) == "Buscando… "@ + decimal_of(visible)
            + " jugador"@ + "es"@ + " en el área."@,
        status_of(false, true, 1) == "Buscando… "@ + decimal_of(1) + " jugador"@ + ""@
            + " en el área."@,
{
}

/// The line about the gateway: whom it matched us with, or else how far we are,
/// from no connection over the route to the queue, with the rank once known.
pub proof fn the_gateway_is_told(g: GatewayStateView, peer: PeerId, rank: Seq<char>)
    ensures
        gateway_line_of(g, Some(peer)) == "¡Emparejado! Conectando con "@ + short_text(
            base58(peer),
        ),
        !g.connected ==> gateway_line_of(g, None) == "Gateway: no conectado"@,
        g.connected && !g.reserved ==> gateway_line_of(g, None)
            == "Gateway: conectado, reservando relay…"@,
        g.connected && g.reserved && !g.queued && g.rank is None ==> gateway_line_of(g, None)
            == "Gateway: listo"@,
        g.connected && g.reserved && !g.queued && g.rank == Some(rank) ==> gateway_line_of(g, None)
            == "Gateway: listo · rango "@ + rank,
        g.connected && g.reserved && g.queued && g.rank is None ==> gateway_line_of(g, None)
            == "Gateway: buscando rival…"@,
        g.connected && g.reserved && g.queued && g.rank == Some(rank) ==> gateway_line_of(g, None)
            == "Gateway: en cola · rango "@ + rank,
{
}

/// Won, lost and drawn matches are told in this order; without a match there is
/// no line.
pub proof fn the_record_is_told(wins: nat, losses: nat, draws: nat)
    ensures
        wins + losses + draws > 0 ==> record_of(wins, losses, draws) == "Récord: "@ + decimal_of(
            wins,
        ) + "V / "@ + decimal_of(losses) + "D / "@ + decimal_of(draws) + "E"@,
        record_of(0, 0, 0).len() == 0,
{
}

/// The label of the rating tells it, and how far the next rank is or, in the
/// highest, that rank; a player without a rank has none.
pub proof fn the_rating_is_told(rank: Seq<char>, rating: i32, percent: i32)
    ensures
        elo_label_of(None, rating, percent).len() == 0,
        rating >= 2400 ==> elo_label_of(Some(rank), rating, percent) == signed_decimal_of(
            rating as int,
        ) + " ELO · "@ + rank,
        rating < 2400 ==> elo_label_of(Some(rank), rating, percent) == signed_decimal_of(
            rating as int,
        ) + " ELO · "@ + signed_decimal_of(percent as int) + "% para "@ + RANKS[rank_of(
            rating as int,
        ) + 1]@,
{
}

/// A player is called by the name that they told unless it is blank, and else
/// by their identity.
pub proof fn blank_names_are_none(names: Map<PeerId, Seq<char>>, peer: PeerId)
    ensures
        names.contains_key(peer) && trim_of(names[peer]).len() > 0 ==> label_of(names, peer)
            == names[peer],
        !names.contains_key(peer) || trim_of(names[peer]).len() == 0 ==> label_of(names, peer)
            == short_text(base58(peer)),
{
}

/// The dialog counts down the wait for an answer, or else the countdown, and
/// tells the seconds given and who the opponent is.
pub proof fn dialogs_count_down(p: PreView, who: Seq<char>, seconds: int)
    ensures
        p.waiting matches Some(t) ==> dialog_nanos(p) == Some(nanos_left(t)) && dialog_text(
            p,
            who,
            seconds,
        ) == "Emparejado con "@ + who + "\n¿Aceptas la partida?  ("@ + signed_decimal_of(seconds)
            + " s)"@,
        p.waiting is None ==> (p.countdown matches Some(t) ==> dialog_nanos(p) == Some(
            nanos_left(t),
        ) && dialog_text(p, who, seconds) == "¡Aceptada! "@ + who + "\nLa partida empieza en "@
            + signed_decimal_of(seconds) + "…"@),
        p.waiting is None && p.countdown is None ==> dialog_nanos(p) is None && dialog_text(
            p,
            who,
            seconds,
        ) == "Emparejado con "@ + who + "…"@,
{
}

} // verus!
