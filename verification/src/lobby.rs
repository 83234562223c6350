//! The gateway's lobby: who is connected, who waits for a match, and the
//! matches that one player has reported and the other has not.
use vstd::prelude::*;

use crate::addr::{addr_views, Multiaddr, PartView};
use crate::certify::{proof_for, proof_holds, proof_of, SigningKey};
use crate::elo::{elo, elo_of, outcome, outcome_of};
use crate::ledger::{
    max_id_of, opt_text, upserted, with_match, with_row, Ledger, LedgerView, MatchRow,
    MatchRowView, MatchStatus,
};
use crate::peer::{base58, parsed_peer, peer_less, PeerId};
use crate::protocol::{proof_view, ProofView, RatingProof, DEFAULT_RATING};
use crate::table::{without_value, Same, Table};

verus! {

/// The rating of a player nobody has rated yet.
pub const START_RATING: i32 = DEFAULT_RATING;

/// What the lobby knows of a player.
pub struct PlayerEntry {
    pub username: Option<String>,
    pub rating: i32,
    /// The last sequence number that the player was registered or rated under,
    /// or zero.
    pub last_seq: u64,
    /// Addresses of the gateway as that player sees it.
    pub base_addresses: Vec<Multiaddr>,
}

pub struct EntryView {
    pub username: Option<Seq<char>>,
    pub rating: i32,
    pub last_seq: u64,
    pub base_addresses: Seq<Seq<PartView>>,
}

impl View for PlayerEntry {
    type V = EntryView;

    open spec fn view(&self) -> EntryView {
        EntryView {
            username: opt_text(self.username),
            rating: self.rating,
            last_seq: self.last_seq,
            base_addresses: addr_views(self.base_addresses@),
        }
    }
}

/// A match whoever reports it: the players in order and the points of each.
#[derive(Clone, Copy, PartialEq, Eq, Debug)]
pub struct MatchCanon {
    pub pa: PeerId,
    pub pb: PeerId,
    pub score_a: u32,
    pub score_b: u32,
}

impl View for MatchCanon {
    type V = MatchCanon;

    open spec fn view(&self) -> MatchCanon {
        *self
    }
}

impl Same for MatchCanon {
    fn same(&self, other: &Self) -> (r: bool) {
        self.pa.same(&other.pa) && self.pb.same(&other.pb) && self.score_a == other.score_a
            && self.score_b == other.score_b
    }
}

/// A match that one player has reported and the other has not.
pub struct PendingMatch {
    pub canon: MatchCanon,
    pub username_a: String,
    pub username_b: String,
    pub before_a: i32,
    pub before_b: i32,
    pub after_a: i32,
    pub after_b: i32,
    pub reported_a: bool,
    pub reported_b: bool,
}

pub struct PendingView {
    pub canon: MatchCanon,
    pub username_a: Seq<char>,
    pub username_b: Seq<char>,
    pub before_a: i32,
    pub before_b: i32,
    pub after_a: i32,
    pub after_b: i32,
    pub reported_a: bool,
    pub reported_b: bool,
}

impl View for PendingMatch {
    type V = PendingView;

    open spec fn view(&self) -> PendingView {
        PendingView {
            canon: self.canon,
            username_a: self.username_a@,
            username_b: self.username_b@,
            before_a: self.before_a,
            before_b: self.before_b,
            after_a: self.after_a,
            after_b: self.after_b,
            reported_a: self.reported_a,
            reported_b: self.reported_b,
        }
    }
}

/// The state of the lobby.
pub struct Lobby {
    pub players: Table<PeerId, PlayerEntry>,
    pub queue: Vec<PeerId>,
    /// Open matches by number.
    pub open: Table<u64, PendingMatch>,
    /// The number of an open match by what it is.
    pub by_canon: Table<MatchCanon, u64>,
    /// The next match number, unless the ledger has come further.
    pub next_id: u64,
}

pub struct LobbyView {
    pub players: Map<PeerId, EntryView>,
    pub queue: Seq<PeerId>,
    pub open: Map<u64, PendingView>,
    pub by_canon: Map<MatchCanon, u64>,
    pub next_id: u64,
}

impl View for Lobby {
    type V = LobbyView;

    open spec fn view(&self) -> LobbyView {
        LobbyView {
            players: self.players@,
            queue: self.queue@,
            open: self.open@,
            by_canon: self.by_canon@,
            next_id: self.next_id,
        }
    }
}

/// Nobody waits twice, and whoever waits has a proper identity.
pub open spec fn queue_ok(queue: Seq<PeerId>) -> bool {
    &&& queue.no_duplicates()
    &&& forall|i: int| 0 <= i < queue.len() ==> (#[trigger] queue[i]).wf()
}

impl Lobby {
    /// The tables are well formed and the queue is in order.
    pub open spec fn wf(&self) -> bool {
        &&& self.players.wf()
        &&& self.open.wf()
        &&& self.by_canon.wf()
        &&& queue_ok(self.queue@)
    }

    /// A lobby with nobody in it.
    pub fn new() -> (r: Lobby)
        ensures
            r.wf(),
            r@ == (LobbyView {
                players: Map::empty(),
                queue: Seq::empty(),
                open: Map::empty(),
                by_canon: Map::empty(),
                next_id: 0,
            }),
    {
        Lobby {
            players: Table::new(),
            queue: Vec::new(),
            open: Table::new(),
            by_canon: Table::new(),
            next_id: 0,
        }
    }
}

// ---------------------------------------------------------------------------
// Ratings and sequence numbers
// ---------------------------------------------------------------------------

/// The rating of a player: the lobby's, else the stored one, else the first
/// rating of everybody.
pub open spec fn rating_of(l: LobbyView, g: LedgerView, p: PeerId) -> i32 {
    if l.players.contains_key(p) {
        l.players[p].rating
    } else if g.players.contains_key(p) {
        g.players[p].rating
    } else {
        START_RATING
    }
}

/// The last sequence number of a player.
pub open spec fn seq_of(l: LobbyView, g: LedgerView, p: PeerId) -> u64 {
    if l.players.contains_key(p) {
        l.players[p].last_seq
    } else if g.players.contains_key(p) {
        g.players[p].seq
    } else {
        0
    }
}

/// The name of a player: the lobby's, else the stored one, else none.
pub open spec fn name_of(l: LobbyView, g: LedgerView, p: PeerId) -> Seq<char> {
    if l.players.contains_key(p) && l.players[p].username is Some {
        l.players[p].username->0
    } else if g.players.contains_key(p) {
        g.players[p].username
    } else {
        Seq::empty()
    }
}

/// The lobby after a player was rated.
pub open spec fn lobby_rated(l: LobbyView, g: LedgerView, p: PeerId, after: i32) -> LobbyView {
    if l.players.contains_key(p) {
        LobbyView {
            players: l.players.insert(
                p,
                EntryView {
                    rating: after,
                    last_seq: (seq_of(l, g, p) + 1) as u64,
                    ..l.players[p]
                },
            ),
            ..l
        }
    } else {
        l
    }
}

/// The ledger after a player was rated.
pub open spec fn ledger_rated(
    l: LobbyView,
    g: LedgerView,
    p: PeerId,
    username: Seq<char>,
    after: i32,
) -> LedgerView {
    upserted(g, p, username, after, (seq_of(l, g, p) + 1) as u64)
}

/// The answer to a report that moves nothing: the player's rating, certified
/// under the next sequence number, which stays the next one.
pub open spec fn standing_of(
    l: LobbyView,
    g: LedgerView,
    key: SigningKey,
    gateway: PeerId,
    p: PeerId,
) -> (i32, ProofView) {
    (
        rating_of(l, g, p),
        proof_of(key, gateway, p, rating_of(l, g, p), (seq_of(l, g, p) + 1) as u64),
    )
}

pub fn current_rating(lobby: &Lobby, ledger: &Ledger, peer: &PeerId) -> (r: i32)
    requires
        lobby.wf(),
        ledger.wf(),
    ensures
        r == rating_of(lobby@, ledger@, *peer),
{
    match lobby.players.get(peer) {
        Some(entry) => entry.rating,
        None => match ledger.load_rating(peer) {
            Some((rating, _)) => rating,
            None => START_RATING,
        },
    }
}

/// The last sequence number of a player.
pub fn last_seq(lobby: &Lobby, ledger: &Ledger, peer: &PeerId) -> (r: u64)
    requires
        lobby.wf(),
        ledger.wf(),
    ensures
        r == seq_of(lobby@, ledger@, *peer),
{
    match lobby.players.get(peer) {
        Some(entry) => entry.last_seq,
        None => match ledger.load_rating(peer) {
            Some((_, seq)) => seq,
            None => 0,
        },
    }
}

/// The sequence number of a player's next certificate.
pub fn seq_for(lobby: &Lobby, ledger: &Ledger, peer: &PeerId) -> (r: u64)
    requires
        lobby.wf(),
        ledger.wf(),
        seq_of(lobby@, ledger@, *peer) < u64::MAX,
    ensures
        r == seq_of(lobby@, ledger@, *peer) + 1,
{
    last_seq(lobby, ledger, peer) + 1
}

pub fn username_of(lobby: &Lobby, ledger: &Ledger, peer: &PeerId) -> (r: String)
    requires
        lobby.wf(),
        ledger.wf(),
    ensures
        r@ == name_of(lobby@, ledger@, *peer),
{
    if let Some(entry) = lobby.players.get(peer) {
        if let Some(name) = &entry.username {
            return name.clone();
        }
    }
    match ledger.players.get(peer) {
        Some(row) => row.username.clone(),
        None => String::new(),
    }
}

pub fn copy_addresses(v: &Vec<Multiaddr>) -> (r: Vec<Multiaddr>)
    ensures
        addr_views(r@) == addr_views(v@),
{
    let mut out: Vec<Multiaddr> = Vec::new();
    let mut i: usize = 0;
    while i < v.len()
        invariant
            0 <= i <= v.len(),
            out@.len() == i,
            forall|j: int| 0 <= j < i ==> (#[trigger] out@[j])@ == v@[j]@,
        decreases v.len() - i,
    {
        out.push(v[i].copied());
        i += 1;
    }
    assert(addr_views(out@) =~= addr_views(v@));
    out
}

impl PlayerEntry {
    pub fn copied(&self) -> (r: PlayerEntry)
        ensures
            r@ == self@,
    {
        PlayerEntry {
            username: crate::ledger::copy_opt(&self.username),
            rating: self.rating,
            last_seq: self.last_seq,
            base_addresses: copy_addresses(&self.base_addresses),
        }
    }
}

/// Moves a player to `after`, in the lobby and in the ledger, under the next
/// sequence number, which is returned.
pub fn set_rating(
    lobby: &mut Lobby,
    ledger: &mut Ledger,
    peer: &PeerId,
    username: &str,
    after: i32,
) -> (r: u64)
    requires
        old(lobby).wf(),
        old(ledger).wf(),
        seq_of(old(lobby)@, old(ledger)@, *peer) < u64::MAX,
    ensures
        final(lobby).wf(),
        final(ledger).wf(),
        r == seq_of(old(lobby)@, old(ledger)@, *peer) + 1,
        final(lobby)@ == lobby_rated(old(lobby)@, old(ledger)@, *peer, after),
        final(ledger)@ == ledger_rated(old(lobby)@, old(ledger)@, *peer, username@, after),
{
    let seq: u64 = seq_for(lobby, ledger, peer);
    let updated: Option<PlayerEntry> = match lobby.players.get(peer) {
        Some(entry) => {
            let mut e = entry.copied();
            e.rating = after;
            e.last_seq = seq;
            Some(e)
        },
        None => None,
    };
    match updated {
        Some(e) => {
            lobby.players.insert(*peer, e);
        },
        None => {},
    }
    ledger.upsert_rating(peer, username, after, seq);
    assert(lobby@ == lobby_rated(old(lobby)@, old(ledger)@, *peer, after));
    seq
}

pub fn current_rating_reply(
    lobby: &Lobby,
    ledger: &Ledger,
    key: &SigningKey,
    gateway: &PeerId,
    reporter: &PeerId,
) -> (r: (i32, Option<RatingProof>))
    requires
        lobby.wf(),
        ledger.wf(),
        gateway.wf(),
        reporter.wf(),
        seq_of(lobby@, ledger@, *reporter) < u64::MAX,
    ensures
        r.0 == standing_of(lobby@, ledger@, *key, *gateway, *reporter).0,
        proof_view(r.1) == Some(standing_of(lobby@, ledger@, *key, *gateway, *reporter).1),
        proof_holds(
            *key,
            *reporter,
            standing_of(lobby@, ledger@, *key, *gateway, *reporter).1,
        ),
{
    let rating: i32 = current_rating(lobby, ledger, reporter);
    let seq: u64 = seq_for(lobby, ledger, reporter);
    (rating, proof_for(key, gateway, reporter, rating, seq))
}

// ---------------------------------------------------------------------------
// Match numbers
// ---------------------------------------------------------------------------

/// The number that the next match gets: above every stored one.
pub open spec fn fresh_id(l: LobbyView, g: LedgerView) -> u64 {
    let above = (max_id_of(g.matches) + 1) as u64;
    if l.next_id >= above {
        l.next_id
    } else {
        above
    }
}

fn next_number(lobby: &Lobby, ledger: &Ledger) -> (r: u64)
    requires
        lobby.wf(),
        ledger.wf(),
    ensures
        r == fresh_id(lobby@, ledger@),
        !ledger@.matches.contains_key(r),
        r > 0,
        lobby.next_id < u64::MAX ==> r < u64::MAX,
{
    let above: u64 = ledger.max_id() + 1;
    if lobby.next_id >= above {
        lobby.next_id
    } else {
        above
    }
}

/// Gives out the number of the next match.
pub fn alloc_match_id(lobby: &mut Lobby, ledger: &Ledger) -> (r: u64)
    requires
        old(lobby).wf(),
        ledger.wf(),
        old(lobby).next_id < u64::MAX,
    ensures
        final(lobby).wf(),
        r == fresh_id(old(lobby)@, ledger@),
        final(lobby)@ == (LobbyView { next_id: (r + 1) as u64, ..old(lobby)@ }),
        !ledger@.matches.contains_key(r),
        r > 0,
{
    let id: u64 = next_number(lobby, ledger);
    lobby.next_id = id + 1;
    id
}

/// Whether a number was given out to a match that nobody has reported: it is
/// below every number still to be given out. (That no stored match has it is
/// for the caller to see.)
pub open spec fn given_out(l: LobbyView, g: LedgerView, match_id: u64) -> bool {
    0 < match_id < fresh_id(l, g) && !l.open.contains_key(match_id)
}

// ---------------------------------------------------------------------------
// Reports
// ---------------------------------------------------------------------------

/// Whether the reporter is the first of the two players.
pub open spec fn reporter_first(reporter: PeerId, opponent: PeerId) -> bool {
    peer_less(reporter, opponent) || reporter == opponent
}

/// What match a report speaks of.
pub open spec fn canon_of(
    reporter: PeerId,
    opponent: PeerId,
    mine: u32,
    theirs: u32,
) -> MatchCanon {
    if reporter_first(reporter, opponent) {
        MatchCanon { pa: reporter, pb: opponent, score_a: mine, score_b: theirs }
    } else {
        MatchCanon { pa: opponent, pb: reporter, score_a: theirs, score_b: mine }
    }
}

/// A pending match as its row tells it, for the two players.
pub open spec fn pending_of(row: MatchRowView, pa: PeerId, pb: PeerId) -> PendingView {
    PendingView {
        canon: MatchCanon { pa, pb, score_a: row.score_a, score_b: row.score_b },
        username_a: row.username_a,
        username_b: row.username_b,
        before_a: row.before_a,
        before_b: row.before_b,
        after_a: row.after_a,
        after_b: row.after_b,
        reported_a: row.reported_a,
        reported_b: row.reported_b,
    }
}

/// The match that a report belongs to.
pub enum Resolution {
    /// One that is known by this number.
    Known(u64),
    /// One that is stored as pending, but not open here any more.
    Stored(u64),
    /// One that was counted before.
    Counted,
    /// A new one, which gets this number.
    New(u64),
}

/// Whether the match with these players and this score was opened under a later
/// number. Numbers are given out in order, so it is one that somebody reported
/// without the number of its pairing.
pub open spec fn opened_later(l: LobbyView, canon: MatchCanon, match_id: u64) -> bool {
    l.by_canon.contains_key(canon) && l.by_canon[canon] > match_id
}

/// Which match a report belongs to. The number that it carries comes first: a
/// match that is open or stored under it, or the one that it was given out
/// for, which is new unless the other report of it came without the number.
/// Without such a number it is the open match with the same players and score,
/// or else a new one under the next number.
pub open spec fn resolve(
    l: LobbyView,
    g: LedgerView,
    canon: MatchCanon,
    match_id: u64,
) -> Resolution {
    if match_id != 0 && l.open.contains_key(match_id) && l.open[match_id].canon == canon {
        Resolution::Known(match_id)
    } else if match_id != 0 && g.matches.contains_key(match_id) {
        if g.matches[match_id].status is Pending {
            Resolution::Stored(match_id)
        } else {
            Resolution::Counted
        }
    } else if given_out(l, g, match_id) && !opened_later(l, canon, match_id) {
        Resolution::New(match_id)
    } else if l.by_canon.contains_key(canon) {
        Resolution::Known(l.by_canon[canon])
    } else {
        Resolution::New(fresh_id(l, g))
    }
}

/// The lobby once the match has its number.
pub open spec fn opened(
    l: LobbyView,
    g: LedgerView,
    canon: MatchCanon,
    res: Resolution,
) -> LobbyView {
    match res {
        Resolution::Stored(id) => {
            let m = pending_of(g.matches[id], canon.pa, canon.pb);
            LobbyView {
                by_canon: l.by_canon.insert(m.canon, id),
                open: l.open.insert(id, m),
                ..l
            }
        },
        Resolution::New(id) => LobbyView {
            by_canon: l.by_canon.insert(canon, id),
            next_id: if id >= l.next_id {
                (id + 1) as u64
            } else {
                l.next_id
            },
            ..l
        },
        _ => l,
    }
}

/// The number of the match.
pub open spec fn number_of(res: Resolution) -> u64 {
    match res {
        Resolution::Known(id) => id,
        Resolution::Stored(id) => id,
        Resolution::New(id) => id,
        Resolution::Counted => 0,
    }
}

/// The lobby with a match no longer open.
pub open spec fn closed_match(l: LobbyView, id: u64) -> LobbyView {
    LobbyView { open: l.open.remove(id), by_canon: without_value(l.by_canon, id), ..l }
}

/// The match is no longer open.
pub fn close_match(lobby: &mut Lobby, id: u64)
    requires
        old(lobby).wf(),
    ensures
        final(lobby).wf(),
        final(lobby)@ == closed_match(old(lobby)@, id),
{
    lobby.open.remove(&id);
    lobby.by_canon.remove_value(id);
}

/// What a report leads to.
pub struct Reported {
    pub lobby: LobbyView,
    pub ledger: LedgerView,
    pub rating: i32,
    pub certificate: ProofView,
}

pub open spec fn unmoved(
    l: LobbyView,
    g: LedgerView,
    key: SigningKey,
    gateway: PeerId,
    reporter: PeerId,
) -> Reported {
    let s = standing_of(l, g, key, gateway, reporter);
    Reported { lobby: l, ledger: g, rating: s.0, certificate: s.1 }
}

/// Whether the player on this side has reported the open match.
pub open spec fn has_reported(m: PendingView, first: bool) -> bool {
    if first {
        m.reported_a
    } else {
        m.reported_b
    }
}

/// The open match with the report of one side noted.
pub open spec fn noted(m: PendingView, first: bool) -> PendingView {
    PendingView { reported_a: m.reported_a || first, reported_b: m.reported_b || !first, ..m }
}

/// The lobby and the ledger after the second player has reported an open
/// match: it is closed once both have.
pub open spec fn confirmed(
    l: LobbyView,
    g: LedgerView,
    first: bool,
    id: u64,
) -> (LobbyView, LedgerView) {
    let m = noted(l.open[id], first);
    let both = m.reported_a && m.reported_b;
    let l2 = if both {
        closed_match(l, id)
    } else {
        LobbyView { open: l.open.insert(id, m), ..l }
    };
    let g2 = if g.matches.contains_key(id) {
        let row = MatchRowView {
            reported_a: m.reported_a,
            reported_b: m.reported_b,
            status: if both {
                MatchStatus::Played
            } else {
                g.matches[id].status
            },
            ..g.matches[id]
        };
        with_row(g, id, row)
    } else {
        g
    };
    (l2, g2)
}

/// The two ratings that the match leads to.
pub open spec fn after_of(l: LobbyView, g: LedgerView, canon: MatchCanon) -> (int, int) {
    elo_of(
        rating_of(l, g, canon.pa) as int,
        rating_of(l, g, canon.pb) as int,
        outcome_of(canon.score_a as int, canon.score_b as int),
    )
}

/// The lobby and the ledger after both players were rated, the first first.
pub open spec fn both_rated(
    l: LobbyView,
    g: LedgerView,
    pa: PeerId,
    name_a: Seq<char>,
    after_a: i32,
    pb: PeerId,
    name_b: Seq<char>,
    after_b: i32,
) -> (LobbyView, LedgerView) {
    let l1 = lobby_rated(l, g, pa, after_a);
    let g1 = ledger_rated(l, g, pa, name_a, after_a);
    (lobby_rated(l1, g1, pb, after_b), ledger_rated(l1, g1, pb, name_b, after_b))
}

/// The sequence numbers that the two players are then certified with.
pub open spec fn both_seqs(
    l: LobbyView,
    g: LedgerView,
    pa: PeerId,
    name_a: Seq<char>,
    after_a: i32,
    pb: PeerId,
) -> (u64, u64) {
    let l1 = lobby_rated(l, g, pa, after_a);
    let g1 = ledger_rated(l, g, pa, name_a, after_a);
    ((seq_of(l, g, pa) + 1) as u64, (seq_of(l1, g1, pb) + 1) as u64)
}

/// Whether both players can be certified once more (twice, if they are one).
pub open spec fn seqs_left(l: LobbyView, g: LedgerView, pa: PeerId, pb: PeerId) -> bool {
    &&& seq_of(l, g, pa) < u64::MAX
    &&& seq_of(l, g, pb) < u64::MAX
    &&& pa == pb ==> seq_of(l, g, pa) < u64::MAX - 1
}

/// What the first report of a match leads to: both ratings move, and the match
/// is stored and open until the other player confirms it.
pub open spec fn first_reported(
    l: LobbyView,
    g: LedgerView,
    key: SigningKey,
    gateway: PeerId,
    reporter: PeerId,
    canon: MatchCanon,
    first: bool,
    id: u64,
    now: Seq<char>,
) -> Reported {
    let after_a = after_of(l, g, canon).0 as i32;
    let after_b = after_of(l, g, canon).1 as i32;
    let name_a = name_of(l, g, canon.pa);
    let name_b = name_of(l, g, canon.pb);
    let (l2, g2) = both_rated(l, g, canon.pa, name_a, after_a, canon.pb, name_b, after_b);
    let seqs = both_seqs(l, g, canon.pa, name_a, after_a, canon.pb);
    let row = MatchRowView {
        created_at: now,
        player_a: base58(canon.pa),
        username_a: name_a,
        before_a: rating_of(l, g, canon.pa),
        after_a,
        score_a: canon.score_a,
        reported_a: first,
        player_b: base58(canon.pb),
        username_b: name_b,
        before_b: rating_of(l, g, canon.pb),
        after_b,
        score_b: canon.score_b,
        reported_b: !first,
        status: MatchStatus::Pending,
        revoked_at: None,
        edited_at: None,
    };
    let rating = if first {
        after_a
    } else {
        after_b
    };
    Reported {
        lobby: LobbyView {
            open: l2.open.insert(id, pending_of(row, canon.pa, canon.pb)),
            ..l2
        },
        ledger: with_match(g2, id, row),
        rating,
        certificate: proof_of(
            key,
            gateway,
            reporter,
            rating,
            if first {
                seqs.0
            } else {
                seqs.1
            },
        ),
    }
}

/// What a report leads to.
pub open spec fn reported_of(
    l: LobbyView,
    g: LedgerView,
    key: SigningKey,
    gateway: PeerId,
    reporter: PeerId,
    opponent: PeerId,
    match_id: u64,
    mine: u32,
    theirs: u32,
    now: Seq<char>,
) -> Reported {
    let canon = canon_of(reporter, opponent, mine, theirs);
    let first = reporter_first(reporter, opponent);
    let res = resolve(l, g, canon, match_id);
    if res is Counted {
        unmoved(l, g, key, gateway, reporter)
    } else {
        let id = number_of(res);
        let l1 = opened(l, g, canon, res);
        if !l1.open.contains_key(id) {
            first_reported(l1, g, key, gateway, reporter, canon, first, id, now)
        } else if has_reported(l1.open[id], first) {
            unmoved(l1, g, key, gateway, reporter)
        } else {
            let c = confirmed(l1, g, first, id);
            unmoved(c.0, c.1, key, gateway, reporter)
        }
    }
}

/// Whether a report finds the numbers that it needs: a next match number for a
/// new match, a rating gap that is itself a number for a first report, and
/// sequence numbers that have not run out.
pub open spec fn report_fits(
    l: LobbyView,
    g: LedgerView,
    reporter: PeerId,
    opponent: PeerId,
    match_id: u64,
    mine: u32,
    theirs: u32,
) -> bool {
    let canon = canon_of(reporter, opponent, mine, theirs);
    let res = resolve(l, g, canon, match_id);
    &&& seq_of(l, g, reporter) < u64::MAX
    &&& res matches Resolution::New(id) ==> id < u64::MAX
    &&& !(res is Counted) && !opened(l, g, canon, res).open.contains_key(number_of(res)) ==> {
        &&& i32::MIN <= rating_of(l, g, canon.pb) - rating_of(l, g, canon.pa) <= i32::MAX
        &&& seqs_left(l, g, canon.pa, canon.pb)
    }
}

fn pending_by_id(ledger: &Ledger, id: u64, pa: &PeerId, pb: &PeerId) -> (r: Option<PendingMatch>)
    requires
        ledger.wf(),
    ensures
        match r {
            Some(m) => ledger@.matches.contains_key(id) && ledger@.matches[id].status is Pending
                && m@ == pending_of(ledger@.matches[id], *pa, *pb),
            None => !(ledger@.matches.contains_key(id) && ledger@.matches[id].status is Pending),
        },
{
    match ledger.matches.get(&id) {
        Some(row) => match row.status {
            MatchStatus::Pending => Some(
                PendingMatch {
                    canon: MatchCanon {
                        pa: *pa,
                        pb: *pb,
                        score_a: row.score_a,
                        score_b: row.score_b,
                    },
                    username_a: row.username_a.clone(),
                    username_b: row.username_b.clone(),
                    before_a: row.before_a,
                    before_b: row.before_b,
                    after_a: row.after_a,
                    after_b: row.after_b,
                    reported_a: row.reported_a,
                    reported_b: row.reported_b,
                },
            ),
            _ => None,
        },
        None => None,
    }
}

fn canonical(reporter: &PeerId, opponent: &PeerId, mine: u32, theirs: u32) -> (r: (
    MatchCanon,
    bool,
))
    ensures
        r.0 == canon_of(*reporter, *opponent, mine, theirs),
        r.1 == reporter_first(*reporter, *opponent),
{
    if reporter.less(opponent) || reporter.same(opponent) {
        (MatchCanon { pa: *reporter, pb: *opponent, score_a: mine, score_b: theirs }, true)
    } else {
        (MatchCanon { pa: *opponent, pb: *reporter, score_a: theirs, score_b: mine }, false)
    }
}

fn resolved(lobby: &Lobby, ledger: &Ledger, canon: &MatchCanon, match_id: u64) -> (r: Resolution)
    requires
        lobby.wf(),
        ledger.wf(),
    ensures
        r == resolve(lobby@, ledger@, *canon, match_id),
{
    let next: u64 = next_number(lobby, ledger);
    if match_id != 0 {
        let open = match lobby.open.get(&match_id) {
            Some(m) => {
                if m.canon.same(canon) {
                    return Resolution::Known(match_id);
                }
                true
            },
            None => false,
        };
        if pending_by_id(ledger, match_id, &canon.pa, &canon.pb).is_some() {
            return Resolution::Stored(match_id);
        }
        if ledger.rated_match_exists(match_id) {
            return Resolution::Counted;
        }
        let later = match lobby.by_canon.get(canon) {
            Some(id) => *id > match_id,
            None => false,
        };
        if match_id < next && !open && !later {
            return Resolution::New(match_id);
        }
    }
    match lobby.by_canon.get(canon) {
        Some(id) => Resolution::Known(*id),
        None => Resolution::New(next),
    }
}

/// Tells whether a report finds the numbers that it needs.
pub fn report_ready(
    lobby: &Lobby,
    ledger: &Ledger,
    reporter: &PeerId,
    opponent: &PeerId,
    match_id: u64,
    my_score: u32,
    opponent_score: u32,
) -> (r: bool)
    requires
        lobby.wf(),
        ledger.wf(),
    ensures
        r == report_fits(
            lobby@,
            ledger@,
            *reporter,
            *opponent,
            match_id,
            my_score,
            opponent_score,
        ),
{
    if last_seq(lobby, ledger, reporter) == u64::MAX {
        return false;
    }
    let (canon, _) = canonical(reporter, opponent, my_score, opponent_score);
    let first_report = match resolved(lobby, ledger, &canon, match_id) {
        Resolution::Known(id) => !lobby.open.contains(&id),
        Resolution::Stored(_) => false,
        Resolution::Counted => false,
        Resolution::New(id) => {
            if id == u64::MAX {
                return false;
            }
            !lobby.open.contains(&id)
        },
    };
    if !first_report {
        return true;
    }
    let ra: i32 = current_rating(lobby, ledger, &canon.pa);
    let rb: i32 = current_rating(lobby, ledger, &canon.pb);
    let gap: i64 = rb as i64 - ra as i64;
    let seq_a: u64 = last_seq(lobby, ledger, &canon.pa);
    let seq_b: u64 = last_seq(lobby, ledger, &canon.pb);
    gap >= i32::MIN as i64 && gap <= i32::MAX as i64 && seq_a < u64::MAX && seq_b < u64::MAX && (
    !canon.pa.same(&canon.pb) || seq_a < u64::MAX - 1)
}

/// Notes the report of the second player.
fn confirm(lobby: &mut Lobby, ledger: &mut Ledger, first: bool, id: u64)
    requires
        old(lobby).wf(),
        old(ledger).wf(),
        old(lobby)@.open.contains_key(id),
    ensures
        final(lobby).wf(),
        final(ledger).wf(),
        (final(lobby)@, final(ledger)@) == confirmed(old(lobby)@, old(ledger)@, first, id),
{
    let m = match lobby.open.get(&id) {
        Some(m) => PendingMatch {
            canon: m.canon,
            username_a: m.username_a.clone(),
            username_b: m.username_b.clone(),
            before_a: m.before_a,
            before_b: m.before_b,
            after_a: m.after_a,
            after_b: m.after_b,
            reported_a: m.reported_a || first,
            reported_b: m.reported_b || !first,
        },
        None => {
            return ;
        },
    };
    assert(m@ == noted(old(lobby)@.open[id], first));
    let reported_a = m.reported_a;
    let reported_b = m.reported_b;
    let both = reported_a && reported_b;
    if both {
        close_match(lobby, id);
    } else {
        lobby.open.insert(id, m);
    }
    let updated: Option<MatchRow> = match ledger.matches.get(&id) {
        Some(row) => {
            let mut row = row.copied();
            row.reported_a = reported_a;
            row.reported_b = reported_b;
            if both {
                row.status = MatchStatus::Played;
            }
            Some(row)
        },
        None => None,
    };
    match updated {
        Some(row) => {
            ledger.replace_match(id, row);
        },
        None => {},
    }
}

/// Rates both players of a match.
pub fn rate_both(
    lobby: &mut Lobby,
    ledger: &mut Ledger,
    pa: &PeerId,
    name_a: &str,
    after_a: i32,
    pb: &PeerId,
    name_b: &str,
    after_b: i32,
) -> (r: (u64, u64))
    requires
        old(lobby).wf(),
        old(ledger).wf(),
        seqs_left(old(lobby)@, old(ledger)@, *pa, *pb),
    ensures
        final(lobby).wf(),
        final(ledger).wf(),
        (final(lobby)@, final(ledger)@) == both_rated(
            old(lobby)@,
            old(ledger)@,
            *pa,
            name_a@,
            after_a,
            *pb,
            name_b@,
            after_b,
        ),
        r == both_seqs(old(lobby)@, old(ledger)@, *pa, name_a@, after_a, *pb),
        r.1 >= 1,
{
    let seq_a: u64 = set_rating(lobby, ledger, pa, name_a, after_a);
    let seq_b: u64 = set_rating(lobby, ledger, pb, name_b, after_b);
    (seq_a, seq_b)
}

/// Moves both ratings for the first report of a match and stores it.
fn first_report(
    lobby: &mut Lobby,
    ledger: &mut Ledger,
    key: &SigningKey,
    gateway: &PeerId,
    reporter: &PeerId,
    canon: &MatchCanon,
    first: bool,
    id: u64,
    now: &str,
) -> (r: (i32, Option<RatingProof>))
    requires
        old(lobby).wf(),
        old(ledger).wf(),
        gateway.wf(),
        reporter.wf(),
        canon.pa.wf(),
        canon.pb.wf(),
        i32::MIN <= rating_of(old(lobby)@, old(ledger)@, canon.pb) - rating_of(
            old(lobby)@,
            old(ledger)@,
            canon.pa,
        ) <= i32::MAX,
        seqs_left(old(lobby)@, old(ledger)@, canon.pa, canon.pb),
    ensures
        final(lobby).wf(),
        final(ledger).wf(),
        ({
            let e = first_reported(
                old(lobby)@,
                old(ledger)@,
                *key,
                *gateway,
                *reporter,
                *canon,
                first,
                id,
                now@,
            );
            &&& final(lobby)@ == e.lobby
            &&& final(ledger)@ == e.ledger
            &&& r.0 == e.rating
            &&& proof_view(r.1) == Some(e.certificate)
            &&& proof_holds(*key, *reporter, e.certificate)
        }),
{
    let before_a: i32 = current_rating(lobby, ledger, &canon.pa);
    let before_b: i32 = current_rating(lobby, ledger, &canon.pb);
    let (after_a, after_b) = elo(before_a, before_b, outcome(canon.score_a, canon.score_b));
    let username_a = username_of(lobby, ledger, &canon.pa);
    let username_b = username_of(lobby, ledger, &canon.pb);
    let (seq_a, seq_b) = rate_both(
        lobby,
        ledger,
        &canon.pa,
        username_a.as_str(),
        after_a,
        &canon.pb,
        username_b.as_str(),
        after_b,
    );
    let row = MatchRow {
        created_at: now.to_owned(),
        player_a: canon.pa.to_base58(),
        username_a: username_a.clone(),
        before_a,
        after_a,
        score_a: canon.score_a,
        reported_a: first,
        player_b: canon.pb.to_base58(),
        username_b: username_b.clone(),
        before_b,
        after_b,
        score_b: canon.score_b,
        reported_b: !first,
        status: MatchStatus::Pending,
        revoked_at: None,
        edited_at: None,
    };
    ledger.insert_match(id, row);
    lobby.open.insert(
        id,
        PendingMatch {
            canon: *canon,
            username_a,
            username_b,
            before_a,
            before_b,
            after_a,
            after_b,
            reported_a: first,
            reported_b: !first,
        },
    );
    let new_rating: i32 = if first {
        after_a
    } else {
        after_b
    };
    let seq: u64 = if first {
        seq_a
    } else {
        seq_b
    };
    (new_rating, proof_for(key, gateway, reporter, new_rating, seq))
}

/// Notes the report of a match against a player whose identity is known. Both
/// players report the same match; its first report moves the ratings, the
/// second confirms it.
pub fn report_against(
    lobby: &mut Lobby,
    ledger: &mut Ledger,
    key: &SigningKey,
    gateway: &PeerId,
    reporter: &PeerId,
    opponent: &PeerId,
    match_id: u64,
    my_score: u32,
    opponent_score: u32,
    now: &str,
) -> (r: (i32, Option<RatingProof>))
    requires
        old(lobby).wf(),
        old(ledger).wf(),
        gateway.wf(),
        reporter.wf(),
        opponent.wf(),
        report_fits(
            old(lobby)@,
            old(ledger)@,
            *reporter,
            *opponent,
            match_id,
            my_score,
            opponent_score,
        ),
    ensures
        final(lobby).wf(),
        final(ledger).wf(),
        ({
            let e = reported_of(
                old(lobby)@,
                old(ledger)@,
                *key,
                *gateway,
                *reporter,
                *opponent,
                match_id,
                my_score,
                opponent_score,
                now@,
            );
            &&& final(lobby)@ == e.lobby
            &&& final(ledger)@ == e.ledger
            &&& r.0 == e.rating
            &&& proof_view(r.1) == Some(e.certificate)
            &&& proof_holds(*key, *reporter, e.certificate)
        }),
{
    let (canon, first) = canonical(reporter, opponent, my_score, opponent_score);
    let res = resolved(lobby, ledger, &canon, match_id);
    let id: u64 = match res {
        Resolution::Known(id) => id,
        Resolution::Stored(id) => {
            if let Some(m) = pending_by_id(ledger, id, &canon.pa, &canon.pb) {
                lobby.by_canon.insert(m.canon, id);
                lobby.open.insert(id, m);
            }
            id
        },
        Resolution::Counted => {
            return current_rating_reply(lobby, ledger, key, gateway, reporter);
        },
        Resolution::New(id) => {
            lobby.by_canon.insert(canon, id);
            if id >= lobby.next_id {
                lobby.next_id = id + 1;
            }
            id
        },
    };
    assert(lobby@ == opened(old(lobby)@, old(ledger)@, canon, res));
    assert(lobby@.players == old(lobby)@.players);
    let reported = match lobby.open.get(&id) {
        Some(m) => Some(
            if first {
                m.reported_a
            } else {
                m.reported_b
            },
        ),
        None => None,
    };
    match reported {
        Some(true) => current_rating_reply(lobby, ledger, key, gateway, reporter),
        Some(false) => {
            confirm(lobby, ledger, first, id);
            current_rating_reply(lobby, ledger, key, gateway, reporter)
        },
        None => first_report(
            lobby,
            ledger,
            key,
            gateway,
            reporter,
            &canon,
            first,
            id,
            now,
        ),
    }
}

/// Notes the report of a finished match and tells the reporter's rating, with
/// a certificate of it. The opponent is given in base 58; a text that is no
/// identity moves nothing. `None`, and no change, where the numbers that a
/// report needs have run out.
pub fn report_result(
    lobby: &mut Lobby,
    ledger: &mut Ledger,
    key: &SigningKey,
    gateway: &PeerId,
    reporter: &PeerId,
    opponent: &str,
    match_id: u64,
    my_score: u32,
    opponent_score: u32,
    now: &str,
) -> (r: Option<(i32, Option<RatingProof>)>)
    requires
        old(lobby).wf(),
        old(ledger).wf(),
        gateway.wf(),
        reporter.wf(),
    ensures
        final(lobby).wf(),
        final(ledger).wf(),
        ({
            let l = old(lobby)@;
            let g = old(ledger)@;
            let e = match parsed_peer(opponent@) {
                Some(o) => reported_of(
                    l,
                    g,
                    *key,
                    *gateway,
                    *reporter,
                    o,
                    match_id,
                    my_score,
                    opponent_score,
                    now@,
                ),
                None => unmoved(l, g, *key, *gateway, *reporter),
            };
            let fits = match parsed_peer(opponent@) {
                Some(o) => report_fits(l, g, *reporter, o, match_id, my_score, opponent_score),
                None => seq_of(l, g, *reporter) < u64::MAX,
            };
            match r {
                Some((rating, certificate)) => {
                    &&& fits
                    &&& final(lobby)@ == e.lobby
                    &&& final(ledger)@ == e.ledger
                    &&& rating == e.rating
                    &&& proof_view(certificate) == Some(e.certificate)
                    &&& proof_holds(*key, *reporter, e.certificate)
                },
                None => !fits && final(lobby)@ == l && final(ledger)@ == g,
            }
        }),
{
    match PeerId::parse(opponent) {
        Some(opp) => {
            if report_ready(
                lobby,
                ledger,
                reporter,
                &opp,
                match_id,
                my_score,
                opponent_score,
            ) {
                Some(
                    report_against(
                        lobby,
                        ledger,
                        key,
                        gateway,
                        reporter,
                        &opp,
                        match_id,
                        my_score,
                        opponent_score,
                        now,
                    ),
                )
            } else {
                None
            }
        },
        None => if last_seq(lobby, ledger, reporter) < u64::MAX {
            Some(current_rating_reply(lobby, ledger, key, gateway, reporter))
        } else {
            None
        },
    }
}

} // verus!
