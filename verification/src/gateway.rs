//! The gateway's side of the matchmaking calls: registering players, the
//! queue, reports, and who comes and goes.
use vstd::prelude::*;

use crate::addr::{addr_views, Multiaddr, PartView};
use crate::certify::{proof_for, proof_holds, proof_of, verify_proof, SigningKey};
use crate::ledger::{upserted, Ledger, LedgerView};
use crate::lobby::{
    copy_addresses, current_rating, last_seq, queue_ok, rating_of, report_fits, report_result,
    reported_of, seq_of, unmoved, EntryView, Lobby, LobbyView, PlayerEntry, Reported, START_RATING,
};
use crate::peer::{parsed_peer, PeerId};
use crate::protocol::{
    proof_view, rank_for_rating, rank_of, GatewayRequest, GatewayRequestView, GatewayResponse,
    GatewayResponseView, ProofView, RatingProof, RANKS,
};
use crate::table::Same;

verus! {

// ---------------------------------------------------------------------------
// Registering
// ---------------------------------------------------------------------------

/// The rating and sequence number that a certificate claims, if the key
/// accepts it.
pub open spec fn claim_of(key: SigningKey, p: PeerId, cert: Option<ProofView>) -> Option<
    (i32, u64),
> {
    match cert {
        Some(c) => if proof_holds(key, p, c) {
            Some((c.rating, c.seq))
        } else {
            None
        },
        None => None,
    }
}

/// Whether the gateway knows a player: one who is here, or who is stored.
pub open spec fn is_known(l: LobbyView, g: LedgerView, p: PeerId) -> bool {
    l.players.contains_key(p) || g.players.contains_key(p)
}

/// The rating and the sequence number that a player is registered with: what
/// an accepted certificate claims, unless the gateway knows a number that is
/// not earlier.
pub open spec fn accepted_of(
    l: LobbyView,
    g: LedgerView,
    p: PeerId,
    claim: Option<(i32, u64)>,
) -> (i32, u64) {
    match claim {
        Some((rating, seq)) if !is_known(l, g, p) || seq > seq_of(l, g, p) => (rating, seq),
        _ => (rating_of(l, g, p), seq_of(l, g, p)),
    }
}

/// The player's entry after registering, which is certified under a new
/// sequence number.
pub open spec fn registered_entry(
    l: LobbyView,
    g: LedgerView,
    p: PeerId,
    username: Seq<char>,
    claim: Option<(i32, u64)>,
) -> EntryView {
    let acc = accepted_of(l, g, p, claim);
    EntryView {
        username: Some(username),
        rating: acc.0,
        last_seq: (acc.1 + 1) as u64,
        base_addresses: if l.players.contains_key(p) {
            l.players[p].base_addresses
        } else {
            Seq::empty()
        },
    }
}

/// What a gateway call leads to.
pub struct Answered {
    pub lobby: LobbyView,
    pub ledger: LedgerView,
    pub response: GatewayResponseView,
}

/// Whether the certificate in an answer, if there is one, holds for a player.
pub open spec fn vouched(key: SigningKey, p: PeerId, r: GatewayResponseView) -> bool {
    match r {
        GatewayResponseView::Registered { proof: Some(c), .. } => proof_holds(key, p, c),
        GatewayResponseView::Rating { proof: Some(c), .. } => proof_holds(key, p, c),
        _ => true,
    }
}

pub open spec fn registered_of(
    l: LobbyView,
    g: LedgerView,
    key: SigningKey,
    gateway: PeerId,
    p: PeerId,
    username: Seq<char>,
    claim: Option<(i32, u64)>,
) -> Answered {
    let e = registered_entry(l, g, p, username, claim);
    Answered {
        lobby: LobbyView { players: l.players.insert(p, e), ..l },
        ledger: upserted(g, p, username, e.rating, e.last_seq),
        response: GatewayResponseView::Registered {
            username,
            rating: e.rating,
            rank: RANKS[rank_of(e.rating as int)]@,
            proof: Some(proof_of(key, gateway, p, e.rating, e.last_seq)),
        },
    }
}

/// Which rating a player is registered with, given what an accepted
/// certificate claims.
pub fn accepted_rating(
    lobby: &Lobby,
    ledger: &Ledger,
    peer: &PeerId,
    claim: Option<(i32, u64)>,
) -> (r: (i32, u64))
    requires
        lobby.wf(),
        ledger.wf(),
    ensures
        r == accepted_of(lobby@, ledger@, *peer, claim),
{
    let known = lobby.players.contains(peer) || ledger.players.contains(peer);
    let rating: i32 = current_rating(lobby, ledger, peer);
    let seq: u64 = last_seq(lobby, ledger, peer);
    match claim {
        Some(c) => if !known || c.1 > seq {
            c
        } else {
            (rating, seq)
        },
        None => (rating, seq),
    }
}

/// Registers a player, given what an accepted certificate claims.
pub fn register(
    lobby: &mut Lobby,
    ledger: &mut Ledger,
    key: &SigningKey,
    gateway: &PeerId,
    peer: &PeerId,
    username: String,
    claim: Option<(i32, u64)>,
) -> (r: GatewayResponse)
    requires
        old(lobby).wf(),
        old(ledger).wf(),
        gateway.wf(),
        peer.wf(),
        accepted_of(old(lobby)@, old(ledger)@, *peer, claim).1 < u64::MAX,
    ensures
        final(lobby).wf(),
        final(ledger).wf(),
        ({
            let e = registered_of(
                old(lobby)@,
                old(ledger)@,
                *key,
                *gateway,
                *peer,
                username@,
                claim,
            );
            &&& final(lobby)@ == e.lobby
            &&& final(ledger)@ == e.ledger
            &&& r@ == e.response
        }),
        vouched(*key, *peer, r@),
{
    let (rating, known_seq) = accepted_rating(lobby, ledger, peer, claim);
    let seq: u64 = known_seq + 1;
    let bases = match lobby.players.get(peer) {
        Some(e) => copy_addresses(&e.base_addresses),
        None => {
            let empty: Vec<Multiaddr> = Vec::new();
            assert(addr_views(empty@) =~= Seq::empty());
            empty
        },
    };
    let entry = PlayerEntry {
        username: Some(username.clone()),
        rating,
        last_seq: seq,
        base_addresses: bases,
    };
    lobby.players.insert(*peer, entry);
    ledger.upsert_rating(peer, username.as_str(), rating, seq);
    let proof = proof_for(key, gateway, peer, rating, seq);
    let rank = rank_for_rating(rating);
    GatewayResponse::Registered { username, rating, rank: rank.to_owned(), proof }
}

// ---------------------------------------------------------------------------
// The queue
// ---------------------------------------------------------------------------

/// The queue without a player.
pub open spec fn without_peer(q: Seq<PeerId>, p: PeerId) -> Seq<PeerId>
    decreases q.len(),
{
    if q.len() == 0 {
        q
    } else if q.last() == p {
        without_peer(q.drop_last(), p)
    } else {
        without_peer(q.drop_last(), p).push(q.last())
    }
}

/// The queue with a player at its end, unless already in it.
pub open spec fn queued(q: Seq<PeerId>, p: PeerId) -> Seq<PeerId> {
    if q.contains(p) {
        q
    } else {
        q.push(p)
    }
}

/// Taking a player out leaves the others, in order, and a proper queue proper.
pub proof fn lemma_without_peer(q: Seq<PeerId>, p: PeerId)
    ensures
        !without_peer(q, p).contains(p),
        forall|x: PeerId| x != p ==> (#[trigger] without_peer(q, p).contains(x) <==> q.contains(x)),
        queue_ok(q) ==> queue_ok(without_peer(q, p)),
        without_peer(q, p).len() <= q.len(),
        !q.contains(p) ==> without_peer(q, p) == q,
    decreases q.len(),
{
    if q.len() > 0 {
        let t = q.drop_last();
        let w = without_peer(t, p);
        lemma_without_peer(t, p);
        assert(q =~= t.push(q.last()));
        assert forall|x: PeerId| q.contains(x) == (t.contains(x) || x == q.last()) by {
            if t.contains(x) {
                let i = t.index_of(x);
                assert(q[i] == x);
            }
            if q.contains(x) {
                let i = q.index_of(x);
                if i < t.len() {
                    assert(t[i] == x);
                }
            }
        }
        let r = without_peer(q, p);
        if q.last() != p {
            assert forall|x: PeerId| r.contains(x) == (w.contains(x) || x == q.last()) by {
                if w.contains(x) {
                    let i = w.index_of(x);
                    assert(r[i] == x);
                }
                if r.contains(x) {
                    let i = r.index_of(x);
                    if i < w.len() {
                        assert(w[i] == x);
                    }
                }
                assert(r[w.len() as int] == q.last());
            }
            if queue_ok(q) {
                assert forall|i: int| 0 <= i < t.len() implies (#[trigger] t[i]).wf() by {
                    assert(q[i] == t[i]);
                }
                assert(t.no_duplicates());
                assert(!t.contains(q.last())) by {
                    if t.contains(q.last()) {
                        let i = t.index_of(q.last());
                        assert(q[i] == q[q.len() - 1]);
                    }
                }
                assert(!w.contains(q.last()));
                assert forall|i: int, j: int|
                    0 <= i < r.len() && 0 <= j < r.len() && i != j implies r[i] != r[j] by {
                    if i < w.len() {
                        assert(w.contains(w[i]));
                    }
                    if j < w.len() {
                        assert(w.contains(w[j]));
                    }
                }
            }
        } else {
            if queue_ok(q) {
                assert forall|i: int| 0 <= i < t.len() implies (#[trigger] t[i]).wf() by {
                    assert(q[i] == t[i]);
                }
                assert(t.no_duplicates());
            }
        }
        if !q.contains(p) {
            assert(q.last() != p) by {
                assert(q[q.len() - 1] == q.last());
            }
            assert(r =~= q);
        }
    }
}

/// Takes a player out of the queue.
pub fn leave_queue(lobby: &mut Lobby, peer: &PeerId)
    requires
        old(lobby).wf(),
    ensures
        final(lobby).wf(),
        final(lobby)@ == (LobbyView { queue: without_peer(old(lobby)@.queue, *peer), ..old(lobby)@ }),
{
    let mut kept: Vec<PeerId> = Vec::new();
    let mut i: usize = 0;
    assert(lobby.queue@.take(0) =~= Seq::empty());
    while i < lobby.queue.len()
        invariant
            0 <= i <= lobby.queue.len(),
            kept@ == without_peer(lobby.queue@.take(i as int), *peer),
        decreases lobby.queue.len() - i,
    {
        let p = lobby.queue[i];
        assert(lobby.queue@.take(i + 1).drop_last() =~= lobby.queue@.take(i as int));
        if !p.same(peer) {
            kept.push(p);
        }
        i += 1;
    }
    assert(lobby.queue@.take(lobby.queue@.len() as int) =~= lobby.queue@);
    proof {
        lemma_without_peer(lobby.queue@, *peer);
    }
    lobby.queue = kept;
}

/// Puts a player in the queue and tells how many are ahead.
pub fn join_queue(lobby: &mut Lobby, peer: &PeerId) -> (r: u32)
    requires
        old(lobby).wf(),
        peer.wf(),
    ensures
        final(lobby).wf(),
        final(lobby)@ == (LobbyView { queue: queued(old(lobby)@.queue, *peer), ..old(lobby)@ }),
        r == queued(old(lobby)@.queue, *peer).index_of(*peer) as u32,
{
    let mut i: usize = 0;
    while i < lobby.queue.len()
        invariant
            0 <= i <= lobby.queue.len(),
            forall|j: int| 0 <= j < i ==> lobby.queue@[j] != *peer,
            lobby.queue@ == old(lobby).queue@,
            lobby@ == old(lobby)@,
            lobby.wf(),
        decreases lobby.queue.len() - i,
    {
        if lobby.queue[i].same(peer) {
            assert(lobby.queue@.contains(*peer));
            assert(lobby.queue@.index_of(*peer) == i);
            return i as u32;
        }
        i += 1;
    }
    let n: usize = lobby.queue.len();
    lobby.queue.push(*peer);
    proof {
        let q = lobby.queue@;
        assert(q[n as int] == *peer);
        assert(q.index_of(*peer) == n);
        assert(queue_ok(q));
    }
    n as u32
}

// ---------------------------------------------------------------------------
// Calls
// ---------------------------------------------------------------------------

pub open spec fn rating_response(e: Reported) -> Answered {
    Answered {
        lobby: e.lobby,
        ledger: e.ledger,
        response: GatewayResponseView::Rating {
            rating: e.rating,
            rank: RANKS[rank_of(e.rating as int)]@,
            proof: Some(e.certificate),
        },
    }
}

/// What a call of a player leads to; `None` where the numbers that it needs
/// have run out.
pub open spec fn answer_of(
    l: LobbyView,
    g: LedgerView,
    key: SigningKey,
    gateway: PeerId,
    p: PeerId,
    request: GatewayRequestView,
    now: Seq<char>,
) -> Option<Answered> {
    match request {
        GatewayRequestView::Register { username, rating, proof } => {
            let claim = claim_of(key, p, proof);
            if accepted_of(l, g, p, claim).1 < u64::MAX {
                Some(registered_of(l, g, key, gateway, p, username, claim))
            } else {
                None
            }
        },
        GatewayRequestView::QueueMatch => {
            let q = queued(l.queue, p);
            Some(
                Answered {
                    lobby: LobbyView { queue: q, ..l },
                    ledger: g,
                    response: GatewayResponseView::Queued { position: q.index_of(p) as u32 },
                },
            )
        },
        GatewayRequestView::LeaveQueue => Some(
            Answered {
                lobby: LobbyView { queue: without_peer(l.queue, p), ..l },
                ledger: g,
                response: GatewayResponseView::Dequeued,
            },
        ),
        GatewayRequestView::ReportResult {
            match_id,
            opponent,
            my_score,
            opponent_score,
        } => match parsed_peer(opponent) {
            Some(o) => if report_fits(l, g, p, o, match_id, my_score, opponent_score) {
                Some(
                    rating_response(
                        reported_of(
                            l,
                            g,
                            key,
                            gateway,
                            p,
                            o,
                            match_id,
                            my_score,
                            opponent_score,
                            now,
                        ),
                    ),
                )
            } else {
                None
            },
            None => if seq_of(l, g, p) < u64::MAX {
                Some(rating_response(unmoved(l, g, key, gateway, p)))
            } else {
                None
            },
        },
        GatewayRequestView::Ping => Some(
            Answered { lobby: l, ledger: g, response: GatewayResponseView::Pong },
        ),
        GatewayRequestView::MatchFound { match_id, opponent, addresses } => Some(
            Answered {
                lobby: l,
                ledger: g,
                response: GatewayResponseView::Error("MatchFound is server→client only"@),
            },
        ),
        GatewayRequestView::MatchRevoked { match_id, rating, proof } => Some(
            Answered {
                lobby: l,
                ledger: g,
                response: GatewayResponseView::Error("MatchRevoked is server→client only"@),
            },
        ),
        GatewayRequestView::MatchCorrected {
            match_id,
            my_score,
            opponent_score,
            rating,
            proof,
        } => Some(
            Answered {
                lobby: l,
                ledger: g,
                response: GatewayResponseView::Error("MatchCorrected is server→client only"@),
            },
        ),
    }
}

/// Checks a certificate; what it claims counts only if the key accepts it.
fn checked_claim(key: &SigningKey, peer: &PeerId, cert: &Option<RatingProof>) -> (r: Option<
    (i32, u64),
>)
    requires
        peer.wf(),
    ensures
        r == claim_of(*key, *peer, proof_view(*cert)),
{
    match cert {
        Some(p) => if verify_proof(key, peer, p) {
            Some((p.rating, p.seq))
        } else {
            None
        },
        None => None,
    }
}

/// Answers a call of a player. `None`, and no change, where the numbers that
/// it needs have run out.
pub fn on_gateway_request(
    lobby: &mut Lobby,
    ledger: &mut Ledger,
    key: &SigningKey,
    gateway: &PeerId,
    peer: &PeerId,
    request: GatewayRequest,
    now: &str,
) -> (r: Option<GatewayResponse>)
    requires
        old(lobby).wf(),
        old(ledger).wf(),
        gateway.wf(),
        peer.wf(),
    ensures
        final(lobby).wf(),
        final(ledger).wf(),
        match (
            r,
            answer_of(old(lobby)@, old(ledger)@, *key, *gateway, *peer, request@, now@),
        ) {
            (Some(response), Some(e)) => {
                &&& final(lobby)@ == e.lobby
                &&& final(ledger)@ == e.ledger
                &&& response@ == e.response
                &&& vouched(*key, *peer, response@)
            },
            (None, None) => final(lobby)@ == old(lobby)@ && final(ledger)@ == old(ledger)@,
            _ => false,
        },
{
    match request {
        GatewayRequest::Register { username, rating: _, proof } => {
            let claim = checked_claim(key, peer, &proof);
            let (_, seq) = accepted_rating(lobby, ledger, peer, claim);
            if seq == u64::MAX {
                None
            } else {
                Some(register(lobby, ledger, key, gateway, peer, username, claim))
            }
        },
        GatewayRequest::QueueMatch => {
            let position: u32 = join_queue(lobby, peer);
            Some(GatewayResponse::Queued { position })
        },
        GatewayRequest::LeaveQueue => {
            leave_queue(lobby, peer);
            Some(GatewayResponse::Dequeued)
        },
        GatewayRequest::ReportResult { match_id, opponent, my_score, opponent_score } => {
            match report_result(
                lobby,
                ledger,
                key,
                gateway,
                peer,
                opponent.as_str(),
                match_id,
                my_score,
                opponent_score,
                now,
            ) {
                Some((rating, proof)) => {
                    let rank = rank_for_rating(rating);
                    Some(GatewayResponse::Rating { rating, rank: rank.to_owned(), proof })
                },
                None => None,
            }
        },
        GatewayRequest::Ping => Some(GatewayResponse::Pong),
        GatewayRequest::MatchFound { .. } => Some(
            GatewayResponse::Error("MatchFound is server→client only".to_owned()),
        ),
        GatewayRequest::MatchRevoked { .. } => Some(
            GatewayResponse::Error("MatchRevoked is server→client only".to_owned()),
        ),
        GatewayRequest::MatchCorrected { .. } => Some(
            GatewayResponse::Error("MatchCorrected is server→client only".to_owned()),
        ),
    }
}

// ---------------------------------------------------------------------------
// Who comes and goes
// ---------------------------------------------------------------------------

/// The addresses with one more, unless it is there.
pub open spec fn with_base(bases: Seq<Seq<PartView>>, a: Seq<PartView>) -> Seq<Seq<PartView>> {
    if bases.contains(a) {
        bases
    } else {
        bases.push(a)
    }
}

fn add_base(bases: &mut Vec<Multiaddr>, addr: &Multiaddr)
    ensures
        addr_views(final(bases)@) == with_base(addr_views(old(bases)@), addr@),
{
    let ghost views = addr_views(bases@);
    let mut i: usize = 0;
    while i < bases.len()
        invariant
            0 <= i <= bases.len(),
            views == addr_views(bases@),
            bases@ == old(bases)@,
            forall|j: int| 0 <= j < i ==> views[j] != addr@,
        decreases bases.len() - i,
    {
        assert(views[i as int] == bases@[i as int]@);
        if bases[i].same(addr) {
            assert(views.contains(addr@));
            return ;
        }
        i += 1;
    }
    assert(!views.contains(addr@));
    bases.push(addr.copied());
    assert(addr_views(bases@) =~= views.push(addr@));
}

/// The stored rating and sequence number, or those of a new player.
pub open spec fn stored_of(g: LedgerView, p: PeerId) -> (i32, u64) {
    if g.players.contains_key(p) {
        (g.players[p].rating, g.players[p].seq)
    } else {
        (START_RATING, 0)
    }
}

fn stored(ledger: &Ledger, peer: &PeerId) -> (r: (i32, u64))
    requires
        ledger.wf(),
    ensures
        r == stored_of(ledger@, *peer),
{
    match ledger.load_rating(peer) {
        Some(s) => s,
        None => (START_RATING, 0),
    }
}

/// The entry of a player who has just connected.
pub open spec fn connected_entry(
    l: LobbyView,
    g: LedgerView,
    p: PeerId,
    base: Seq<PartView>,
) -> EntryView {
    if l.players.contains_key(p) {
        EntryView {
            base_addresses: with_base(l.players[p].base_addresses, base),
            ..l.players[p]
        }
    } else {
        EntryView {
            username: None,
            rating: stored_of(g, p).0,
            last_seq: stored_of(g, p).1,
            base_addresses: seq![base],
        }
    }
}

/// A player has connected: a new entry starts with the stored rating, and the
/// advertised address of the gateway is a way to it.
pub fn client_connected(lobby: &mut Lobby, ledger: &Ledger, peer: &PeerId, base: &Multiaddr)
    requires
        old(lobby).wf(),
        ledger.wf(),
    ensures
        final(lobby).wf(),
        final(lobby)@ == (LobbyView {
            players: old(lobby)@.players.insert(
                *peer,
                connected_entry(old(lobby)@, ledger@, *peer, base@),
            ),
            ..old(lobby)@
        }),
{
    let mut entry = match lobby.players.get(peer) {
        Some(e) => e.copied(),
        None => {
            let (rating, last_seq) = stored(ledger, peer);
            PlayerEntry { username: None, rating, last_seq, base_addresses: Vec::new() }
        },
    };
    let ghost before = addr_views(entry.base_addresses@);
    add_base(&mut entry.base_addresses, base);
    assert(!lobby@.players.contains_key(*peer) ==> with_base(before, base@) =~= seq![base@]);
    lobby.players.insert(*peer, entry);
}

/// The entry of a player who has told how they see the gateway.
pub open spec fn identified_entry(
    l: LobbyView,
    g: LedgerView,
    p: PeerId,
    observed: Seq<PartView>,
) -> EntryView {
    let e = if l.players.contains_key(p) {
        l.players[p]
    } else {
        EntryView { username: None, rating: 0, last_seq: 0, base_addresses: Seq::empty() }
    };
    let bases = with_base(e.base_addresses, observed);
    if e.rating == 0 {
        let s = stored_of(g, p);
        EntryView {
            rating: s.0,
            last_seq: if e.last_seq >= s.1 {
                e.last_seq
            } else {
                s.1
            },
            base_addresses: bases,
            ..e
        }
    } else {
        EntryView { base_addresses: bases, ..e }
    }
}

/// A player has told under which address they see the gateway: that is a way
/// to it for that player. A rating of zero is looked up again.
pub fn client_identified(lobby: &mut Lobby, ledger: &Ledger, peer: &PeerId, observed: &Multiaddr)
    requires
        old(lobby).wf(),
        ledger.wf(),
    ensures
        final(lobby).wf(),
        final(lobby)@ == (LobbyView {
            players: old(lobby)@.players.insert(
                *peer,
                identified_entry(old(lobby)@, ledger@, *peer, observed@),
            ),
            ..old(lobby)@
        }),
{
    let mut entry = match lobby.players.get(peer) {
        Some(e) => e.copied(),
        None => {
            let empty: Vec<Multiaddr> = Vec::new();
            assert(addr_views(empty@) =~= Seq::empty());
            PlayerEntry { username: None, rating: 0, last_seq: 0, base_addresses: empty }
        },
    };
    add_base(&mut entry.base_addresses, observed);
    if entry.rating == 0 {
        let (rating, seq) = stored(ledger, peer);
        entry.rating = rating;
        if seq > entry.last_seq {
            entry.last_seq = seq;
        }
    }
    lobby.players.insert(*peer, entry);
}

/// The lobby without a player.
pub open spec fn lobby_without(l: LobbyView, p: PeerId) -> LobbyView {
    LobbyView { queue: without_peer(l.queue, p), players: l.players.remove(p), ..l }
}

/// A player has gone, or cannot be reached: neither waiting nor known here.
pub fn client_gone(lobby: &mut Lobby, peer: &PeerId)
    requires
        old(lobby).wf(),
    ensures
        final(lobby).wf(),
        final(lobby)@ == lobby_without(old(lobby)@, *peer),
{
    leave_queue(lobby, peer);
    lobby.players.remove(peer);
}

// ---------------------------------------------------------------------------
// Laws
// ---------------------------------------------------------------------------

/// Who leaves the queue is gone, and everybody else stays in their place.
pub proof fn leaving_keeps_the_order(q: Seq<PeerId>, p: PeerId)
    ensures
        without_peer(q, p) == q.filter(|x: PeerId| x != p),
    decreases q.len(),
{
    reveal(Seq::filter);
    if q.len() > 0 {
        leaving_keeps_the_order(q.drop_last(), p);
    }
}

/// Who joins the queue stands at its end, and once only however often they
/// join; nobody else moves.
pub proof fn joining_puts_at_the_end(q: Seq<PeerId>, p: PeerId)
    ensures
        !q.contains(p) ==> queued(q, p).len() == q.len() + 1 && queued(q, p).last() == p && queued(
            q,
            p,
        ).drop_last() == q,
        q.contains(p) ==> queued(q, p) == q,
        queued(queued(q, p), p) == queued(q, p),
        queue_ok(q) && p.wf() ==> queue_ok(queued(q, p)),
        !q.contains(p) ==> without_peer(queued(q, p), p) == q,
{
    if !q.contains(p) {
        assert(q.push(p).last() == p);
        assert(q.push(p).drop_last() =~= q);
        assert(q.push(p)[q.len() as int] == p);
        lemma_without_peer(q, p);
        assert(without_peer(q, p) == q);
    }
}

/// What a registration leaves of everybody else and of the rest of the lobby.
pub proof fn registering_concerns_one_player(
    l: LobbyView,
    g: LedgerView,
    key: SigningKey,
    gateway: PeerId,
    p: PeerId,
    username: Seq<char>,
    claim: Option<(i32, u64)>,
    other: PeerId,
)
    requires
        other != p,
    ensures
        ({
            let e = registered_of(l, g, key, gateway, p, username, claim);
            &&& e.lobby.players.contains_key(other) == l.players.contains_key(other)
            &&& e.lobby.players[other] == l.players[other]
            &&& e.ledger.players.contains_key(other) == g.players.contains_key(other)
            &&& e.ledger.players[other] == g.players[other]
            &&& e.ledger.matches == g.matches
            &&& e.lobby.queue == l.queue
            &&& e.lobby.open == l.open
            &&& e.lobby.by_canon == l.by_canon
            &&& e.lobby.next_id == l.next_id
        }),
{
}

/// A player who registers is known by the new name and keeps the way to the
/// gateway; rating and number are told, certified and stored as they are in the
/// lobby.
pub proof fn registered_players_are_told_their_rating(
    l: LobbyView,
    g: LedgerView,
    key: SigningKey,
    gateway: PeerId,
    p: PeerId,
    username: Seq<char>,
    claim: Option<(i32, u64)>,
)
    ensures
        ({
            let e = registered_of(l, g, key, gateway, p, username, claim);
            let entry = e.lobby.players[p];
            &&& e.lobby.players.contains_key(p)
            &&& entry.username == Some(username)
            &&& l.players.contains_key(p) ==> entry.base_addresses == l.players[p].base_addresses
            &&& e.response matches GatewayResponseView::Registered {
                username: name,
                rating,
                rank,
                proof: Some(cert),
            } && name == username && rating == entry.rating && rank == RANKS[rank_of(
                rating as int,
            )]@ && cert.rating == rating && cert.seq == entry.last_seq && cert == proof_of(
                key,
                gateway,
                p,
                rating,
                entry.last_seq,
            )
            &&& entry.last_seq <= i64::MAX ==> e.ledger.players.contains_key(p)
                && e.ledger.players[p].username == username && e.ledger.players[p].rating
                == entry.rating && e.ledger.players[p].seq == entry.last_seq
        }),
{
}

/// Without a certificate that counts, a player keeps the rating that they have,
/// in the lobby or else in what is stored, and a newcomer starts with 800. A
/// certificate that is later than what is known gives its own rating. Either
/// way the number grows by one.
pub proof fn registering_takes_the_latest_rating(
    l: LobbyView,
    g: LedgerView,
    key: SigningKey,
    gateway: PeerId,
    p: PeerId,
    username: Seq<char>,
    rating: i32,
    seq: u64,
)
    requires
        seq < u64::MAX,
        l.players.contains_key(p) ==> l.players[p].last_seq < u64::MAX,
        g.players.contains_key(p) ==> g.players[p].seq < u64::MAX,
    ensures
        ({
            let without = registered_of(l, g, key, gateway, p, username, None).lobby.players[p];
            let with = registered_of(l, g, key, gateway, p, username, Some((rating, seq)))
                .lobby.players[p];
            &&& l.players.contains_key(p) ==> without.rating == l.players[p].rating
                && without.last_seq == l.players[p].last_seq + 1
            &&& !l.players.contains_key(p) && g.players.contains_key(p) ==> without.rating
                == g.players[p].rating && without.last_seq == g.players[p].seq + 1
            &&& !l.players.contains_key(p) && !g.players.contains_key(p) ==> without.rating == 800
                && without.last_seq == 1
            &&& l.players.contains_key(p) && seq > l.players[p].last_seq ==> with.rating == rating
                && with.last_seq == seq + 1
            &&& l.players.contains_key(p) && seq <= l.players[p].last_seq ==> with == without
            &&& !l.players.contains_key(p) && g.players.contains_key(p) && seq > g.players[p].seq
                ==> with.rating == rating && with.last_seq == seq + 1
            &&& !l.players.contains_key(p) && g.players.contains_key(p) && seq <= g.players[p].seq
                ==> with == without
            &&& !l.players.contains_key(p) && !g.players.contains_key(p) ==> with.rating == rating
                && with.last_seq == seq + 1
        }),
{
}

/// A certificate claims what it says if the key accepts it for the player who
/// shows it, and nothing otherwise.
pub proof fn claims_need_the_key(key: SigningKey, p: PeerId, cert: ProofView)
    ensures
        proof_holds(key, p, cert) ==> claim_of(key, p, Some(cert)) == Some(
            (cert.rating, cert.seq),
        ),
        !proof_holds(key, p, cert) ==> claim_of(key, p, Some(cert)) is None,
        claim_of(key, p, None) is None,
{
}

/// The rating that a player merely says to have does not count.
pub proof fn ratings_need_a_certificate(
    l: LobbyView,
    g: LedgerView,
    key: SigningKey,
    gateway: PeerId,
    p: PeerId,
    username: Seq<char>,
    rating: i32,
    other: i32,
    proof: Option<ProofView>,
    now: Seq<char>,
)
    ensures
        answer_of(
            l,
            g,
            key,
            gateway,
            p,
            GatewayRequestView::Register { username, rating, proof },
            now,
        ) == answer_of(
            l,
            g,
            key,
            gateway,
            p,
            GatewayRequestView::Register { username, rating: other, proof },
            now,
        ),
        accepted_of(l, g, p, claim_of(key, p, proof)).1 < u64::MAX ==> answer_of(
            l,
            g,
            key,
            gateway,
            p,
            GatewayRequestView::Register { username, rating, proof },
            now,
        ) == Some(registered_of(l, g, key, gateway, p, username, claim_of(key, p, proof))),
{
}

/// Waiting for a match and giving up change the queue and nothing else. Who
/// waits is told how many are before them.
pub proof fn waiting_changes_the_queue_alone(
    l: LobbyView,
    g: LedgerView,
    key: SigningKey,
    gateway: PeerId,
    p: PeerId,
    now: Seq<char>,
)
    requires
        queue_ok(l.queue),
        l.queue.len() < u32::MAX,
    ensures
        ({
            let wait = answer_of(l, g, key, gateway, p, GatewayRequestView::QueueMatch, now);
            let leave = answer_of(l, g, key, gateway, p, GatewayRequestView::LeaveQueue, now);
            &&& wait is Some && leave is Some
            &&& wait->0.lobby == (LobbyView { queue: wait->0.lobby.queue, ..l })
            &&& wait->0.ledger == g
            &&& wait->0.lobby.queue.contains(p)
            &&& wait->0.response matches GatewayResponseView::Queued { position } && position
                < wait->0.lobby.queue.len() && wait->0.lobby.queue[position as int] == p
            &&& forall|i: int|
                0 <= i < l.queue.len() ==> wait->0.lobby.queue[i] == #[trigger] l.queue[i]
            &&& !l.queue.contains(p) ==> wait->0.lobby.queue.len() == l.queue.len() + 1
            &&& l.queue.contains(p) ==> wait->0.lobby.queue == l.queue
            &&& leave->0.lobby == (LobbyView { queue: l.queue.filter(|x: PeerId| x != p), ..l })
            &&& leave->0.ledger == g
            &&& leave->0.response is Dequeued
        }),
{
    leaving_keeps_the_order(l.queue, p);
    let q = queued(l.queue, p);
    if !l.queue.contains(p) {
        assert(q[l.queue.len() as int] == p);
    }
    assert(q.contains(p));
    assert(0 <= q.index_of(p) < q.len() && q[q.index_of(p)] == p);
}

/// Asking whether the gateway is there changes nothing, and so does a message
/// that only gateways send, which is refused.
pub proof fn other_calls_change_nothing(
    l: LobbyView,
    g: LedgerView,
    key: SigningKey,
    gateway: PeerId,
    p: PeerId,
    request: GatewayRequestView,
    now: Seq<char>,
)
    requires
        request is Ping || request is MatchFound || request is MatchRevoked
            || request is MatchCorrected,
    ensures
        ({
            let a = answer_of(l, g, key, gateway, p, request, now);
            &&& a is Some
            &&& a->0.lobby == l
            &&& a->0.ledger == g
            &&& request is Ping ==> a->0.response is Pong
            &&& !(request is Ping) ==> a->0.response is Error
        }),
{
}

/// A report is answered with the reporter's rating after it, its rank and its
/// certificate; a report about nobody leaves everything as it is.
pub proof fn reports_are_answered_with_the_rating(
    l: LobbyView,
    g: LedgerView,
    key: SigningKey,
    gateway: PeerId,
    p: PeerId,
    match_id: u64,
    opponent: Seq<char>,
    mine: u32,
    theirs: u32,
    now: Seq<char>,
)
    requires
        answer_of(
            l,
            g,
            key,
            gateway,
            p,
            GatewayRequestView::ReportResult {
                match_id,
                opponent,
                my_score: mine,
                opponent_score: theirs,
            },
            now,
        ) is Some,
    ensures
        ({
            let a = answer_of(
                l,
                g,
                key,
                gateway,
                p,
                GatewayRequestView::ReportResult {
                    match_id,
                    opponent,
                    my_score: mine,
                    opponent_score: theirs,
                },
                now,
            )->0;
            &&& a.response matches GatewayResponseView::Rating { rating, rank, proof: Some(cert) }
                && rank == RANKS[rank_of(rating as int)]@ && cert.rating == rating
            &&& parsed_peer(opponent) is None ==> a.lobby == l && a.ledger == g
                && a.response->Rating_rating == rating_of(l, g, p)
            &&& parsed_peer(opponent) matches Some(o) ==> ({
                let e = reported_of(l, g, key, gateway, p, o, match_id, mine, theirs, now);
                a.lobby == e.lobby && a.ledger == e.ledger && a.response->Rating_rating == e.rating
                    && a.response->Rating_proof == Some(e.certificate)
            })
        }),
{
}

/// Who connects again keeps name, rating and number; who was not here starts
/// with what is stored, or as a newcomer with 800 and no number. The address of
/// the gateway is a way to it from then on, once, behind those known before.
pub proof fn connecting_starts_from_what_is_known(
    l: LobbyView,
    g: LedgerView,
    p: PeerId,
    base: Seq<PartView>,
)
    ensures
        ({
            let e = connected_entry(l, g, p, base);
            &&& e.base_addresses.contains(base)
            &&& l.players.contains_key(p) ==> {
                let was = l.players[p];
                &&& e.username == was.username && e.rating == was.rating && e.last_seq
                    == was.last_seq
                &&& was.base_addresses.contains(base) ==> e.base_addresses == was.base_addresses
                &&& !was.base_addresses.contains(base) ==> e.base_addresses
                    == was.base_addresses.push(base)
            }
            &&& !l.players.contains_key(p) ==> {
                &&& e.username is None
                &&& e.base_addresses == seq![base]
                &&& g.players.contains_key(p) ==> e.rating == g.players[p].rating && e.last_seq
                    == g.players[p].seq
                &&& !g.players.contains_key(p) ==> e.rating == 800 && e.last_seq == 0
            }
        }),
{
    let e = connected_entry(l, g, p, base);
    if l.players.contains_key(p) {
        let was = l.players[p].base_addresses;
        if !was.contains(base) {
            assert(was.push(base)[was.len() as int] == base);
        }
    } else {
        assert(seq![base][0] == base);
    }
}

/// Who tells how they see the gateway has that address as a way to it, and
/// keeps name, rating and number; a rating that is missing is looked up in what
/// is stored, and the number never falls.
pub proof fn identifying_adds_a_way(
    l: LobbyView,
    g: LedgerView,
    p: PeerId,
    observed: Seq<PartView>,
)
    ensures
        ({
            let e = identified_entry(l, g, p, observed);
            &&& e.base_addresses.contains(observed)
            &&& l.players.contains_key(p) ==> {
                let was = l.players[p];
                &&& e.username == was.username
                &&& e.last_seq >= was.last_seq
                &&& was.rating != 0 ==> e.rating == was.rating && e.last_seq == was.last_seq
                &&& was.rating == 0 && g.players.contains_key(p) ==> e.rating
                    == g.players[p].rating && e.last_seq >= g.players[p].seq && (e.last_seq
                    == was.last_seq || e.last_seq == g.players[p].seq)
                &&& was.rating == 0 && !g.players.contains_key(p) ==> e.rating == 800
                    && e.last_seq == was.last_seq
                &&& was.base_addresses.contains(observed) ==> e.base_addresses
                    == was.base_addresses
                &&& !was.base_addresses.contains(observed) ==> e.base_addresses
                    == was.base_addresses.push(observed)
            }
            &&& !l.players.contains_key(p) ==> {
                &&& e.username is None
                &&& e.base_addresses == seq![observed]
                &&& g.players.contains_key(p) ==> e.rating == g.players[p].rating && e.last_seq
                    == g.players[p].seq
                &&& !g.players.contains_key(p) ==> e.rating == 800 && e.last_seq == 0
            }
        }),
{
    if l.players.contains_key(p) {
        let was = l.players[p].base_addresses;
        if !was.contains(observed) {
            assert(was.push(observed)[was.len() as int] == observed);
        }
    } else {
        assert(Seq::<Seq<PartView>>::empty().push(observed) =~= seq![observed]);
        assert(seq![observed][0] == observed);
    }
}

/// Who goes is neither in the lobby nor in the queue; everybody else stays, in
/// their place, and no match is touched.
pub proof fn going_leaves_the_others(l: LobbyView, p: PeerId)
    ensures
        ({
            let after = lobby_without(l, p);
            &&& !after.players.contains_key(p)
            &&& after.queue == l.queue.filter(|x: PeerId| x != p)
            &&& forall|x: PeerId|
                x != p ==> after.players.contains_key(x) == #[trigger] l.players.contains_key(x)
            &&& forall|x: PeerId| x != p ==> after.players[x] == #[trigger] l.players[x]
            &&& after.open == l.open
            &&& after.by_canon == l.by_canon
            &&& after.next_id == l.next_id
        }),
{
    leaving_keeps_the_order(l.queue, p);
}

} // verus!
