//! What moderators do to matches: taking one back, correcting its score, and
//! listing them.
use vstd::prelude::*;

use crate::certify::{proof_for, proof_holds, proof_of, SigningKey};
use crate::elo::{elo, elo_of, outcome, outcome_of};
use crate::json::{
    fields_views, listing_json, listing_text, object_json, object_text, Fields, ScalarView,
};
use crate::ledger::{with_row, Ledger, LedgerView, MatchRow, MatchRowView, MatchStatus, MAX_STORED};
use crate::lobby::{
    both_rated, both_seqs, close_match, closed_match, last_seq, rate_both, seqs_left, Lobby, LobbyView,
};
use crate::peer::{parsed_peer, PeerId};
use crate::protocol::{
    copy_proof, proof_view, GatewayRequest, GatewayRequestView, ProofView, RatingProof,
};
use crate::table::Same;
use crate::text::{decimal, decimal_of};

verus! {

/// The highest score that a moderator may enter.
pub const MAX_SCORE: u32 = 25;

/// How many matches the listing shows.
pub const LIST_LIMIT: u64 = 300;

/// A player whose rating was restored, to be told of it.
pub struct RevokedPlayer {
    pub peer: PeerId,
    pub before: i32,
    pub proof: Option<RatingProof>,
}

/// A player whose rating was worked out again, to be told of it; the scores
/// are as that player sees them.
pub struct CorrectedPlayer {
    pub peer: PeerId,
    pub rating: i32,
    pub proof: Option<RatingProof>,
    pub my_score: u32,
    pub opponent_score: u32,
}

/// Joins a text, a number and a text.
fn about_match(front: &str, id: u64, back: &str) -> (r: String)
    ensures
        r@ == front@ + decimal_of(id as nat) + back@,
{
    let mut out = front.to_owned();
    out.append(decimal(id).as_str());
    out.append(back);
    out
}

/// Why a match cannot be moderated, if it cannot: it is not there, was taken
/// back before, or its players are not known.
pub open spec fn refusal(g: LedgerView, id: u64) -> Option<Seq<char>> {
    if id > MAX_STORED {
        Some("out of range integral type conversion attempted"@)
    } else if !g.matches.contains_key(id) {
        Some("la partida #"@ + decimal_of(id as nat) + " no existe"@)
    } else if g.matches[id].status is Revoked {
        Some("la partida #"@ + decimal_of(id as nat) + " ya fue revocada"@)
    } else if parsed_peer(g.matches[id].player_a) is None || parsed_peer(
        g.matches[id].player_b,
    ) is None {
        Some("la partida #"@ + decimal_of(id as nat) + " tiene participantes inválidos"@)
    } else {
        None
    }
}

/// The players of a match, or why it cannot be moderated.
fn moderated_players(ledger: &Ledger, id: u64) -> (r: Result<(PeerId, PeerId), String>)
    requires
        ledger.wf(),
    ensures
        match r {
            Ok((a, b)) => {
                &&& refusal(ledger@, id) is None
                &&& parsed_peer(ledger@.matches[id].player_a) == Some(a)
                &&& parsed_peer(ledger@.matches[id].player_b) == Some(b)
                &&& a.wf()
                &&& b.wf()
            },
            Err(e) => refusal(ledger@, id) == Some(e@),
        },
{
    if id > MAX_STORED {
        return Err("out of range integral type conversion attempted".to_owned());
    }
    match ledger.matches.get(&id) {
        None => Err(about_match("la partida #", id, " no existe")),
        Some(row) => {
            if let MatchStatus::Revoked = row.status {
                return Err(about_match("la partida #", id, " ya fue revocada"));
            }
            match (PeerId::parse(row.player_a.as_str()), PeerId::parse(row.player_b.as_str())) {
                (Some(a), Some(b)) => Ok((a, b)),
                _ => Err(about_match("la partida #", id, " tiene participantes inválidos")),
            }
        },
    }
}

// ---------------------------------------------------------------------------
// Taking a match back
// ---------------------------------------------------------------------------

/// What a moderator's action leads to: the new state, and for each of the two
/// players the identity, the rating and its certificate.
pub struct Moderated {
    pub lobby: LobbyView,
    pub ledger: LedgerView,
    pub rating_a: i32,
    pub rating_b: i32,
    pub certificate_a: ProofView,
    pub certificate_b: ProofView,
}

/// Both players have the rating again that they had before the match, which
/// is marked and no longer open.
pub open spec fn revoked_of(
    l: LobbyView,
    g: LedgerView,
    key: SigningKey,
    gateway: PeerId,
    id: u64,
    a: PeerId,
    b: PeerId,
    now: Seq<char>,
) -> Moderated {
    let row = g.matches[id];
    let l1 = closed_match(l, id);
    let (l2, g2) = both_rated(
        l1,
        g,
        a,
        row.username_a,
        row.before_a,
        b,
        row.username_b,
        row.before_b,
    );
    let seqs = both_seqs(l1, g, a, row.username_a, row.before_a, b);
    Moderated {
        lobby: l2,
        ledger: with_row(
            g2,
            id,
            MatchRowView { status: MatchStatus::Revoked, revoked_at: Some(now), ..row },
        ),
        rating_a: row.before_a,
        rating_b: row.before_b,
        certificate_a: proof_of(key, gateway, a, row.before_a, seqs.0),
        certificate_b: proof_of(key, gateway, b, row.before_b, seqs.1),
    }
}

/// What the two notices say.
pub open spec fn tells_revoked(v: Seq<RevokedPlayer>, a: PeerId, b: PeerId, e: Moderated) -> bool {
    &&& v.len() == 2
    &&& v[0].peer == a
    &&& v[0].before == e.rating_a
    &&& proof_view(v[0].proof) == Some(e.certificate_a)
    &&& v[1].peer == b
    &&& v[1].before == e.rating_b
    &&& proof_view(v[1].proof) == Some(e.certificate_b)
}

/// Takes back a match whose players are known.
pub fn revoke_between(
    lobby: &mut Lobby,
    ledger: &mut Ledger,
    key: &SigningKey,
    gateway: &PeerId,
    id: u64,
    a: &PeerId,
    b: &PeerId,
    now: &str,
) -> (r: Vec<RevokedPlayer>)
    requires
        old(lobby).wf(),
        old(ledger).wf(),
        gateway.wf(),
        a.wf(),
        b.wf(),
        old(ledger)@.matches.contains_key(id),
        seqs_left(old(lobby)@, old(ledger)@, *a, *b),
    ensures
        final(lobby).wf(),
        final(ledger).wf(),
        ({
            let e = revoked_of(
                old(lobby)@,
                old(ledger)@,
                *key,
                *gateway,
                id,
                *a,
                *b,
                now@,
            );
            &&& final(lobby)@ == e.lobby
            &&& final(ledger)@ == e.ledger
            &&& tells_revoked(r@, *a, *b, e)
            &&& proof_holds(*key, *a, e.certificate_a)
            &&& proof_holds(*key, *b, e.certificate_b)
        }),
{
    let mut row = match ledger.matches.get(&id) {
        Some(row) => row.copied(),
        None => {
            return Vec::new();
        },
    };
    close_match(lobby, id);
    let before_a: i32 = row.before_a;
    let before_b: i32 = row.before_b;
    let (seq_a, seq_b) = rate_both(
        lobby,
        ledger,
        a,
        row.username_a.as_str(),
        before_a,
        b,
        row.username_b.as_str(),
        before_b,
    );
    row.status = MatchStatus::Revoked;
    row.revoked_at = Some(now.to_owned());
    ledger.replace_match(id, row);
    let mut out: Vec<RevokedPlayer> = Vec::new();
    out.push(
        RevokedPlayer {
            peer: *a,
            before: before_a,
            proof: proof_for(key, gateway, a, before_a, seq_a),
        },
    );
    out.push(
        RevokedPlayer {
            peer: *b,
            before: before_b,
            proof: proof_for(key, gateway, b, before_b, seq_b),
        },
    );
    out
}

fn can_certify_both(lobby: &Lobby, ledger: &Ledger, a: &PeerId, b: &PeerId) -> (r: bool)
    requires
        lobby.wf(),
        ledger.wf(),
    ensures
        r == seqs_left(lobby@, ledger@, *a, *b),
{
    let seq_a: u64 = last_seq(lobby, ledger, a);
    let seq_b: u64 = last_seq(lobby, ledger, b);
    seq_a < u64::MAX && seq_b < u64::MAX && (!a.same(b) || seq_a < u64::MAX - 1)
}

/// The players of a match that can be moderated.
pub open spec fn players_of(g: LedgerView, id: u64) -> (PeerId, PeerId) {
    (parsed_peer(g.matches[id].player_a)->0, parsed_peer(g.matches[id].player_b)->0)
}

/// Takes match `id` back: both players get the rating that they had before it.
/// Returns the players to be told, or why it cannot be taken back. `None`, and
/// no change, where a player's sequence numbers have run out.
pub fn revoke_match_state(
    lobby: &mut Lobby,
    ledger: &mut Ledger,
    key: &SigningKey,
    gateway: &PeerId,
    id: u64,
    now: &str,
) -> (r: Option<Result<Vec<RevokedPlayer>, String>>)
    requires
        old(lobby).wf(),
        old(ledger).wf(),
        gateway.wf(),
    ensures
        final(lobby).wf(),
        final(ledger).wf(),
        ({
            let l = old(lobby)@;
            let g = old(ledger)@;
            let (a, b) = players_of(g, id);
            let e = revoked_of(l, g, *key, *gateway, id, a, b, now@);
            match r {
                Some(Ok(v)) => {
                    &&& refusal(g, id) is None
                    &&& seqs_left(l, g, a, b)
                    &&& final(lobby)@ == e.lobby
                    &&& final(ledger)@ == e.ledger
                    &&& tells_revoked(v@, a, b, e)
                    &&& proof_holds(*key, a, e.certificate_a)
                    &&& proof_holds(*key, b, e.certificate_b)
                },
                Some(Err(msg)) => {
                    &&& refusal(g, id) == Some(msg@)
                    &&& final(lobby)@ == l
                    &&& final(ledger)@ == g
                },
                None => {
                    &&& refusal(g, id) is None
                    &&& !seqs_left(l, g, a, b)
                    &&& final(lobby)@ == l
                    &&& final(ledger)@ == g
                },
            }
        }),
{
    match moderated_players(ledger, id) {
        Err(e) => Some(Err(e)),
        Ok((a, b)) => {
            if can_certify_both(lobby, ledger, &a, &b) {
                Some(Ok(revoke_between(lobby, ledger, key, gateway, id, &a, &b, now)))
            } else {
                None
            }
        },
    }
}

// ---------------------------------------------------------------------------
// Correcting a score
// ---------------------------------------------------------------------------

/// Both players have the rating that the corrected score leads to from their
/// ratings before the match, which has the new score and is no longer open.
pub open spec fn edited_of(
    l: LobbyView,
    g: LedgerView,
    key: SigningKey,
    gateway: PeerId,
    id: u64,
    a: PeerId,
    b: PeerId,
    score_a: u32,
    score_b: u32,
    now: Seq<char>,
) -> Moderated {
    let row = g.matches[id];
    let after = elo_of(
        row.before_a as int,
        row.before_b as int,
        outcome_of(score_a as int, score_b as int),
    );
    let after_a = after.0 as i32;
    let after_b = after.1 as i32;
    let (l2, g2) = both_rated(l, g, a, row.username_a, after_a, b, row.username_b, after_b);
    let seqs = both_seqs(l, g, a, row.username_a, after_a, b);
    Moderated {
        lobby: closed_match(l2, id),
        ledger: with_row(
            g2,
            id,
            MatchRowView { score_a, score_b, after_a, after_b, edited_at: Some(now), ..row },
        ),
        rating_a: after_a,
        rating_b: after_b,
        certificate_a: proof_of(key, gateway, a, after_a, seqs.0),
        certificate_b: proof_of(key, gateway, b, after_b, seqs.1),
    }
}

/// What the two notices say; each player's own score comes first.
pub open spec fn tells_corrected(
    v: Seq<CorrectedPlayer>,
    a: PeerId,
    b: PeerId,
    score_a: u32,
    score_b: u32,
    e: Moderated,
) -> bool {
    &&& v.len() == 2
    &&& v[0].peer == a
    &&& v[0].rating == e.rating_a
    &&& proof_view(v[0].proof) == Some(e.certificate_a)
    &&& v[0].my_score == score_a
    &&& v[0].opponent_score == score_b
    &&& v[1].peer == b
    &&& v[1].rating == e.rating_b
    &&& proof_view(v[1].proof) == Some(e.certificate_b)
    &&& v[1].my_score == score_b
    &&& v[1].opponent_score == score_a
}

/// Whether the gap between the ratings before the match is itself a number of
/// the rating type.
pub open spec fn gap_fits(row: MatchRowView) -> bool {
    i32::MIN <= row.before_b - row.before_a <= i32::MAX
}

/// Corrects the score of a match whose players are known.
pub fn edit_between(
    lobby: &mut Lobby,
    ledger: &mut Ledger,
    key: &SigningKey,
    gateway: &PeerId,
    id: u64,
    a: &PeerId,
    b: &PeerId,
    score_a: u32,
    score_b: u32,
    now: &str,
) -> (r: Vec<CorrectedPlayer>)
    requires
        old(lobby).wf(),
        old(ledger).wf(),
        gateway.wf(),
        a.wf(),
        b.wf(),
        old(ledger)@.matches.contains_key(id),
        gap_fits(old(ledger)@.matches[id]),
        seqs_left(old(lobby)@, old(ledger)@, *a, *b),
    ensures
        final(lobby).wf(),
        final(ledger).wf(),
        ({
            let e = edited_of(
                old(lobby)@,
                old(ledger)@,
                *key,
                *gateway,
                id,
                *a,
                *b,
                score_a,
                score_b,
                now@,
            );
            &&& final(lobby)@ == e.lobby
            &&& final(ledger)@ == e.ledger
            &&& tells_corrected(r@, *a, *b, score_a, score_b, e)
            &&& proof_holds(*key, *a, e.certificate_a)
            &&& proof_holds(*key, *b, e.certificate_b)
        }),
{
    let mut row = match ledger.matches.get(&id) {
        Some(row) => row.copied(),
        None => {
            return Vec::new();
        },
    };
    let (after_a, after_b) = elo(row.before_a, row.before_b, outcome(score_a, score_b));
    let (seq_a, seq_b) = rate_both(
        lobby,
        ledger,
        a,
        row.username_a.as_str(),
        after_a,
        b,
        row.username_b.as_str(),
        after_b,
    );
    close_match(lobby, id);
    row.score_a = score_a;
    row.score_b = score_b;
    row.after_a = after_a;
    row.after_b = after_b;
    row.edited_at = Some(now.to_owned());
    ledger.replace_match(id, row);
    let mut out: Vec<CorrectedPlayer> = Vec::new();
    out.push(
        CorrectedPlayer {
            peer: *a,
            rating: after_a,
            proof: proof_for(key, gateway, a, after_a, seq_a),
            my_score: score_a,
            opponent_score: score_b,
        },
    );
    out.push(
        CorrectedPlayer {
            peer: *b,
            rating: after_b,
            proof: proof_for(key, gateway, b, after_b, seq_b),
            my_score: score_b,
            opponent_score: score_a,
        },
    );
    out
}

/// The message for a score that is too high.
pub open spec fn bad_score_text() -> Seq<char> {
    "marcador inválido (permitido 0..="@ + decimal_of(MAX_SCORE as nat) + ")"@
}

pub fn bad_score() -> (r: String)
    ensures
        r@ == bad_score_text(),
{
    about_match("marcador inválido (permitido 0..=", MAX_SCORE as u64, ")")
}

/// Why the score of a match cannot be corrected, if it cannot.
pub open spec fn edit_refusal(g: LedgerView, id: u64, score_a: u32, score_b: u32) -> Option<
    Seq<char>,
> {
    if score_a > MAX_SCORE || score_b > MAX_SCORE {
        Some(bad_score_text())
    } else {
        refusal(g, id)
    }
}

/// Corrects the score of match `id`: the ratings are worked out again from
/// those before it. Returns the players to be told, or why the score cannot be
/// corrected. `None`, and no change, where the numbers that it needs have run
/// out.
pub fn edit_match_state(
    lobby: &mut Lobby,
    ledger: &mut Ledger,
    key: &SigningKey,
    gateway: &PeerId,
    id: u64,
    new_score_a: u32,
    new_score_b: u32,
    now: &str,
) -> (r: Option<Result<Vec<CorrectedPlayer>, String>>)
    requires
        old(lobby).wf(),
        old(ledger).wf(),
        gateway.wf(),
    ensures
        final(lobby).wf(),
        final(ledger).wf(),
        ({
            let l = old(lobby)@;
            let g = old(ledger)@;
            let (a, b) = players_of(g, id);
            let no = edit_refusal(g, id, new_score_a, new_score_b);
            let fits = gap_fits(g.matches[id]) && seqs_left(l, g, a, b);
            let e = edited_of(
                l,
                g,
                *key,
                *gateway,
                id,
                a,
                b,
                new_score_a,
                new_score_b,
                now@,
            );
            match r {
                Some(Ok(v)) => {
                    &&& no is None
                    &&& fits
                    &&& final(lobby)@ == e.lobby
                    &&& final(ledger)@ == e.ledger
                    &&& tells_corrected(v@, a, b, new_score_a, new_score_b, e)
                    &&& proof_holds(*key, a, e.certificate_a)
                    &&& proof_holds(*key, b, e.certificate_b)
                },
                Some(Err(msg)) => {
                    &&& no == Some(msg@)
                    &&& final(lobby)@ == l
                    &&& final(ledger)@ == g
                },
                None => {
                    &&& no is None
                    &&& !fits
                    &&& final(lobby)@ == l
                    &&& final(ledger)@ == g
                },
            }
        }),
{
    if new_score_a > MAX_SCORE || new_score_b > MAX_SCORE {
        return Some(Err(bad_score()));
    }
    match moderated_players(ledger, id) {
        Err(e) => Some(Err(e)),
        Ok((a, b)) => {
            let fits = match ledger.matches.get(&id) {
                Some(row) => {
                    let gap: i64 = row.before_b as i64 - row.before_a as i64;
                    gap >= i32::MIN as i64 && gap <= i32::MAX as i64
                },
                None => false,
            };
            if fits && can_certify_both(lobby, ledger, &a, &b) {
                Some(
                    Ok(
                        edit_between(
                            lobby,
                            ledger,
                            key,
                            gateway,
                            id,
                            &a,
                            &b,
                            new_score_a,
                            new_score_b,
                            now,
                        ),
                    ),
                )
            } else {
                None
            }
        },
    }
}

// ---------------------------------------------------------------------------
// Listing
// ---------------------------------------------------------------------------

/// Whether `k` is the highest match number below `bound`.
pub open spec fn is_next_below(m: Map<u64, MatchRowView>, bound: int, k: u64) -> bool {
    &&& m.contains_key(k)
    &&& k < bound
    &&& forall|q: u64| m.contains_key(q) && q < bound ==> q <= k
}

/// The highest match number below `bound`, if there is one.
pub open spec fn next_below(m: Map<u64, MatchRowView>, bound: int) -> Option<u64> {
    if exists|k: u64| is_next_below(m, bound, k) {
        Some(choose|k: u64| is_next_below(m, bound, k))
    } else {
        None
    }
}

/// Whether a match can be shown: its points are ordinary numbers.
pub open spec fn listable(row: MatchRowView) -> bool {
    row.score_a <= i32::MAX && row.score_b <= i32::MAX
}

pub open spec fn opt_scalar(t: Option<Seq<char>>) -> ScalarView {
    match t {
        Some(t) => ScalarView::Text(t),
        None => ScalarView::Null,
    }
}

/// What the listing says of a match.
pub open spec fn row_fields(id: u64, row: MatchRowView) -> Seq<(Seq<char>, ScalarView)> {
    seq![
        ("id"@, ScalarView::Int(id as i64)),
        ("created_at"@, ScalarView::Text(row.created_at)),
        ("player_a"@, ScalarView::Text(row.player_a)),
        ("username_a"@, ScalarView::Text(row.username_a)),
        ("rating_a_before"@, ScalarView::Int(row.before_a as i64)),
        ("rating_a_after"@, ScalarView::Int(row.after_a as i64)),
        ("score_a"@, ScalarView::Int(row.score_a as i64)),
        ("reported_a"@, ScalarView::Bool(row.reported_a)),
        ("player_b"@, ScalarView::Text(row.player_b)),
        ("username_b"@, ScalarView::Text(row.username_b)),
        ("rating_b_before"@, ScalarView::Int(row.before_b as i64)),
        ("rating_b_after"@, ScalarView::Int(row.after_b as i64)),
        ("score_b"@, ScalarView::Int(row.score_b as i64)),
        ("reported_b"@, ScalarView::Bool(row.reported_b)),
        ("status"@, ScalarView::Text(row.status.name())),
        ("revoked_at"@, opt_scalar(row.revoked_at)),
        ("edited_at"@, opt_scalar(row.edited_at)),
    ]
}

/// Of the `n` highest match numbers below `bound`, from the highest down, the
/// matches that can be shown.
pub open spec fn rows_below(m: Map<u64, MatchRowView>, bound: int, n: nat) -> Seq<
    Seq<(Seq<char>, ScalarView)>,
>
    decreases n,
{
    match next_below(m, bound) {
        Some(k) if n > 0 => {
            let rest = rows_below(m, k as int, (n - 1) as nat);
            if listable(m[k]) {
                seq![row_fields(k, m[k])] + rest
            } else {
                rest
            }
        },
        _ => Seq::empty(),
    }
}

/// The text of the listing: the latest matches first.
pub open spec fn listing_of(g: LedgerView) -> Seq<char> {
    listing_json("matches"@, rows_below(g.matches, MAX_STORED + 1, LIST_LIMIT as nat))
}

fn find_below(ledger: &Ledger, bound: u64) -> (r: Option<u64>)
    requires
        ledger.wf(),
    ensures
        r == next_below(ledger@.matches, bound as int),
        r matches Some(k) ==> ledger@.matches.contains_key(k) && k < bound,
{
    let mut found: Option<u64> = None;
    let mut i: usize = 0;
    while i < ledger.matches.keys.len()
        invariant
            0 <= i <= ledger.matches.keys.len(),
            ledger.matches.wf(),
            match found {
                Some(k) => ledger@.matches.contains_key(k) && k < bound && forall|j: int|
                    0 <= j < i && ledger.matches.keys@[j] < bound
                        ==> #[trigger] ledger.matches.keys@[j] <= k,
                None => forall|j: int| 0 <= j < i ==> #[trigger] ledger.matches.keys@[j] >= bound,
            },
        decreases ledger.matches.keys.len() - i,
    {
        let id: u64 = ledger.matches.keys[i];
        proof {
            ledger.matches.lemma_at(i as int);
        }
        if id < bound {
            match found {
                Some(k) => {
                    if id > k {
                        found = Some(id);
                    }
                },
                None => {
                    found = Some(id);
                },
            }
        }
        i += 1;
    }
    proof {
        let m = ledger@.matches;
        assert forall|q: u64| m.contains_key(q) && q < bound implies found is Some && q
            <= found->0 by {
            let j = ledger.matches.index_of(q);
            assert(ledger.matches.has_at(q, j));
            assert(ledger.matches.keys@[j] == q);
        }
        if let Some(k) = found {
            assert(is_next_below(m, bound as int, k));
            let c = choose|c: u64| is_next_below(m, bound as int, c);
            assert(is_next_below(m, bound as int, c));
            assert(c == k);
        }
    }
    found
}

fn fields_of_row(id: u64, row: &MatchRow) -> (r: Fields)
    requires
        id <= MAX_STORED,
        listable(row@),
    ensures
        r@ == row_fields(id, row@),
{
    let mut f = Fields::new();
    f.put_int("id", id as i64);
    f.put_text("created_at", row.created_at.as_str());
    f.put_text("player_a", row.player_a.as_str());
    f.put_text("username_a", row.username_a.as_str());
    f.put_int("rating_a_before", row.before_a as i64);
    f.put_int("rating_a_after", row.after_a as i64);
    f.put_int("score_a", row.score_a as i64);
    f.put_bool("reported_a", row.reported_a);
    f.put_text("player_b", row.player_b.as_str());
    f.put_text("username_b", row.username_b.as_str());
    f.put_int("rating_b_before", row.before_b as i64);
    f.put_int("rating_b_after", row.after_b as i64);
    f.put_int("score_b", row.score_b as i64);
    f.put_bool("reported_b", row.reported_b);
    f.put_text("status", row.status.label());
    f.put_opt_text("revoked_at", &row.revoked_at);
    f.put_opt_text("edited_at", &row.edited_at);
    assert(f@ =~= row_fields(id, row@));
    f
}

/// The listing of the latest matches.
pub fn list_matches_json(ledger: &Ledger) -> (r: String)
    requires
        ledger.wf(),
    ensures
        r@ == listing_of(ledger@),
{
    let mut rows: Vec<Fields> = Vec::new();
    let mut bound: u64 = MAX_STORED + 1;
    let mut left: u64 = LIST_LIMIT;
    let ghost m = ledger@.matches;
    let ghost all = rows_below(m, MAX_STORED + 1, LIST_LIMIT as nat);
    assert(fields_views(rows@) + rows_below(m, bound as int, left as nat) =~= all);
    while left > 0
        invariant_except_break
            fields_views(rows@) + rows_below(m, bound as int, left as nat) == all,
        invariant
            ledger.wf(),
            m == ledger@.matches,
        ensures
            fields_views(rows@) == all,
        decreases left,
    {
        let ghost before = fields_views(rows@);
        match find_below(ledger, bound) {
            None => {
                assert(before + rows_below(m, bound as int, left as nat) =~= before);
                break;
            },
            Some(k) => {
                let ghost rest = rows_below(m, k as int, (left - 1) as nat);
                assert(crate::ledger::fits(ledger@));
                assert(ledger@.matches.dom().contains(k));
                match ledger.matches.get(&k) {
                    Some(row) => {
                        if row.score_a <= i32::MAX as u32 && row.score_b <= i32::MAX as u32 {
                            let f = fields_of_row(k, row);
                            rows.push(f);
                            assert(fields_views(rows@) =~= before.push(f@));
                            assert(before.push(f@) + rest =~= before + (seq![f@] + rest));
                        }
                    },
                    None => {},
                }
                bound = k;
                left -= 1;
            },
        }
        if left == 0 {
            assert(rows_below(m, bound as int, 0) =~= Seq::empty());
            assert(fields_views(rows@) + rows_below(m, bound as int, 0) =~= fields_views(rows@));
        }
    }
    listing_text("matches", &rows)
}

// ---------------------------------------------------------------------------
// Commands of the moderation page
// ---------------------------------------------------------------------------

/// What the moderation page asks of the gateway.
#[derive(Clone, Copy, PartialEq, Eq, Structural, Debug)]
pub enum HttpCmd {
    List,
    Revoke { id: u64 },
    Edit { id: u64, score_a: u32, score_b: u32 },
}

/// What came of it: the text for the page or an error, and what the connected
/// players are told.
pub struct HttpReply {
    pub result: Result<String, String>,
    pub pushes: Vec<(PeerId, GatewayRequest)>,
}

pub open spec fn push_views(v: Seq<(PeerId, GatewayRequest)>) -> Seq<(PeerId, GatewayRequestView)> {
    Seq::new(v.len(), |i: int| (v[i].0, v[i].1@))
}

/// A message for a player, if that player is connected.
pub open spec fn push_if_here(l: LobbyView, p: PeerId, m: GatewayRequestView) -> Seq<
    (PeerId, GatewayRequestView),
> {
    if l.players.contains_key(p) {
        seq![(p, m)]
    } else {
        Seq::empty()
    }
}

/// What the two players are told of a match taken back.
pub open spec fn revoked_pushes(a: PeerId, b: PeerId, id: u64, e: Moderated) -> Seq<
    (PeerId, GatewayRequestView),
> {
    push_if_here(
        e.lobby,
        a,
        GatewayRequestView::MatchRevoked {
            match_id: id,
            rating: e.rating_a,
            proof: Some(e.certificate_a),
        },
    ) + push_if_here(
        e.lobby,
        b,
        GatewayRequestView::MatchRevoked {
            match_id: id,
            rating: e.rating_b,
            proof: Some(e.certificate_b),
        },
    )
}

/// What the two players are told of a corrected score.
pub open spec fn corrected_pushes(
    a: PeerId,
    b: PeerId,
    id: u64,
    score_a: u32,
    score_b: u32,
    e: Moderated,
) -> Seq<(PeerId, GatewayRequestView)> {
    push_if_here(
        e.lobby,
        a,
        GatewayRequestView::MatchCorrected {
            match_id: id,
            my_score: score_a,
            opponent_score: score_b,
            rating: e.rating_a,
            proof: Some(e.certificate_a),
        },
    ) + push_if_here(
        e.lobby,
        b,
        GatewayRequestView::MatchCorrected {
            match_id: id,
            my_score: score_b,
            opponent_score: score_a,
            rating: e.rating_b,
            proof: Some(e.certificate_b),
        },
    )
}

pub open spec fn revoked_body(id: u64) -> Seq<char> {
    object_json(seq![("ok"@, ScalarView::Bool(true)), ("match_id"@, ScalarView::Int(id as i64))])
}

pub open spec fn edited_body(id: u64, score_a: u32, score_b: u32) -> Seq<char> {
    object_json(
        seq![
            ("ok"@, ScalarView::Bool(true)),
            ("match_id"@, ScalarView::Int(id as i64)),
            ("score_a"@, ScalarView::Int(score_a as i64)),
            ("score_b"@, ScalarView::Int(score_b as i64)),
        ],
    )
}

/// The players that one notice each goes to.
fn revoked_notices(lobby: &Lobby, id: u64, players: &Vec<RevokedPlayer>) -> (r: Vec<
    (PeerId, GatewayRequest),
>)
    requires
        lobby.wf(),
        players@.len() == 2,
    ensures
        push_views(r@) == revoked_notice(lobby@, id, players@[0]) + revoked_notice(
            lobby@,
            id,
            players@[1],
        ),
{
    let mut out: Vec<(PeerId, GatewayRequest)> = Vec::new();
    let mut i: usize = 0;
    let ghost mut sofar: Seq<(PeerId, GatewayRequestView)> = Seq::empty();
    assert(push_views(out@) =~= sofar);
    while i < 2
        invariant
            0 <= i <= 2,
            players@.len() == 2,
            lobby.wf(),
            push_views(out@) == sofar,
            i == 0 ==> sofar == Seq::<(PeerId, GatewayRequestView)>::empty(),
            i == 1 ==> sofar == revoked_notice(lobby@, id, players@[0]),
            i == 2 ==> sofar == revoked_notice(lobby@, id, players@[0]) + revoked_notice(
                lobby@,
                id,
                players@[1],
            ),
        decreases 2 - i,
    {
        let p = &players[i];
        let ghost before = sofar;
        if lobby.players.contains(&p.peer) {
            let m = GatewayRequest::MatchRevoked {
                match_id: id,
                rating: p.before,
                proof: copy_proof(&p.proof),
            };
            out.push((p.peer, m));
            proof {
                sofar = sofar.push((p.peer, m@));
            }
            assert(push_views(out@) =~= sofar);
        }
        assert(sofar =~= before + revoked_notice(lobby@, id, *p));
        i += 1;
    }
    out
}

spec fn revoked_notice(l: LobbyView, id: u64, p: RevokedPlayer) -> Seq<
    (PeerId, GatewayRequestView),
> {
    push_if_here(
        l,
        p.peer,
        GatewayRequestView::MatchRevoked {
            match_id: id,
            rating: p.before,
            proof: proof_view(p.proof),
        },
    )
}

spec fn corrected_notice(l: LobbyView, id: u64, p: CorrectedPlayer) -> Seq<
    (PeerId, GatewayRequestView),
> {
    push_if_here(
        l,
        p.peer,
        GatewayRequestView::MatchCorrected {
            match_id: id,
            my_score: p.my_score,
            opponent_score: p.opponent_score,
            rating: p.rating,
            proof: proof_view(p.proof),
        },
    )
}

fn corrected_notices(lobby: &Lobby, id: u64, players: &Vec<CorrectedPlayer>) -> (r: Vec<
    (PeerId, GatewayRequest),
>)
    requires
        lobby.wf(),
        players@.len() == 2,
    ensures
        push_views(r@) == corrected_notice(lobby@, id, players@[0]) + corrected_notice(
            lobby@,
            id,
            players@[1],
        ),
{
    let mut out: Vec<(PeerId, GatewayRequest)> = Vec::new();
    let mut i: usize = 0;
    let ghost mut sofar: Seq<(PeerId, GatewayRequestView)> = Seq::empty();
    assert(push_views(out@) =~= sofar);
    while i < 2
        invariant
            0 <= i <= 2,
            players@.len() == 2,
            lobby.wf(),
            push_views(out@) == sofar,
            i == 0 ==> sofar == Seq::<(PeerId, GatewayRequestView)>::empty(),
            i == 1 ==> sofar == corrected_notice(lobby@, id, players@[0]),
            i == 2 ==> sofar == corrected_notice(lobby@, id, players@[0]) + corrected_notice(
                lobby@,
                id,
                players@[1],
            ),
        decreases 2 - i,
    {
        let p = &players[i];
        let ghost before = sofar;
        if lobby.players.contains(&p.peer) {
            let m = GatewayRequest::MatchCorrected {
                match_id: id,
                my_score: p.my_score,
                opponent_score: p.opponent_score,
                rating: p.rating,
                proof: copy_proof(&p.proof),
            };
            out.push((p.peer, m));
            proof {
                sofar = sofar.push((p.peer, m@));
            }
            assert(push_views(out@) =~= sofar);
        }
        assert(sofar =~= before + corrected_notice(lobby@, id, *p));
        i += 1;
    }
    out
}

/// What a command of the page leads to; `None` where the numbers that it
/// needs have run out.
pub struct HttpEffect {
    pub lobby: LobbyView,
    pub ledger: LedgerView,
    pub result: Result<Seq<char>, Seq<char>>,
    pub pushes: Seq<(PeerId, GatewayRequestView)>,
}

pub open spec fn http_effect(
    l: LobbyView,
    g: LedgerView,
    key: SigningKey,
    gateway: PeerId,
    cmd: HttpCmd,
    now: Seq<char>,
) -> Option<HttpEffect> {
    match cmd {
        HttpCmd::List => Some(
            HttpEffect {
                lobby: l,
                ledger: g,
                result: Ok(listing_of(g)),
                pushes: Seq::empty(),
            },
        ),
        HttpCmd::Revoke { id } => {
            let (a, b) = players_of(g, id);
            match refusal(g, id) {
                Some(msg) => Some(
                    HttpEffect { lobby: l, ledger: g, result: Err(msg), pushes: Seq::empty() },
                ),
                None => if seqs_left(l, g, a, b) {
                    let e = revoked_of(l, g, key, gateway, id, a, b, now);
                    Some(
                        HttpEffect {
                            lobby: e.lobby,
                            ledger: e.ledger,
                            result: Ok(revoked_body(id)),
                            pushes: revoked_pushes(a, b, id, e),
                        },
                    )
                } else {
                    None
                },
            }
        },
        HttpCmd::Edit { id, score_a, score_b } => {
            let (a, b) = players_of(g, id);
            match edit_refusal(g, id, score_a, score_b) {
                Some(msg) => Some(
                    HttpEffect { lobby: l, ledger: g, result: Err(msg), pushes: Seq::empty() },
                ),
                None => if gap_fits(g.matches[id]) && seqs_left(l, g, a, b) {
                    let e = edited_of(l, g, key, gateway, id, a, b, score_a, score_b, now);
                    Some(
                        HttpEffect {
                            lobby: e.lobby,
                            ledger: e.ledger,
                            result: Ok(edited_body(id, score_a, score_b)),
                            pushes: corrected_pushes(a, b, id, score_a, score_b, e),
                        },
                    )
                } else {
                    None
                },
            }
        },
    }
}

pub open spec fn result_view(r: Result<String, String>) -> Result<Seq<char>, Seq<char>> {
    match r {
        Ok(t) => Ok(t@),
        Err(t) => Err(t@),
    }
}

/// Carries out a command of the moderation page.
#[verifier::spinoff_prover]
#[verifier::rlimit(40)]
pub fn on_http_command(
    lobby: &mut Lobby,
    ledger: &mut Ledger,
    key: &SigningKey,
    gateway: &PeerId,
    cmd: HttpCmd,
    now: &str,
) -> (r: Option<HttpReply>)
    requires
        old(lobby).wf(),
        old(ledger).wf(),
        gateway.wf(),
    ensures
        final(lobby).wf(),
        final(ledger).wf(),
        match (r, http_effect(old(lobby)@, old(ledger)@, *key, *gateway, cmd, now@)) {
            (Some(reply), Some(e)) => {
                &&& final(lobby)@ == e.lobby
                &&& final(ledger)@ == e.ledger
                &&& result_view(reply.result) == e.result
                &&& push_views(reply.pushes@) == e.pushes
            },
            (None, None) => final(lobby)@ == old(lobby)@ && final(ledger)@ == old(ledger)@,
            _ => false,
        },
{
    let none: Vec<(PeerId, GatewayRequest)> = Vec::new();
    assert(push_views(none@) =~= Seq::empty());
    match cmd {
        HttpCmd::List => Some(HttpReply { result: Ok(list_matches_json(ledger)), pushes: none }),
        HttpCmd::Revoke { id } => match revoke_match_state(lobby, ledger, key, gateway, id, now) {
            None => None,
            Some(Err(e)) => Some(HttpReply { result: Err(e), pushes: none }),
            Some(Ok(players)) => {
                let pushes = revoked_notices(lobby, id, &players);
                let mut f = Fields::new();
                f.put_bool("ok", true);
                f.put_int("match_id", id as i64);
                assert(f@ =~= seq![
                    ("ok"@, ScalarView::Bool(true)),
                    ("match_id"@, ScalarView::Int(id as i64)),
                ]);
                Some(HttpReply { result: Ok(object_text(&f)), pushes })
            },
        },
        HttpCmd::Edit { id, score_a, score_b } => match edit_match_state(
            lobby,
            ledger,
            key,
            gateway,
            id,
            score_a,
            score_b,
            now,
        ) {
            None => None,
            Some(Err(e)) => Some(HttpReply { result: Err(e), pushes: none }),
            Some(Ok(players)) => {
                let pushes = corrected_notices(lobby, id, &players);
                let mut f = Fields::new();
                f.put_bool("ok", true);
                f.put_int("match_id", id as i64);
                f.put_int("score_a", score_a as i64);
                f.put_int("score_b", score_b as i64);
                assert(f@ =~= seq![
                    ("ok"@, ScalarView::Bool(true)),
                    ("match_id"@, ScalarView::Int(id as i64)),
                    ("score_a"@, ScalarView::Int(score_a as i64)),
                    ("score_b"@, ScalarView::Int(score_b as i64)),
                ]);
                Some(HttpReply { result: Ok(object_text(&f)), pushes })
            },
        },
    }
}

/// A listed match is told by its number and by what is stored of it, each under
/// its own name.
pub proof fn listings_tell_the_row(id: u64, row: MatchRowView)
    requires
        id <= 0x7fff_ffff_ffff_ffff,
    ensures
        ({
            let f = row_fields(id, row);
            &&& f.len() == 17
            &&& f[0].0 == "id"@ && f[0].1 == ScalarView::Int(id as i64)
            &&& f[1].0 == "created_at"@ && f[1].1 == ScalarView::Text(row.created_at)
            &&& f[2].0 == "player_a"@ && f[2].1 == ScalarView::Text(row.player_a)
            &&& f[3].0 == "username_a"@ && f[3].1 == ScalarView::Text(row.username_a)
            &&& f[4].0 == "rating_a_before"@ && f[4].1 == ScalarView::Int(row.before_a as i64)
            &&& f[5].0 == "rating_a_after"@ && f[5].1 == ScalarView::Int(row.after_a as i64)
            &&& f[6].0 == "score_a"@ && f[6].1 == ScalarView::Int(row.score_a as i64)
            &&& f[7].0 == "reported_a"@ && f[7].1 == ScalarView::Bool(row.reported_a)
            &&& f[8].0 == "player_b"@ && f[8].1 == ScalarView::Text(row.player_b)
            &&& f[9].0 == "username_b"@ && f[9].1 == ScalarView::Text(row.username_b)
            &&& f[10].0 == "rating_b_before"@ && f[10].1 == ScalarView::Int(row.before_b as i64)
            &&& f[11].0 == "rating_b_after"@ && f[11].1 == ScalarView::Int(row.after_b as i64)
            &&& f[12].0 == "score_b"@ && f[12].1 == ScalarView::Int(row.score_b as i64)
            &&& f[13].0 == "reported_b"@ && f[13].1 == ScalarView::Bool(row.reported_b)
            &&& f[14].0 == "status"@
            &&& row.status is Pending ==> f[14].1 == ScalarView::Text("pending"@)
            &&& row.status is Played ==> f[14].1 == ScalarView::Text("played"@)
            &&& row.status is Revoked ==> f[14].1 == ScalarView::Text("revoked"@)
            &&& f[15].0 == "revoked_at"@ && f[16].0 == "edited_at"@
            &&& row.revoked_at is None ==> f[15].1 == ScalarView::Null
            &&& row.edited_at is None ==> f[16].1 == ScalarView::Null
            &&& row.revoked_at matches Some(t) ==> f[15].1 == ScalarView::Text(t)
            &&& row.edited_at matches Some(t) ==> f[16].1 == ScalarView::Text(t)
        }),
{
}

proof fn lemma_next_below(m: Map<u64, MatchRowView>, bound: int, k: u64)
    requires
        m.contains_key(k) && k < bound,
        forall|q: u64| #[trigger] m.contains_key(q) && q < bound ==> q <= k,
    ensures
        next_below(m, bound) == Some(k),
{
    assert(is_next_below(m, bound, k));
    let c = choose|c: u64| is_next_below(m, bound, c);
    assert(is_next_below(m, bound, c));
    assert(m.contains_key(c));
}

/// Matches are listed from the highest number down: the highest below a number
/// comes first, with the ones below it behind, until as many are listed as may
/// be or none is left.
pub proof fn the_newest_matches_are_listed_first(
    m: Map<u64, MatchRowView>,
    bound: int,
    k: u64,
    n: nat,
)
    ensures
        m.contains_key(k) && k < bound && (forall|q: u64| #[trigger] m.contains_key(q) && q < bound
            ==> q <= k) && m[k].score_a <= i32::MAX && m[k].score_b <= i32::MAX ==> rows_below(
            m,
            bound,
            n + 1,
        ) == seq![row_fields(k, m[k])] + rows_below(m, k as int, n),
        rows_below(m, bound, 0).len() == 0,
        (forall|q: u64| #[trigger] m.contains_key(q) ==> q >= bound) ==> rows_below(m, bound, n).len()
            == 0,
        rows_below(m, bound, n).len() <= n,
    decreases n,
{
    if m.contains_key(k) && k < bound && (forall|q: u64| #[trigger] m.contains_key(q) && q < bound
        ==> q <= k) {
        lemma_next_below(m, bound, k);
    }
    if forall|q: u64| #[trigger] m.contains_key(q) ==> q >= bound {
        if next_below(m, bound) is Some {
            let c = choose|c: u64| is_next_below(m, bound, c);
            assert(is_next_below(m, bound, c));
            assert(m.contains_key(c));
        }
    }
    if n > 0 {
        if let Some(c) = next_below(m, bound) {
            the_newest_matches_are_listed_first(m, c as int, k, (n - 1) as nat);
        }
    }
}

/// Three hundred matches are listed at most, all that are stored among which
/// to choose.
pub proof fn three_hundred_matches_are_listed(g: LedgerView)
    ensures
        listing_of(g) == listing_json(
            "matches"@,
            rows_below(g.matches, 0x8000_0000_0000_0000, 300),
        ),
{
}

/// What was done is told with the number of the match and, where it was
/// corrected, with its points.
pub proof fn done_is_told(id: u64, score_a: u32, score_b: u32)
    ensures
        revoked_body(id) == object_json(
            seq![("ok"@, ScalarView::Bool(true)), ("match_id"@, ScalarView::Int(id as i64))],
        ),
        edited_body(id, score_a, score_b) == object_json(
            seq![
                ("ok"@, ScalarView::Bool(true)),
                ("match_id"@, ScalarView::Int(id as i64)),
                ("score_a"@, ScalarView::Int(score_a as i64)),
                ("score_b"@, ScalarView::Int(score_b as i64)),
            ],
        ),
        bad_score_text() == "marcador inválido (permitido 0..="@ + seq!['2', '5'] + ")"@,
{
    reveal_with_fuel(decimal_of, 2);
    assert(decimal_of(25) =~= seq!['2', '5']);
}

} // verus!
