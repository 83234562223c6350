//! What holds of the gateway across several calls.
use vstd::prelude::*;

use crate::addr::PartView;
use crate::certify::{proof_holds, proof_of, SigningKey};
use crate::elo::{
    elo_conserves_points, elo_is_symmetric, elo_of, outcome_of, points_move_by_the_formula,
    results_follow_the_points, rounds_expected,
};
use crate::gateway::{
    accepted_of, claim_of, connected_entry, identified_entry, is_known, lobby_without,
    registered_of, stored_of,
};
use crate::ledger::{is_max_id, max_id_of, LedgerView, MatchRowView, MatchStatus, MAX_STORED};
use crate::lobby::{
    after_of, both_rated, both_seqs, canon_of, first_reported, fresh_id, given_out, name_of,
    number_of, opened, opened_later, rating_of, reported_of, reporter_first, resolve, seq_of,
    seqs_left, unmoved, LobbyView, MatchCanon, Resolution,
};
use crate::moderation::{
    corrected_pushes, edit_refusal, edited_of, gap_fits, http_effect, refusal, revoked_of,
    revoked_pushes, HttpCmd, Moderated,
};
use crate::peer::{base58, parsed_peer, peer_order_is_total, PeerId};
use crate::protocol::{GatewayRequestView, GatewayResponseView, ProofView};

verus! {

/// A finite set of match numbers has a highest one.
pub proof fn a_highest_match_exists(m: Map<u64, MatchRowView>)
    requires
        m.dom().finite(),
    ensures
        is_max_id(m, max_id_of(m)),
{
    lemma_max_exists(m);
}

proof fn lemma_max_exists(m: Map<u64, MatchRowView>)
    requires
        m.dom().finite(),
    ensures
        exists|n: u64| is_max_id(m, n),
    decreases m.dom().len(),
{
    if m.dom().len() == 0 {
        assert(m.dom() =~= Set::empty());
        assert(is_max_id(m, 0));
    } else {
        let k = m.dom().choose();
        let rest = m.remove(k);
        lemma_max_exists(rest);
        let n = choose|n: u64| is_max_id(rest, n);
        if k >= n {
            assert forall|id: u64| m.contains_key(id) implies id <= k by {
                if id != k {
                    assert(rest.contains_key(id));
                }
            }
            assert(is_max_id(m, k));
        } else {
            assert(rest.contains_key(n));
            assert forall|id: u64| m.contains_key(id) implies id <= n by {
                if id != k {
                    assert(rest.contains_key(id));
                }
            }
            assert(is_max_id(m, n));
        }
    }
}

/// A new match gets a number that no stored match has, nor any match that was
/// numbered before it.
pub proof fn match_numbers_are_fresh(l: LobbyView, g: LedgerView)
    requires
        g.matches.dom().finite(),
        forall|id: u64| #[trigger] g.matches.dom().contains(id) ==> id <= MAX_STORED,
    ensures
        !g.matches.contains_key(fresh_id(l, g)),
        fresh_id(l, g) >= l.next_id,
        fresh_id(l, g) > 0,
{
    a_highest_match_exists(g.matches);
    if max_id_of(g.matches) != 0 {
        assert(g.matches.dom().contains(max_id_of(g.matches)));
    }
}

/// The first report of a match moves nobody but its two players.
pub proof fn reports_move_only_the_players(
    l: LobbyView,
    g: LedgerView,
    key: SigningKey,
    gateway: PeerId,
    reporter: PeerId,
    opponent: PeerId,
    match_id: u64,
    mine: u32,
    theirs: u32,
    now: Seq<char>,
    other: PeerId,
)
    requires
        other != reporter,
        other != opponent,
    ensures
        ({
            let e = reported_of(
                l,
                g,
                key,
                gateway,
                reporter,
                opponent,
                match_id,
                mine,
                theirs,
                now,
            );
            &&& rating_of(e.lobby, e.ledger, other) == rating_of(l, g, other)
            &&& seq_of(e.lobby, e.ledger, other) == seq_of(l, g, other)
            &&& e.lobby.queue == l.queue
        }),
{
}

/// Whether a player's certificates are all kept: the player is connected, or
/// the next two numbers fit the ledger.
pub open spec fn seqs_kept(l: LobbyView, g: LedgerView, p: PeerId) -> bool {
    l.players.contains_key(p) || seq_of(l, g, p) + 2 <= MAX_STORED
}

/// The first report gives both players what the rating formula says, under
/// their next sequence numbers.
pub proof fn first_reports_rate_both(
    l: LobbyView,
    g: LedgerView,
    key: SigningKey,
    gateway: PeerId,
    reporter: PeerId,
    canon: MatchCanon,
    first: bool,
    id: u64,
    now: Seq<char>,
)
    requires
        canon.pa != canon.pb,
        seqs_left(l, g, canon.pa, canon.pb),
        seqs_kept(l, g, canon.pa),
        seqs_kept(l, g, canon.pb),
    ensures
        ({
            let e = first_reported(l, g, key, gateway, reporter, canon, first, id, now);
            &&& rating_of(e.lobby, e.ledger, canon.pa) == after_of(l, g, canon).0 as i32
            &&& rating_of(e.lobby, e.ledger, canon.pb) == after_of(l, g, canon).1 as i32
            &&& seq_of(e.lobby, e.ledger, canon.pa) == seq_of(l, g, canon.pa) + 1
            &&& seq_of(e.lobby, e.ledger, canon.pb) == seq_of(l, g, canon.pb) + 1
        }),
{
}

/// A match makes no rating points and destroys none, away from the limits of
/// the number type.
pub proof fn matches_conserve_points(
    l: LobbyView,
    g: LedgerView,
    key: SigningKey,
    gateway: PeerId,
    reporter: PeerId,
    canon: MatchCanon,
    first: bool,
    id: u64,
    now: Seq<char>,
)
    requires
        canon.pa != canon.pb,
        seqs_left(l, g, canon.pa, canon.pb),
        seqs_kept(l, g, canon.pa),
        seqs_kept(l, g, canon.pb),
        i32::MIN + 32 <= rating_of(l, g, canon.pa) <= i32::MAX - 32,
        i32::MIN + 32 <= rating_of(l, g, canon.pb) <= i32::MAX - 32,
    ensures
        ({
            let e = first_reported(l, g, key, gateway, reporter, canon, first, id, now);
            rating_of(e.lobby, e.ledger, canon.pa) + rating_of(e.lobby, e.ledger, canon.pb)
                == rating_of(l, g, canon.pa) + rating_of(l, g, canon.pb)
        }),
{
    first_reports_rate_both(l, g, key, gateway, reporter, canon, first, id, now);
    elo_conserves_points(
        rating_of(l, g, canon.pa) as int,
        rating_of(l, g, canon.pb) as int,
        crate::elo::outcome_of(canon.score_a as int, canon.score_b as int),
    );
}

/// Both players speak of the same match.
pub proof fn both_sides_agree(a: PeerId, b: PeerId, score_a: u32, score_b: u32)
    requires
        a != b,
    ensures
        canon_of(a, b, score_a, score_b) == canon_of(b, a, score_b, score_a),
        reporter_first(a, b) == !reporter_first(b, a),
{
    peer_order_is_total(a, b);
}

/// A first report opens the match under its number, for this side alone, and
/// the second one finds it there.
proof fn lemma_opens(
    l: LobbyView,
    g: LedgerView,
    key: SigningKey,
    gateway: PeerId,
    a: PeerId,
    b: PeerId,
    first_id: u64,
    second_id: u64,
    score_a: u32,
    score_b: u32,
    now: Seq<char>,
)
    requires
        g.matches.dom().finite(),
        forall|id: u64| #[trigger] g.matches.dom().contains(id) ==> id <= MAX_STORED,
        resolve(l, g, canon_of(a, b, score_a, score_b), first_id) is New,
        fresh_id(l, g) <= MAX_STORED,
        !l.open.contains_key(fresh_id(l, g)),
        second_id == first_id || second_id == 0 || first_id == 0 && given_out(l, g, second_id)
            && !g.matches.contains_key(second_id),
    ensures
        ({
            let canon = canon_of(a, b, score_a, score_b);
            let first = reporter_first(a, b);
            let id = number_of(resolve(l, g, canon, first_id));
            let one = reported_of(l, g, key, gateway, a, b, first_id, score_a, score_b, now);
            &&& id > 0
            &&& given_out(l, g, first_id) ==> id == first_id
            &&& one.ledger.matches.dom() == g.matches.dom().insert(id)
            &&& one.ledger.matches[id].status is Pending
            &&& one.lobby.open.contains_key(id)
            &&& one.lobby.open[id].reported_a == first
            &&& one.lobby.open[id].reported_b == !first
            &&& resolve(one.lobby, one.ledger, canon, second_id) == Resolution::Known(id)
        }),
{
    match_numbers_are_fresh(l, g);
    let canon = canon_of(a, b, score_a, score_b);
    let res = resolve(l, g, canon, first_id);
    let id = number_of(res);
    let l1 = opened(l, g, canon, res);
    let first = reporter_first(a, b);
    let one = first_reported(l1, g, key, gateway, a, canon, first, id, now);
    assert(one == reported_of(l, g, key, gateway, a, b, first_id, score_a, score_b, now));
    assert(one.lobby.by_canon == l.by_canon.insert(canon, id));
    assert(one.lobby.open.dom() =~= l.open.dom().insert(id));
    assert(one.lobby.open[id].canon == canon);
    assert(one.lobby.next_id == l1.next_id);
    assert(one.ledger.matches == g.matches.insert(id, one.ledger.matches[id]));
    assert(one.ledger.matches.dom() =~= g.matches.dom().insert(id));
    if second_id != id && second_id != 0 {
        assert(!one.ledger.matches.contains_key(second_id));
        assert(id == fresh_id(l, g));
        assert(first_id == 0 ==> opened_later(one.lobby, canon, second_id));
        a_highest_match_exists(g.matches);
        a_highest_match_exists(one.ledger.matches);
        assert(fresh_id(one.lobby, one.ledger) <= id + 1);
    }
}

/// The report of the other side closes an open match as played, and after it
/// the number is of a match that was counted.
proof fn lemma_confirms(
    l: LobbyView,
    g: LedgerView,
    key: SigningKey,
    gateway: PeerId,
    b: PeerId,
    a: PeerId,
    second_id: u64,
    id: u64,
    score_b: u32,
    score_a: u32,
    later: Seq<char>,
)
    requires
        a != b,
        id > 0,
        resolve(l, g, canon_of(b, a, score_b, score_a), second_id) == Resolution::Known(id),
        l.open.contains_key(id),
        l.open[id].reported_a == !reporter_first(b, a),
        l.open[id].reported_b == reporter_first(b, a),
        g.matches.contains_key(id),
    ensures
        ({
            let two = reported_of(l, g, key, gateway, b, a, second_id, score_b, score_a, later);
            let again = reported_of(
                two.lobby,
                two.ledger,
                key,
                gateway,
                a,
                b,
                id,
                score_a,
                score_b,
                later,
            );
            &&& two.lobby.players == l.players
            &&& two.ledger.players == g.players
            &&& two.ledger.matches.dom() == g.matches.dom()
            &&& two.ledger.matches[id] == (MatchRowView {
                status: MatchStatus::Played,
                reported_a: true,
                reported_b: true,
                ..g.matches[id]
            })
            &&& !two.lobby.open.contains_key(id)
            &&& again.lobby == two.lobby
            &&& again.ledger == two.ledger
        }),
{
    let two = reported_of(l, g, key, gateway, b, a, second_id, score_b, score_a, later);
    assert(two.ledger.matches.dom() =~= g.matches.dom());
    assert(resolve(two.lobby, two.ledger, canon_of(a, b, score_a, score_b), id) is Counted);
}

/// Two reports of a match, one by each player, are one match: the second moves
/// no rating and closes it as played, and reporting it again by its number
/// changes nothing at all. Each of them gives the number that they were told, or
/// none.
pub proof fn two_reports_are_one_match(
    l: LobbyView,
    g: LedgerView,
    key: SigningKey,
    gateway: PeerId,
    a: PeerId,
    b: PeerId,
    first_id: u64,
    second_id: u64,
    score_a: u32,
    score_b: u32,
    now: Seq<char>,
    later: Seq<char>,
)
    requires
        a != b,
        g.matches.dom().finite(),
        forall|id: u64| #[trigger] g.matches.dom().contains(id) ==> id <= MAX_STORED,
        resolve(l, g, canon_of(a, b, score_a, score_b), first_id) is New,
        fresh_id(l, g) <= MAX_STORED,
        !l.open.contains_key(fresh_id(l, g)),
        second_id == first_id || second_id == 0 || first_id == 0 && given_out(l, g, second_id)
            && !g.matches.contains_key(second_id),
    ensures
        ({
            let id = number_of(resolve(l, g, canon_of(a, b, score_a, score_b), first_id));
            let one = reported_of(
                l,
                g,
                key,
                gateway,
                a,
                b,
                first_id,
                score_a,
                score_b,
                now,
            );
            let two = reported_of(
                one.lobby,
                one.ledger,
                key,
                gateway,
                b,
                a,
                second_id,
                score_b,
                score_a,
                later,
            );
            let again = reported_of(
                two.lobby,
                two.ledger,
                key,
                gateway,
                a,
                b,
                id,
                score_a,
                score_b,
                later,
            );
            &&& given_out(l, g, first_id) ==> id == first_id
            &&& one.ledger.matches.dom() == g.matches.dom().insert(id)
            &&& one.ledger.matches[id].status is Pending
            &&& two.lobby.players == one.lobby.players
            &&& two.ledger.players == one.ledger.players
            &&& two.ledger.matches.dom() == one.ledger.matches.dom()
            &&& two.ledger.matches[id] == (MatchRowView {
                status: MatchStatus::Played,
                reported_a: true,
                reported_b: true,
                ..one.ledger.matches[id]
            })
            &&& !two.lobby.open.contains_key(id)
            &&& again.lobby == two.lobby
            &&& again.ledger == two.ledger
        }),
{
    both_sides_agree(a, b, score_a, score_b);
    let id = number_of(resolve(l, g, canon_of(a, b, score_a, score_b), first_id));
    lemma_opens(l, g, key, gateway, a, b, first_id, second_id, score_a, score_b, now);
    let one = reported_of(l, g, key, gateway, a, b, first_id, score_a, score_b, now);
    lemma_confirms(
        one.lobby,
        one.ledger,
        key,
        gateway,
        b,
        a,
        second_id,
        id,
        score_b,
        score_a,
        later,
    );
}

/// One report of a match: who sends it, of whom and of what.
pub struct Report {
    pub reporter: PeerId,
    pub opponent: PeerId,
    pub mine: u32,
    pub theirs: u32,
    pub now: Seq<char>,
}

/// The match that a report speaks of.
pub open spec fn canon_of_report(r: Report) -> MatchCanon {
    canon_of(r.reporter, r.opponent, r.mine, r.theirs)
}

/// The lobby and the ledger after a report that carries a number.
pub open spec fn after_report(
    l: LobbyView,
    g: LedgerView,
    key: SigningKey,
    gateway: PeerId,
    match_id: u64,
    r: Report,
) -> (LobbyView, LedgerView) {
    let e = reported_of(
        l,
        g,
        key,
        gateway,
        r.reporter,
        r.opponent,
        match_id,
        r.mine,
        r.theirs,
        r.now,
    );
    (e.lobby, e.ledger)
}

/// The lobby and the ledger after all of these reports of one number.
pub open spec fn after_reports(
    l: LobbyView,
    g: LedgerView,
    key: SigningKey,
    gateway: PeerId,
    match_id: u64,
    reports: Seq<Report>,
) -> (LobbyView, LedgerView)
    decreases reports.len(),
{
    if reports.len() == 0 {
        (l, g)
    } else {
        let before = after_reports(l, g, key, gateway, match_id, reports.drop_last());
        after_report(before.0, before.1, key, gateway, match_id, reports.last())
    }
}

/// Whether two rows tell the same match with the same points and ratings.
pub open spec fn same_outcome(m: MatchRowView, n: MatchRowView) -> bool {
    &&& m.player_a == n.player_a
    &&& m.player_b == n.player_b
    &&& m.score_a == n.score_a
    &&& m.score_b == n.score_b
    &&& m.before_a == n.before_a
    &&& m.before_b == n.before_b
    &&& m.after_a == n.after_a
    &&& m.after_b == n.after_b
}

/// A report that carries the number of a stored match is of that match,
/// whoever sends it and whatever score it tells: it moves no rating, stores no
/// other match, and leaves points and ratings of the match as they are.
pub proof fn stored_matches_are_not_rated_again(
    l: LobbyView,
    g: LedgerView,
    key: SigningKey,
    gateway: PeerId,
    match_id: u64,
    r: Report,
)
    requires
        match_id != 0,
        g.matches.contains_key(match_id),
    ensures
        ({
            let e = after_report(l, g, key, gateway, match_id, r);
            &&& e.0.players == l.players
            &&& e.1.players == g.players
            &&& e.1.matches.dom() == g.matches.dom()
            &&& forall|id: u64| id != match_id ==> #[trigger] e.1.matches[id] == g.matches[id]
            &&& same_outcome(e.1.matches[match_id], g.matches[match_id])
        }),
{
    let e = after_report(l, g, key, gateway, match_id, r);
    assert(e.1.matches.dom() =~= g.matches.dom());
}

/// A number that has just been given out to a pairing is good for its reports.
pub proof fn paired_numbers_are_given_out(l: LobbyView, g: LedgerView)
    requires
        g.matches.dom().finite(),
        forall|id: u64| #[trigger] g.matches.dom().contains(id) ==> id <= MAX_STORED,
        fresh_id(l, g) < u64::MAX,
        !l.open.contains_key(fresh_id(l, g)),
    ensures
        given_out(
            LobbyView { next_id: (fresh_id(l, g) + 1) as u64, ..l },
            g,
            fresh_id(l, g),
        ),
        !g.matches.contains_key(fresh_id(l, g)),
{
    match_numbers_are_fresh(l, g);
}

/// The reports that carry the number of a pairing are one match under that
/// number, however many come and in whatever order: the first one moves the
/// ratings, and none of the others does. (Where that match was reported without
/// its number before, see `late_numbers_are_of_the_open_match`.)
pub proof fn announced_matches_are_rated_once(
    l: LobbyView,
    g: LedgerView,
    key: SigningKey,
    gateway: PeerId,
    match_id: u64,
    reports: Seq<Report>,
)
    requires
        given_out(l, g, match_id),
        match_id <= MAX_STORED,
        !g.matches.contains_key(match_id),
        reports.len() > 0,
        !opened_later(l, canon_of_report(reports[0]), match_id),
    ensures
        ({
            let one = after_report(l, g, key, gateway, match_id, reports[0]);
            let all = after_reports(l, g, key, gateway, match_id, reports);
            &&& all.1.matches.dom() == g.matches.dom().insert(match_id)
            &&& forall|id: u64|
                id != match_id ==> #[trigger] all.1.matches[id] == g.matches[id]
            &&& same_outcome(all.1.matches[match_id], one.1.matches[match_id])
            &&& all.0.players == one.0.players
            &&& all.1.players == one.1.players
        }),
    decreases reports.len(),
{
    let one = after_report(l, g, key, gateway, match_id, reports[0]);
    let before = after_reports(l, g, key, gateway, match_id, reports.drop_last());
    if reports.len() == 1 {
        assert(before == (l, g));
        assert(one.1.matches.dom() =~= g.matches.dom().insert(match_id));
    } else {
        announced_matches_are_rated_once(l, g, key, gateway, match_id, reports.drop_last());
        assert(reports.drop_last()[0] == reports[0]);
        stored_matches_are_not_rated_again(
            before.0,
            before.1,
            key,
            gateway,
            match_id,
            reports.last(),
        );
    }
}

/// Whether every match known by its players and score is open.
pub open spec fn canons_are_open(l: LobbyView) -> bool {
    forall|c: MatchCanon| #[trigger]
        l.by_canon.contains_key(c) ==> l.open.contains_key(l.by_canon[c])
}

/// A report that carries the number of a pairing whose match is open already,
/// because it was first reported without the number, is of that match: it moves
/// no rating and stores no other match.
pub proof fn late_numbers_are_of_the_open_match(
    l: LobbyView,
    g: LedgerView,
    key: SigningKey,
    gateway: PeerId,
    match_id: u64,
    r: Report,
)
    requires
        canons_are_open(l),
        given_out(l, g, match_id),
        !g.matches.contains_key(match_id),
        opened_later(l, canon_of_report(r), match_id),
    ensures
        ({
            let e = after_report(l, g, key, gateway, match_id, r);
            &&& e.0.players == l.players
            &&& e.1.players == g.players
            &&& e.1.matches.dom() == g.matches.dom()
            &&& forall|id: u64| #[trigger]
                g.matches.contains_key(id) ==> same_outcome(e.1.matches[id], g.matches[id])
        }),
{
    let e = after_report(l, g, key, gateway, match_id, r);
    assert(e.1.matches.dom() =~= g.matches.dom());
}

/// Only open matches are known by their players and score, whatever is
/// reported, taken back or corrected.
pub proof fn closed_matches_are_forgotten(
    l: LobbyView,
    g: LedgerView,
    key: SigningKey,
    gateway: PeerId,
    match_id: u64,
    r: Report,
    a: PeerId,
    b: PeerId,
    score_a: u32,
    score_b: u32,
)
    requires
        canons_are_open(l),
    ensures
        canons_are_open(after_report(l, g, key, gateway, match_id, r).0),
        canons_are_open(revoked_of(l, g, key, gateway, match_id, a, b, r.now).lobby),
        canons_are_open(
            edited_of(l, g, key, gateway, match_id, a, b, score_a, score_b, r.now).lobby,
        ),
{
}

/// Reports that carry other numbers, or none, leave a number alone that was
/// given out: it is still good, and no match is stored under it.
pub proof fn other_reports_leave_a_number_alone(
    l: LobbyView,
    g: LedgerView,
    key: SigningKey,
    gateway: PeerId,
    match_id: u64,
    other_id: u64,
    r: Report,
)
    requires
        g.matches.dom().finite(),
        forall|id: u64| #[trigger] g.matches.dom().contains(id) ==> id <= MAX_STORED,
        canons_are_open(l),
        fresh_id(l, g) < u64::MAX,
        given_out(l, g, match_id),
        !g.matches.contains_key(match_id),
        other_id != match_id,
    ensures
        ({
            let e = after_report(l, g, key, gateway, other_id, r);
            given_out(e.0, e.1, match_id) && !e.1.matches.contains_key(match_id)
        }),
{
    let e = after_report(l, g, key, gateway, other_id, r);
    let canon = canon_of(r.reporter, r.opponent, r.mine, r.theirs);
    let res = resolve(l, g, canon, other_id);
    match_numbers_are_fresh(l, g);
    assert(!(res is Counted) ==> number_of(res) != match_id);
    assert(e.1.matches.dom() =~= g.matches.dom() || e.1.matches.dom() =~= g.matches.dom().insert(
        number_of(res),
    ));
    a_highest_match_exists(g.matches);
    a_highest_match_exists(e.1.matches);
    if max_id_of(g.matches) != 0 {
        assert(e.1.matches.contains_key(max_id_of(g.matches)));
    }
}

/// Taking a match back gives both players the rating again that they had
/// before it, each under a later sequence number, and it can be neither taken
/// back again nor corrected.
pub proof fn revoking_restores_ratings(
    l: LobbyView,
    g: LedgerView,
    key: SigningKey,
    gateway: PeerId,
    id: u64,
    a: PeerId,
    b: PeerId,
    now: Seq<char>,
)
    requires
        a != b,
        g.matches.contains_key(id),
        seqs_left(l, g, a, b),
        seqs_kept(l, g, a),
        seqs_kept(l, g, b),
    ensures
        ({
            let e = revoked_of(l, g, key, gateway, id, a, b, now);
            &&& rating_of(e.lobby, e.ledger, a) == g.matches[id].before_a
            &&& rating_of(e.lobby, e.ledger, b) == g.matches[id].before_b
            &&& seq_of(e.lobby, e.ledger, a) == seq_of(l, g, a) + 1
            &&& seq_of(e.lobby, e.ledger, b) == seq_of(l, g, b) + 1
            &&& !e.lobby.open.contains_key(id)
            &&& e.ledger.matches.dom() == g.matches.dom()
            &&& refusal(e.ledger, id) is Some
            &&& forall|x: u32, y: u32| #[trigger] edit_refusal(e.ledger, id, x, y) is Some
        }),
{
    let e = revoked_of(l, g, key, gateway, id, a, b, now);
    assert(e.ledger.matches.dom() =~= g.matches.dom());
}

/// Reporting a match and taking it back leaves both players with the rating
/// that they had.
pub proof fn revoking_undoes_a_report(
    l: LobbyView,
    g: LedgerView,
    key: SigningKey,
    gateway: PeerId,
    reporter: PeerId,
    canon: MatchCanon,
    first: bool,
    id: u64,
    now: Seq<char>,
    later: Seq<char>,
)
    requires
        canon.pa != canon.pb,
        id <= MAX_STORED,
        !g.matches.contains_key(id),
        seq_of(l, g, canon.pa) + 3 <= MAX_STORED,
        seq_of(l, g, canon.pb) + 3 <= MAX_STORED,
    ensures
        ({
            let one = first_reported(l, g, key, gateway, reporter, canon, first, id, now);
            let two = revoked_of(
                one.lobby,
                one.ledger,
                key,
                gateway,
                id,
                canon.pa,
                canon.pb,
                later,
            );
            &&& rating_of(two.lobby, two.ledger, canon.pa) == rating_of(l, g, canon.pa)
            &&& rating_of(two.lobby, two.ledger, canon.pb) == rating_of(l, g, canon.pb)
            &&& seq_of(two.lobby, two.ledger, canon.pa) == seq_of(l, g, canon.pa) + 2
            &&& seq_of(two.lobby, two.ledger, canon.pb) == seq_of(l, g, canon.pb) + 2
        }),
{
    let one = first_reported(l, g, key, gateway, reporter, canon, first, id, now);
    first_reports_rate_both(l, g, key, gateway, reporter, canon, first, id, now);
    revoking_restores_ratings(
        one.lobby,
        one.ledger,
        key,
        gateway,
        id,
        canon.pa,
        canon.pb,
        later,
    );
}

/// Correcting a score works from the ratings before the match: both players
/// get what the rating formula says of the score entered last, whatever was
/// reported or entered before it.
pub proof fn the_last_correction_decides(
    l: LobbyView,
    g: LedgerView,
    key: SigningKey,
    gateway: PeerId,
    id: u64,
    a: PeerId,
    b: PeerId,
    wrong_a: u32,
    wrong_b: u32,
    score_a: u32,
    score_b: u32,
    now: Seq<char>,
    later: Seq<char>,
)
    requires
        a != b,
        g.matches.contains_key(id),
        !(g.matches[id].status is Revoked),
        gap_fits(g.matches[id]),
        seq_of(l, g, a) + 2 <= MAX_STORED,
        seq_of(l, g, b) + 2 <= MAX_STORED,
    ensures
        ({
            let row = g.matches[id];
            let after = elo_of(
                row.before_a as int,
                row.before_b as int,
                outcome_of(score_a as int, score_b as int),
            );
            let wrong = edited_of(l, g, key, gateway, id, a, b, wrong_a, wrong_b, now);
            let last = edited_of(
                wrong.lobby,
                wrong.ledger,
                key,
                gateway,
                id,
                a,
                b,
                score_a,
                score_b,
                later,
            );
            let only = edited_of(l, g, key, gateway, id, a, b, score_a, score_b, later);
            &&& rating_of(last.lobby, last.ledger, a) == after.0
            &&& rating_of(last.lobby, last.ledger, b) == after.1
            &&& rating_of(only.lobby, only.ledger, a) == after.0
            &&& rating_of(only.lobby, only.ledger, b) == after.1
            &&& last.ledger.matches[id] == only.ledger.matches[id]
            &&& last.ledger.matches.dom() == g.matches.dom()
            &&& edit_refusal(wrong.ledger, id, score_a, score_b) == edit_refusal(
                g,
                id,
                score_a,
                score_b,
            )
        }),
{
    let wrong = edited_of(l, g, key, gateway, id, a, b, wrong_a, wrong_b, now);
    let last = edited_of(
        wrong.lobby,
        wrong.ledger,
        key,
        gateway,
        id,
        a,
        b,
        score_a,
        score_b,
        later,
    );
    assert(last.ledger.matches.dom() =~= g.matches.dom());
}

/// Correcting a match that was just reported to a wrong score and back to the
/// reported one gives the reported ratings again.
pub proof fn correcting_back_restores_a_report(
    l: LobbyView,
    g: LedgerView,
    key: SigningKey,
    gateway: PeerId,
    reporter: PeerId,
    canon: MatchCanon,
    first: bool,
    id: u64,
    wrong_a: u32,
    wrong_b: u32,
    now: Seq<char>,
)
    requires
        canon.pa != canon.pb,
        id <= MAX_STORED,
        !g.matches.contains_key(id),
        seq_of(l, g, canon.pa) + 3 <= MAX_STORED,
        seq_of(l, g, canon.pb) + 3 <= MAX_STORED,
    ensures
        ({
            let one = first_reported(l, g, key, gateway, reporter, canon, first, id, now);
            let two = edited_of(
                one.lobby,
                one.ledger,
                key,
                gateway,
                id,
                canon.pa,
                canon.pb,
                wrong_a,
                wrong_b,
                now,
            );
            let three = edited_of(
                two.lobby,
                two.ledger,
                key,
                gateway,
                id,
                canon.pa,
                canon.pb,
                canon.score_a,
                canon.score_b,
                now,
            );
            &&& rating_of(three.lobby, three.ledger, canon.pa) == rating_of(
                one.lobby,
                one.ledger,
                canon.pa,
            )
            &&& rating_of(three.lobby, three.ledger, canon.pb) == rating_of(
                one.lobby,
                one.ledger,
                canon.pb,
            )
            &&& two.ledger.matches[id].before_a == one.ledger.matches[id].before_a
            &&& two.ledger.matches[id].before_b == one.ledger.matches[id].before_b
        }),
{
    first_reports_rate_both(l, g, key, gateway, reporter, canon, first, id, now);
}

/// A certificate that holds and is later than what the gateway knows of the
/// player gives them the rating it certifies: losing what is stored costs
/// nobody their rating. The rating is stored again, and certified with a later
/// number.
pub proof fn certificates_restore_ratings(
    l: LobbyView,
    g: LedgerView,
    key: SigningKey,
    gateway: PeerId,
    p: PeerId,
    username: Seq<char>,
    cert: ProofView,
)
    requires
        proof_holds(key, p, cert),
        cert.seq < u64::MAX,
        is_known(l, g, p) ==> seq_of(l, g, p) < cert.seq,
    ensures
        claim_of(key, p, Some(cert)) == Some((cert.rating, cert.seq)),
        ({
            let e = registered_of(
                l,
                g,
                key,
                gateway,
                p,
                username,
                claim_of(key, p, Some(cert)),
            );
            &&& rating_of(e.lobby, e.ledger, p) == cert.rating
            &&& e.response matches GatewayResponseView::Registered { rating, proof: Some(next), .. }
                && rating == cert.rating && next.rating == cert.rating && next.seq == cert.seq + 1
            &&& cert.seq < MAX_STORED ==> e.ledger.players[p].rating == cert.rating
        }),
{
}

/// A certificate that does not hold is worth nothing: the player is registered
/// as without one.
pub proof fn forged_certificates_are_ignored(key: SigningKey, p: PeerId, cert: ProofView)
    requires
        !proof_holds(key, p, cert),
    ensures
        claim_of(key, p, Some(cert)) == claim_of(key, p, None),
{
}

/// A certificate that is not later than what the gateway knows of the player
/// changes nothing: the player keeps the known rating.
pub proof fn old_certificates_are_ignored(
    l: LobbyView,
    g: LedgerView,
    p: PeerId,
    rating: i32,
    seq: u64,
)
    requires
        is_known(l, g, p),
        seq <= seq_of(l, g, p),
    ensures
        accepted_of(l, g, p, Some((rating, seq))) == (rating_of(l, g, p), seq_of(l, g, p)),
{
}

// ---------------------------------------------------------------------------
// Sequence numbers
// ---------------------------------------------------------------------------

/// Whether a step certifies a player in order: the player has a later number
/// after it, or else the same rating under the same number.
pub open spec fn advances(
    before: (LobbyView, LedgerView),
    after: (LobbyView, LedgerView),
    p: PeerId,
) -> bool {
    let old_seq = seq_of(before.0, before.1, p);
    let new_seq = seq_of(after.0, after.1, p);
    ||| old_seq < new_seq
    ||| old_seq == new_seq && rating_of(before.0, before.1, p) == rating_of(after.0, after.1, p)
}

/// Whether a step takes a number for a certificate of the player: one that is
/// later than what the player had, and where it is the last one the certificate
/// is of the rating that the player then has.
pub open spec fn issued(
    before: (LobbyView, LedgerView),
    after: (LobbyView, LedgerView),
    p: PeerId,
    cert: ProofView,
) -> bool {
    let old_seq = seq_of(before.0, before.1, p);
    let new_seq = seq_of(after.0, after.1, p);
    old_seq < cert.seq <= new_seq && (cert.seq == new_seq ==> cert.rating == rating_of(
        after.0,
        after.1,
        p,
    ))
}

/// Whether a certificate tells what the player has, under the number to come.
pub open spec fn restated(state: (LobbyView, LedgerView), p: PeerId, cert: ProofView) -> bool {
    cert.seq == seq_of(state.0, state.1, p) + 1 && cert.rating == rating_of(state.0, state.1, p)
}

/// Whether everybody in the lobby has the rating and the number that are
/// stored.
pub open spec fn agrees(l: LobbyView, g: LedgerView) -> bool {
    forall|p: PeerId| #[trigger]
        l.players.contains_key(p) ==> (l.players[p].rating, l.players[p].last_seq) == stored_of(
            g,
            p,
        )
}

/// A registration certifies the player under a number of its own, moves nobody
/// else, and leaves the lobby in agreement with what is stored.
pub proof fn registrations_have_their_own_number(
    l: LobbyView,
    g: LedgerView,
    key: SigningKey,
    gateway: PeerId,
    p: PeerId,
    username: Seq<char>,
    claim: Option<(i32, u64)>,
    other: PeerId,
)
    requires
        accepted_of(l, g, p, claim).1 < u64::MAX,
    ensures
        ({
            let e = registered_of(l, g, key, gateway, p, username, claim);
            &&& e.response matches GatewayResponseView::Registered { proof: Some(cert), .. }
                && cert.seq == seq_of(e.lobby, e.ledger, p) && cert.seq > seq_of(l, g, p) && issued(
                (l, g),
                (e.lobby, e.ledger),
                p,
                cert,
            )
            &&& advances((l, g), (e.lobby, e.ledger), other)
            &&& agrees(l, g) && accepted_of(l, g, p, claim).1 < MAX_STORED ==> agrees(
                e.lobby,
                e.ledger,
            )
        }),
{
}

/// Rating two players moves nobody's number back: both are certified under
/// numbers of their own, and everybody else stays as they are.
proof fn lemma_both_rated(
    l: LobbyView,
    g: LedgerView,
    pa: PeerId,
    name_a: Seq<char>,
    after_a: i32,
    pb: PeerId,
    name_b: Seq<char>,
    after_b: i32,
    other: PeerId,
)
    requires
        seq_of(l, g, pa) + 2 <= MAX_STORED,
        seq_of(l, g, pb) + 2 <= MAX_STORED,
    ensures
        ({
            let e = both_rated(l, g, pa, name_a, after_a, pb, name_b, after_b);
            let seqs = both_seqs(l, g, pa, name_a, after_a, pb);
            &&& seqs.0 == seq_of(l, g, pa) + 1
            &&& seqs.1 == seq_of(l, g, pb) + (if pa == pb {
                2int
            } else {
                1
            })
            &&& seq_of(e.0, e.1, pb) == seqs.1
            &&& rating_of(e.0, e.1, pb) == after_b
            &&& pa != pb ==> seq_of(e.0, e.1, pa) == seqs.0 && rating_of(e.0, e.1, pa) == after_a
            &&& other != pa && other != pb ==> seq_of(e.0, e.1, other) == seq_of(l, g, other)
                && rating_of(e.0, e.1, other) == rating_of(l, g, other)
            &&& agrees(l, g) ==> agrees(e.0, e.1)
        }),
{
}

/// A report moves nobody's number back and leaves the lobby in agreement with
/// what is stored. Its certificate takes a number, or else it tells what the
/// reporter has, which the report leaves as it is.
pub proof fn reports_certify_in_order(
    l: LobbyView,
    g: LedgerView,
    key: SigningKey,
    gateway: PeerId,
    reporter: PeerId,
    opponent: PeerId,
    match_id: u64,
    mine: u32,
    theirs: u32,
    now: Seq<char>,
    other: PeerId,
)
    requires
        seq_of(l, g, reporter) + 2 <= MAX_STORED,
        seq_of(l, g, opponent) + 2 <= MAX_STORED,
    ensures
        ({
            let e = reported_of(
                l,
                g,
                key,
                gateway,
                reporter,
                opponent,
                match_id,
                mine,
                theirs,
                now,
            );
            &&& issued((l, g), (e.lobby, e.ledger), reporter, e.certificate) || restated(
                (e.lobby, e.ledger),
                reporter,
                e.certificate,
            ) && restated((l, g), reporter, e.certificate)
            &&& advances((l, g), (e.lobby, e.ledger), other)
            &&& agrees(l, g) ==> agrees(e.lobby, e.ledger)
        }),
{
    let canon = canon_of(reporter, opponent, mine, theirs);
    let res = resolve(l, g, canon, match_id);
    let l1 = opened(l, g, canon, res);
    if !(res is Counted) && !l1.open.contains_key(number_of(res)) {
        let after = after_of(l1, g, canon);
        let name_a = name_of(l1, g, canon.pa);
        let name_b = name_of(l1, g, canon.pb);
        lemma_both_rated(
            l1,
            g,
            canon.pa,
            name_a,
            after.0 as i32,
            canon.pb,
            name_b,
            after.1 as i32,
            other,
        );
        let l2 = both_rated(
            l1,
            g,
            canon.pa,
            name_a,
            after.0 as i32,
            canon.pb,
            name_b,
            after.1 as i32,
        );
        let e = reported_of(
            l,
            g,
            key,
            gateway,
            reporter,
            opponent,
            match_id,
            mine,
            theirs,
            now,
        );
        assert(e.lobby.players == l2.0.players);
        assert(e.ledger.players == l2.1.players);
    }
}

/// What moderators do moves nobody's number back, certifies both players in
/// order and under numbers of their own, and leaves the lobby in agreement with
/// what is stored.
pub proof fn moderation_certifies_in_order(
    l: LobbyView,
    g: LedgerView,
    key: SigningKey,
    gateway: PeerId,
    id: u64,
    a: PeerId,
    b: PeerId,
    score_a: u32,
    score_b: u32,
    now: Seq<char>,
    other: PeerId,
)
    requires
        seq_of(l, g, a) + 2 <= MAX_STORED,
        seq_of(l, g, b) + 2 <= MAX_STORED,
    ensures
        ({
            let e = revoked_of(l, g, key, gateway, id, a, b, now);
            &&& issued((l, g), (e.lobby, e.ledger), a, e.certificate_a)
            &&& issued((l, g), (e.lobby, e.ledger), b, e.certificate_b)
            &&& a == b ==> e.certificate_a.seq != e.certificate_b.seq
            &&& advances((l, g), (e.lobby, e.ledger), other)
            &&& agrees(l, g) ==> agrees(e.lobby, e.ledger)
        }),
        ({
            let e = edited_of(l, g, key, gateway, id, a, b, score_a, score_b, now);
            &&& issued((l, g), (e.lobby, e.ledger), a, e.certificate_a)
            &&& issued((l, g), (e.lobby, e.ledger), b, e.certificate_b)
            &&& a == b ==> e.certificate_a.seq != e.certificate_b.seq
            &&& advances((l, g), (e.lobby, e.ledger), other)
            &&& agrees(l, g) ==> agrees(e.lobby, e.ledger)
        }),
{
}

/// Who comes and goes changes nobody's rating or number, as long as the lobby
/// agrees with what is stored, and it goes on to agree.
pub proof fn coming_and_going_changes_nothing(
    l: LobbyView,
    g: LedgerView,
    p: PeerId,
    base: Seq<PartView>,
    other: PeerId,
)
    requires
        agrees(l, g),
    ensures
        ({
            let come = LobbyView {
                players: l.players.insert(p, connected_entry(l, g, p, base)),
                ..l
            };
            let told = LobbyView {
                players: l.players.insert(p, identified_entry(l, g, p, base)),
                ..l
            };
            let gone = lobby_without(l, p);
            &&& agrees(come, g) && agrees(told, g) && agrees(gone, g)
            &&& advances((l, g), (come, g), other) && advances((l, g), (told, g), other)
            &&& advances((l, g), (gone, g), other)
            &&& seq_of(come, g, other) == seq_of(l, g, other)
            &&& seq_of(told, g, other) == seq_of(l, g, other)
            &&& seq_of(gone, g, other) == seq_of(l, g, other)
        }),
{
}

proof fn lemma_advances(states: Seq<(LobbyView, LedgerView)>, p: PeerId, i: int, j: int)
    requires
        0 <= i <= j < states.len(),
        forall|k: int|
            0 <= k < states.len() - 1 ==> advances(#[trigger] states[k], states[k + 1], p),
    ensures
        advances(states[i], states[j], p),
    decreases j - i,
{
    if i < j {
        lemma_advances(states, p, i, j - 1);
        assert(advances(states[j - 1], states[j - 1 + 1], p));
    }
}

/// No two certificates of a player take the same number: of two steps that take
/// one, the later step takes a later one.
pub proof fn numbers_are_taken_once(
    states: Seq<(LobbyView, LedgerView)>,
    p: PeerId,
    i: int,
    j: int,
    cert: ProofView,
    later: ProofView,
)
    requires
        0 <= i < j < states.len() - 1,
        forall|k: int|
            0 <= k < states.len() - 1 ==> advances(#[trigger] states[k], states[k + 1], p),
        issued(states[i], states[i + 1], p, cert),
        issued(states[j], states[j + 1], p, later),
    ensures
        cert.seq < later.seq,
{
    lemma_advances(states, p, i + 1, j);
}

/// A certificate that tells what a player has is later than every certificate
/// that took a number before it, and any two of these with one number are of
/// one rating. (Its number is still to come: the next registration or rating
/// takes it.)
pub proof fn restated_certificates_are_the_latest(
    states: Seq<(LobbyView, LedgerView)>,
    key: SigningKey,
    gateway: PeerId,
    p: PeerId,
    i: int,
    j: int,
    cert: ProofView,
    rating: i32,
    later_rating: i32,
    seq: u64,
)
    requires
        0 <= i < j < states.len(),
        forall|k: int|
            0 <= k < states.len() - 1 ==> advances(#[trigger] states[k], states[k + 1], p),
        restated(states[j], p, proof_of(key, gateway, p, later_rating, seq)),
    ensures
        issued(states[i], states[i + 1], p, cert) ==> cert.seq < seq,
        restated(states[i], p, proof_of(key, gateway, p, rating, seq)) ==> rating == later_rating
            && proof_of(key, gateway, p, rating, seq) == proof_of(
            key,
            gateway,
            p,
            later_rating,
            seq,
        ),
{
    lemma_advances(states, p, i, j);
    lemma_advances(states, p, i + 1, j);
}

/// Registering with a certificate that tells what the player has gives them
/// the rating that they have.
pub proof fn restated_certificates_change_no_rating(
    l: LobbyView,
    g: LedgerView,
    key: SigningKey,
    gateway: PeerId,
    p: PeerId,
    username: Seq<char>,
    cert: ProofView,
)
    requires
        restated((l, g), p, cert),
        proof_holds(key, p, cert),
        cert.seq < u64::MAX,
    ensures
        ({
            let e = registered_of(
                l,
                g,
                key,
                gateway,
                p,
                username,
                claim_of(key, p, Some(cert)),
            );
            &&& rating_of(e.lobby, e.ledger, p) == rating_of(l, g, p)
            &&& seq_of(e.lobby, e.ledger, p) == cert.seq + 1
        }),
{
}

// ---------------------------------------------------------------------------
// What reports and moderators do
// ---------------------------------------------------------------------------

/// Whether a player has a rating and a number: what the lobby says of them, or
/// what is stored of one who is not there, or what a newcomer has.
pub open spec fn stands(l: LobbyView, g: LedgerView, p: PeerId, rating: int, seq: int) -> bool {
    if l.players.contains_key(p) {
        l.players[p].rating == rating && l.players[p].last_seq == seq
    } else if g.players.contains_key(p) {
        g.players[p].rating == rating && g.players[p].seq == seq
    } else {
        rating == 800 && seq == 0
    }
}

/// Whether what is stored of a player is this.
pub open spec fn is_stored(g: LedgerView, p: PeerId, rating: int, seq: int) -> bool {
    g.players.contains_key(p) && g.players[p].rating == rating && g.players[p].seq == seq
}

/// The rating and the number that a player has are the ones that everything
/// else goes by.
pub proof fn standings_are_what_counts(
    l: LobbyView,
    g: LedgerView,
    p: PeerId,
    rating: int,
    seq: int,
)
    requires
        stands(l, g, p, rating, seq),
    ensures
        rating_of(l, g, p) == rating,
        seq_of(l, g, p) == seq,
{
}

/// The name of a player is the one that they registered with; of one who has
/// not, the stored one, and of one who is not known none.
pub proof fn names_are_what_players_call_themselves(l: LobbyView, g: LedgerView, p: PeerId)
    ensures
        l.players.contains_key(p) ==> (l.players[p].username matches Some(name) ==> name_of(l, g, p)
            == name),
        !(l.players.contains_key(p) && l.players[p].username is Some) && g.players.contains_key(p)
            ==> name_of(l, g, p) == g.players[p].username,
        !(l.players.contains_key(p) && l.players[p].username is Some) && !g.players.contains_key(p)
            ==> name_of(l, g, p).len() == 0,
{
}

/// Whether points and result agree with what one player gained from another,
/// whose rating is `d` points higher: 32 points for a win, 16 for a draw and
/// none for a loss, less the nearest whole number to `32 / (1 + 10^(d / 400))`.
pub open spec fn gained(mine: int, theirs: int, d: int, gain: int) -> bool {
    &&& mine > theirs ==> rounds_expected(d, 32 - gain)
    &&& mine == theirs ==> rounds_expected(d, 16 - gain)
    &&& mine < theirs ==> rounds_expected(d, -gain)
}

/// Whether a row tells a match from the side of one of its players: the points,
/// the ratings before and after and who has reported it stand with the player
/// that they belong to.
pub open spec fn row_tells(
    row: MatchRowView,
    me: PeerId,
    other: PeerId,
    mine: u32,
    theirs: u32,
    my_before: int,
    their_before: int,
    my_after: int,
    their_after: int,
) -> bool {
    ||| {
        &&& row.player_a == base58(me) && row.player_b == base58(other)
        &&& row.score_a == mine && row.score_b == theirs
        &&& row.before_a == my_before && row.before_b == their_before
        &&& row.after_a == my_after && row.after_b == their_after
        &&& row.reported_a && !row.reported_b
    }
    ||| {
        &&& row.player_b == base58(me) && row.player_a == base58(other)
        &&& row.score_b == mine && row.score_a == theirs
        &&& row.before_b == my_before && row.before_a == their_before
        &&& row.after_b == my_after && row.after_a == their_after
        &&& row.reported_b && !row.reported_a
    }
}

/// Whether this is the next number for a match: the counter, or one more than
/// the highest number that is stored where the counter has not come that far.
pub open spec fn is_next_number(l: LobbyView, g: LedgerView, next: u64) -> bool {
    &&& 0 < next <= i64::MAX
    &&& g.matches.dom().finite()
    &&& l.next_id <= next
    &&& forall|id: u64| #[trigger] g.matches.contains_key(id) ==> id < next
    &&& next == l.next_id || next == 1 || g.matches.contains_key((next - 1) as u64)
}

/// New matches get the next number.
pub proof fn new_matches_get_the_next_number(l: LobbyView, g: LedgerView, next: u64)
    requires
        is_next_number(l, g, next),
    ensures
        fresh_id(l, g) == next,
{
    a_highest_match_exists(g.matches);
    let highest = max_id_of(g.matches);
    assert(highest < next);
    if next != l.next_id && next != 1 {
        assert(g.matches.contains_key((next - 1) as u64));
        assert(highest == next - 1);
    }
}

/// Whether nothing is known yet of a match between two players with this result.
pub open spec fn unheard_of(
    l: LobbyView,
    g: LedgerView,
    next: u64,
    match_id: u64,
    me: PeerId,
    other: PeerId,
    mine: u32,
    theirs: u32,
) -> bool {
    &&& is_next_number(l, g, next)
    &&& forall|id: u64| #[trigger] l.open.contains_key(id) ==> id < next
    &&& match_id != 0 ==> !l.open.contains_key(match_id) && !g.matches.contains_key(match_id)
    &&& forall|c: MatchCanon| #[trigger]
        l.by_canon.contains_key(c) ==> !(c.pa == me && c.pb == other && c.score_a == mine
            && c.score_b == theirs) && !(c.pa == other && c.pb == me && c.score_a == theirs
            && c.score_b == mine)
}

/// The first report of a match rates it: the reporter gains what the points
/// that they tell are worth and the other player loses as much, each under
/// their next number, in the lobby and in what is stored. The match is stored
/// under the number of its pairing, or the next one, as reported by this player
/// alone, and the reporter is told and certified the new rating.
pub proof fn first_reports_rate_the_match(
    l: LobbyView,
    g: LedgerView,
    key: SigningKey,
    gateway: PeerId,
    me: PeerId,
    other: PeerId,
    next: u64,
    match_id: u64,
    mine: u32,
    theirs: u32,
    now: Seq<char>,
    ra: int,
    sa: int,
    rb: int,
    sb: int,
)
    requires
        me != other,
        unheard_of(l, g, next, match_id, me, other, mine, theirs),
        stands(l, g, me, ra, sa),
        stands(l, g, other, rb, sb),
        sa + 1 <= i64::MAX,
        sb + 1 <= i64::MAX,
        i32::MIN + 32 <= ra <= i32::MAX - 32,
        i32::MIN + 32 <= rb <= i32::MAX - 32,
    ensures
        ({
            let e = reported_of(l, g, key, gateway, me, other, match_id, mine, theirs, now);
            let id = if 0 < match_id < next {
                match_id
            } else {
                next
            };
            let gain = e.rating - ra;
            let row = e.ledger.matches[id];
            &&& gained(mine as int, theirs as int, rb - ra, gain)
            &&& stands(e.lobby, e.ledger, me, ra + gain, sa + 1)
            &&& stands(e.lobby, e.ledger, other, rb - gain, sb + 1)
            &&& is_stored(e.ledger, me, ra + gain, sa + 1)
            &&& is_stored(e.ledger, other, rb - gain, sb + 1)
            &&& e.certificate == proof_of(key, gateway, me, e.rating, (sa + 1) as u64)
            &&& e.ledger.matches.dom() == g.matches.dom().insert(id)
            &&& row_tells(row, me, other, mine, theirs, ra, rb, ra + gain, rb - gain)
            &&& row.status is Pending
            &&& row.created_at == now
            &&& row.revoked_at is None && row.edited_at is None
            &&& e.lobby.open.contains_key(id)
            &&& e.lobby.next_id > id
            &&& e.lobby.next_id >= l.next_id
        }),
{
    standings_are_what_counts(l, g, me, ra, sa);
    standings_are_what_counts(l, g, other, rb, sb);
    both_sides_agree(me, other, mine, theirs);
    results_follow_the_points(mine as int, theirs as int);
    points_move_by_the_formula(ra, rb, mine as int, theirs as int);
    elo_is_symmetric(ra, rb, outcome_of(mine as int, theirs as int));
    new_matches_get_the_next_number(l, g, next);
    let canon = canon_of(me, other, mine, theirs);
    let res = resolve(l, g, canon, match_id);
    let id = if 0 < match_id < next {
        match_id
    } else {
        next
    };
    assert(!l.by_canon.contains_key(canon));
    assert(res == Resolution::New(id));
    assert(!l.open.contains_key(id));
    assert(!g.matches.contains_key(id));
    let l1 = opened(l, g, canon, res);
    let first = reporter_first(me, other);
    let e = first_reported(l1, g, key, gateway, me, canon, first, id, now);
    assert(e == reported_of(l, g, key, gateway, me, other, match_id, mine, theirs, now));
    let after = elo_of(ra, rb, outcome_of(mine as int, theirs as int));
    if first {
        assert(after_of(l1, g, canon) == after);
    } else {
        assert(after_of(l1, g, canon) == (after.1, after.0));
    }
    assert(e.ledger.matches.dom() =~= g.matches.dom().insert(id));
}

/// Rating two players leaves names and ways to the gateway, and everybody else,
/// as they are.
proof fn lemma_rated_alone(
    l: LobbyView,
    g: LedgerView,
    pa: PeerId,
    name_a: Seq<char>,
    after_a: i32,
    pb: PeerId,
    name_b: Seq<char>,
    after_b: i32,
    p: PeerId,
)
    ensures
        ({
            let e = both_rated(l, g, pa, name_a, after_a, pb, name_b, after_b);
            &&& e.0.queue == l.queue
            &&& e.0.players.dom() == l.players.dom()
            &&& e.0.players[p].username == l.players[p].username
            &&& e.0.players[p].base_addresses == l.players[p].base_addresses
            &&& p != pa && p != pb ==> e.0.players[p] == l.players[p]
            &&& p != pa && p != pb ==> e.1.players.contains_key(p) == g.players.contains_key(p)
            &&& p != pa && p != pb ==> e.1.players[p] == g.players[p]
            &&& e.1.matches == g.matches
        }),
{
    let e = both_rated(l, g, pa, name_a, after_a, pb, name_b, after_b);
    assert(e.0.players.dom() =~= l.players.dom());
}

/// Who plays keeps name and ways to the gateway, and nobody else is touched:
/// not in the lobby, not in what is stored, not in the queue, and no other
/// match.
pub proof fn reports_touch_nothing_else(
    l: LobbyView,
    g: LedgerView,
    key: SigningKey,
    gateway: PeerId,
    me: PeerId,
    other: PeerId,
    match_id: u64,
    mine: u32,
    theirs: u32,
    now: Seq<char>,
    p: PeerId,
    id: u64,
)
    requires
        g.matches.dom().finite(),
        forall|k: u64| #[trigger] g.matches.dom().contains(k) ==> k <= MAX_STORED,
        g.matches.contains_key(id),
        id != match_id,
        forall|c: MatchCanon| #[trigger] l.by_canon.contains_key(c) ==> l.by_canon[c] != id,
    ensures
        ({
            let e = reported_of(l, g, key, gateway, me, other, match_id, mine, theirs, now);
            &&& e.lobby.queue == l.queue
            &&& e.lobby.players.dom() == l.players.dom()
            &&& e.lobby.players[p].username == l.players[p].username
            &&& e.lobby.players[p].base_addresses == l.players[p].base_addresses
            &&& p != me && p != other ==> e.lobby.players[p] == l.players[p]
            &&& p != me && p != other ==> e.ledger.players.contains_key(p)
                == g.players.contains_key(p)
            &&& p != me && p != other ==> e.ledger.players[p] == g.players[p]
            &&& e.ledger.matches.contains_key(id)
            &&& e.ledger.matches[id] == g.matches[id]
        }),
{
    let canon = canon_of(me, other, mine, theirs);
    let res = resolve(l, g, canon, match_id);
    let l1 = opened(l, g, canon, res);
    let number = number_of(res);
    match_numbers_are_fresh(l, g);
    let e = reported_of(l, g, key, gateway, me, other, match_id, mine, theirs, now);
    if !(res is Counted) && !l1.open.contains_key(number) {
        let after = after_of(l1, g, canon);
        let name_a = name_of(l1, g, canon.pa);
        let name_b = name_of(l1, g, canon.pb);
        let rated = both_rated(
            l1,
            g,
            canon.pa,
            name_a,
            after.0 as i32,
            canon.pb,
            name_b,
            after.1 as i32,
        );
        lemma_rated_alone(
            l1,
            g,
            canon.pa,
            name_a,
            after.0 as i32,
            canon.pb,
            name_b,
            after.1 as i32,
            p,
        );
        assert(e.lobby.players == rated.0.players);
        assert(e.lobby.queue == rated.0.queue);
        assert(e.ledger.players == rated.1.players);
        assert(l1.players == l.players);
    } else {
        assert(e.lobby.players == l.players);
        assert(e.ledger.players == g.players);
        assert(e.lobby.queue == l.queue);
        assert(!(res is Counted) ==> number != id);
    }
}

/// A pending match that was stored by an earlier run is confirmed by the other
/// player's report: it then counts as played, and no rating moves.
pub proof fn matches_survive_a_restart(
    l: LobbyView,
    g: LedgerView,
    key: SigningKey,
    gateway: PeerId,
    me: PeerId,
    other: PeerId,
    match_id: u64,
    mine: u32,
    theirs: u32,
    now: Seq<char>,
)
    requires
        match_id != 0,
        !l.open.contains_key(match_id),
        g.matches.contains_key(match_id),
        g.matches[match_id].status is Pending,
        reporter_first(me, other) ==> !g.matches[match_id].reported_a
            && g.matches[match_id].reported_b,
        !reporter_first(me, other) ==> g.matches[match_id].reported_a
            && !g.matches[match_id].reported_b,
    ensures
        ({
            let e = reported_of(l, g, key, gateway, me, other, match_id, mine, theirs, now);
            &&& e.ledger.matches[match_id] == (MatchRowView {
                status: MatchStatus::Played,
                reported_a: true,
                reported_b: true,
                ..g.matches[match_id]
            })
            &&& e.lobby.players == l.players
            &&& e.ledger.players == g.players
            &&& !e.lobby.open.contains_key(match_id)
        }),
{
}

/// An answer that moves nothing tells the reporter the rating that they have,
/// and certifies it under the number to come.
pub proof fn unmoved_players_are_told_their_rating(
    l: LobbyView,
    g: LedgerView,
    key: SigningKey,
    gateway: PeerId,
    me: PeerId,
    rating: int,
    seq: int,
)
    requires
        stands(l, g, me, rating, seq),
        seq < u64::MAX,
    ensures
        ({
            let e = unmoved(l, g, key, gateway, me);
            &&& e.lobby == l
            &&& e.ledger == g
            &&& e.rating == rating
            &&& e.certificate == proof_of(key, gateway, me, rating as i32, (seq + 1) as u64)
        }),
{
}

/// Whether a moderator's action has left everything alone but a match and its
/// two players, whose names and ways to the gateway stay.
pub open spec fn touches_only(
    l: LobbyView,
    g: LedgerView,
    l2: LobbyView,
    g2: LedgerView,
    id: u64,
    a: PeerId,
    b: PeerId,
    p: PeerId,
    other_id: u64,
) -> bool {
    &&& l2.queue == l.queue
    &&& l2.next_id == l.next_id
    &&& l2.players.dom() == l.players.dom()
    &&& l2.players[p].username == l.players[p].username
    &&& l2.players[p].base_addresses == l.players[p].base_addresses
    &&& p != a && p != b ==> l2.players[p] == l.players[p]
    &&& p != a && p != b ==> g2.players.contains_key(p) == g.players.contains_key(p)
    &&& p != a && p != b ==> g2.players[p] == g.players[p]
    &&& g2.matches.dom() == g.matches.dom()
    &&& other_id != id ==> g2.matches[other_id] == g.matches[other_id]
    &&& !l2.open.contains_key(id)
    &&& other_id != id ==> l2.open.contains_key(other_id) == l.open.contains_key(other_id)
    &&& other_id != id ==> l2.open[other_id] == l.open[other_id]
}

/// Taking a match back gives both players the rating from before it, under
/// their next numbers, told and certified, in the lobby and in what is stored.
/// Of the match only this changes, that it was taken back and when.
pub proof fn revoking_takes_one_match_back(
    l: LobbyView,
    g: LedgerView,
    key: SigningKey,
    gateway: PeerId,
    id: u64,
    a: PeerId,
    b: PeerId,
    now: Seq<char>,
    ra: int,
    sa: int,
    rb: int,
    sb: int,
    p: PeerId,
    other_id: u64,
)
    requires
        a != b,
        g.matches.contains_key(id),
        stands(l, g, a, ra, sa),
        stands(l, g, b, rb, sb),
        sa + 1 <= i64::MAX,
        sb + 1 <= i64::MAX,
    ensures
        ({
            let row = g.matches[id];
            let e = revoked_of(l, g, key, gateway, id, a, b, now);
            &&& stands(e.lobby, e.ledger, a, row.before_a as int, sa + 1)
            &&& stands(e.lobby, e.ledger, b, row.before_b as int, sb + 1)
            &&& is_stored(e.ledger, a, row.before_a as int, sa + 1)
            &&& is_stored(e.ledger, b, row.before_b as int, sb + 1)
            &&& e.rating_a == row.before_a && e.rating_b == row.before_b
            &&& e.certificate_a == proof_of(key, gateway, a, row.before_a, (sa + 1) as u64)
            &&& e.certificate_b == proof_of(key, gateway, b, row.before_b, (sb + 1) as u64)
            &&& e.ledger.matches[id].status is Revoked
            &&& e.ledger.matches[id].revoked_at == Some(now)
            &&& e.ledger.matches[id] == (MatchRowView {
                status: e.ledger.matches[id].status,
                revoked_at: e.ledger.matches[id].revoked_at,
                ..row
            })
            &&& touches_only(l, g, e.lobby, e.ledger, id, a, b, p, other_id)
        }),
{
    let e = revoked_of(l, g, key, gateway, id, a, b, now);
    assert(e.lobby.players.dom() =~= l.players.dom());
    assert(e.ledger.matches.dom() =~= g.matches.dom());
}

/// Correcting a score gives both players what the points entered are worth from
/// their ratings before the match, under their next numbers, told and
/// certified, in the lobby and in what is stored. Of the match the points, the
/// ratings after it and the time of the correction change.
pub proof fn correcting_rates_from_before_the_match(
    l: LobbyView,
    g: LedgerView,
    key: SigningKey,
    gateway: PeerId,
    id: u64,
    a: PeerId,
    b: PeerId,
    score_a: u32,
    score_b: u32,
    now: Seq<char>,
    ra: int,
    sa: int,
    rb: int,
    sb: int,
    p: PeerId,
    other_id: u64,
)
    requires
        a != b,
        g.matches.contains_key(id),
        stands(l, g, a, ra, sa),
        stands(l, g, b, rb, sb),
        sa + 1 <= i64::MAX,
        sb + 1 <= i64::MAX,
        i32::MIN + 32 <= g.matches[id].before_a <= i32::MAX - 32,
        i32::MIN + 32 <= g.matches[id].before_b <= i32::MAX - 32,
    ensures
        ({
            let row = g.matches[id];
            let e = edited_of(l, g, key, gateway, id, a, b, score_a, score_b, now);
            let gain = e.rating_a - row.before_a;
            let after = e.ledger.matches[id];
            &&& gained(score_a as int, score_b as int, row.before_b - row.before_a, gain)
            &&& e.rating_b == row.before_b - gain
            &&& stands(e.lobby, e.ledger, a, e.rating_a as int, sa + 1)
            &&& stands(e.lobby, e.ledger, b, e.rating_b as int, sb + 1)
            &&& is_stored(e.ledger, a, e.rating_a as int, sa + 1)
            &&& is_stored(e.ledger, b, e.rating_b as int, sb + 1)
            &&& e.certificate_a == proof_of(key, gateway, a, e.rating_a, (sa + 1) as u64)
            &&& e.certificate_b == proof_of(key, gateway, b, e.rating_b, (sb + 1) as u64)
            &&& after.score_a == score_a && after.score_b == score_b
            &&& after.after_a == e.rating_a && after.after_b == e.rating_b
            &&& after.edited_at == Some(now)
            &&& after == (MatchRowView {
                score_a: after.score_a,
                score_b: after.score_b,
                after_a: after.after_a,
                after_b: after.after_b,
                edited_at: after.edited_at,
                ..row
            })
            &&& touches_only(l, g, e.lobby, e.ledger, id, a, b, p, other_id)
        }),
{
    let row = g.matches[id];
    let e = edited_of(l, g, key, gateway, id, a, b, score_a, score_b, now);
    results_follow_the_points(score_a as int, score_b as int);
    points_move_by_the_formula(
        row.before_a as int,
        row.before_b as int,
        score_a as int,
        score_b as int,
    );
    assert(e.lobby.players.dom() =~= l.players.dom());
    assert(e.ledger.matches.dom() =~= g.matches.dom());
}

/// A match can be moderated exactly if it is stored, was not taken back, and
/// both of its players are known by their identities; a score can be corrected
/// to 25 points a side at most.
pub proof fn only_standing_matches_are_moderated(
    g: LedgerView,
    id: u64,
    score_a: u32,
    score_b: u32,
)
    ensures
        refusal(g, id) is None <==> id <= i64::MAX && g.matches.contains_key(id) && !(
        g.matches[id].status is Revoked) && parsed_peer(g.matches[id].player_a) is Some
            && parsed_peer(g.matches[id].player_b) is Some,
        edit_refusal(g, id, score_a, score_b) is None <==> score_a <= 25 && score_b <= 25
            && refusal(g, id) is None,
{
}

/// Only the two players of a match are told that it was taken back, each who is
/// here once, with their own rating and certificate.
pub proof fn revocations_are_told_to_the_players(a: PeerId, b: PeerId, id: u64, e: Moderated)
    requires
        a != b,
    ensures
        ({
            let told = revoked_pushes(a, b, id, e);
            let here_a = e.lobby.players.contains_key(a);
            let here_b = e.lobby.players.contains_key(b);
            &&& told.len() == (if here_a {
                1int
            } else {
                0
            }) + (if here_b {
                1int
            } else {
                0
            })
            &&& here_a ==> told[0] == (
                a,
                GatewayRequestView::MatchRevoked {
                    match_id: id,
                    rating: e.rating_a,
                    proof: Some(e.certificate_a),
                },
            )
            &&& here_b ==> told[told.len() - 1] == (
                b,
                GatewayRequestView::MatchRevoked {
                    match_id: id,
                    rating: e.rating_b,
                    proof: Some(e.certificate_b),
                },
            )
        }),
{
}

/// Only the two players of a match are told that its score was corrected, each
/// who is here once, with their own points first and their own rating and
/// certificate.
pub proof fn corrections_are_told_to_the_players(
    a: PeerId,
    b: PeerId,
    id: u64,
    score_a: u32,
    score_b: u32,
    e: Moderated,
)
    requires
        a != b,
    ensures
        ({
            let told = corrected_pushes(a, b, id, score_a, score_b, e);
            let here_a = e.lobby.players.contains_key(a);
            let here_b = e.lobby.players.contains_key(b);
            &&& told.len() == (if here_a {
                1int
            } else {
                0
            }) + (if here_b {
                1int
            } else {
                0
            })
            &&& here_a ==> told[0] == (
                a,
                GatewayRequestView::MatchCorrected {
                    match_id: id,
                    my_score: score_a,
                    opponent_score: score_b,
                    rating: e.rating_a,
                    proof: Some(e.certificate_a),
                },
            )
            &&& here_b ==> told[told.len() - 1] == (
                b,
                GatewayRequestView::MatchCorrected {
                    match_id: id,
                    my_score: score_b,
                    opponent_score: score_a,
                    rating: e.rating_b,
                    proof: Some(e.certificate_b),
                },
            )
        }),
{
}

/// A command of the moderation page does what it says to the match that it
/// names and to the players stored with it, or else it is refused and nothing
/// changes and nobody is told. Listing changes nothing.
pub proof fn commands_do_what_they_say(
    l: LobbyView,
    g: LedgerView,
    key: SigningKey,
    gateway: PeerId,
    id: u64,
    score_a: u32,
    score_b: u32,
    now: Seq<char>,
    a: PeerId,
    b: PeerId,
)
    requires
        parsed_peer(g.matches[id].player_a) == Some(a),
        parsed_peer(g.matches[id].player_b) == Some(b),
        a != b,
        seq_of(l, g, a) < u64::MAX,
        seq_of(l, g, b) < u64::MAX,
        gap_fits(g.matches[id]),
    ensures
        ({
            let list = http_effect(l, g, key, gateway, HttpCmd::List, now);
            let take = http_effect(l, g, key, gateway, HttpCmd::Revoke { id }, now);
            let edit = http_effect(l, g, key, gateway, HttpCmd::Edit { id, score_a, score_b }, now);
            let e = revoked_of(l, g, key, gateway, id, a, b, now);
            let f = edited_of(l, g, key, gateway, id, a, b, score_a, score_b, now);
            &&& list is Some && take is Some && edit is Some
            &&& list->0.lobby == l && list->0.ledger == g && list->0.pushes.len() == 0
            &&& list->0.result is Ok
            &&& refusal(g, id) is None ==> take->0.lobby == e.lobby && take->0.ledger == e.ledger
                && take->0.result is Ok && take->0.pushes == revoked_pushes(a, b, id, e)
            &&& refusal(g, id) matches Some(why) ==> take->0.lobby == l && take->0.ledger == g
                && take->0.result == Err::<Seq<char>, Seq<char>>(why) && take->0.pushes.len() == 0
            &&& edit_refusal(g, id, score_a, score_b) is None ==> edit->0.lobby == f.lobby
                && edit->0.ledger == f.ledger && edit->0.result is Ok && edit->0.pushes
                == corrected_pushes(a, b, id, score_a, score_b, f)
            &&& edit_refusal(g, id, score_a, score_b) matches Some(why) ==> edit->0.lobby == l
                && edit->0.ledger == g && edit->0.result == Err::<Seq<char>, Seq<char>>(why)
                && edit->0.pushes.len() == 0
        }),
{
}

/// With a match that is reported for the first time both players are stored
/// under the names that they have, and the match with the name of either beside
/// their points. The match stays open with what is stored of it, for the other
/// player to report.
pub proof fn first_reports_name_the_players(
    l: LobbyView,
    g: LedgerView,
    key: SigningKey,
    gateway: PeerId,
    me: PeerId,
    other: PeerId,
    next: u64,
    match_id: u64,
    mine: u32,
    theirs: u32,
    now: Seq<char>,
)
    requires
        me != other,
        unheard_of(l, g, next, match_id, me, other, mine, theirs),
        seq_of(l, g, me) + 1 <= i64::MAX,
        seq_of(l, g, other) + 1 <= i64::MAX,
    ensures
        ({
            let e = reported_of(l, g, key, gateway, me, other, match_id, mine, theirs, now);
            let id = if 0 < match_id < next {
                match_id
            } else {
                next
            };
            let row = e.ledger.matches[id];
            let kept = e.lobby.open[id];
            &&& e.ledger.players[me].username == name_of(l, g, me)
            &&& e.ledger.players[other].username == name_of(l, g, other)
            &&& row.reported_a ==> row.username_a == name_of(l, g, me) && row.username_b == name_of(
                l,
                g,
                other,
            ) && kept.canon.pa == me && kept.canon.pb == other
            &&& row.reported_b ==> row.username_b == name_of(l, g, me) && row.username_a == name_of(
                l,
                g,
                other,
            ) && kept.canon.pb == me && kept.canon.pa == other
            &&& row.reported_a <==> !row.reported_b
            &&& kept.canon.score_a == row.score_a && kept.canon.score_b == row.score_b
            &&& kept.username_a == row.username_a && kept.username_b == row.username_b
            &&& kept.before_a == row.before_a && kept.before_b == row.before_b
            &&& kept.after_a == row.after_a && kept.after_b == row.after_b
            &&& kept.reported_a == row.reported_a && kept.reported_b == row.reported_b
            &&& e.lobby.by_canon.contains_key(kept.canon) && e.lobby.by_canon[kept.canon] == id
        }),
{
    new_matches_get_the_next_number(l, g, next);
    peer_order_is_total(me, other);
    let canon = canon_of(me, other, mine, theirs);
    let res = resolve(l, g, canon, match_id);
    let id = if 0 < match_id < next {
        match_id
    } else {
        next
    };
    assert(!l.by_canon.contains_key(canon));
    assert(res == Resolution::New(id));
    assert(!l.open.contains_key(id));
    assert(!g.matches.contains_key(id));
    let l1 = opened(l, g, canon, res);
    assert(l1.players == l.players);
}

} // verus!
