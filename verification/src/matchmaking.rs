//! Pairing the players who wait.
//!
//! The queue is sorted by rating; neighbours whose ratings are close enough
//! are paired, leave the queue, and are told of each other.
use vstd::prelude::*;

use crate::addr::{
    addr_text, addr_views, base_of, circuit_addresses, circuit_texts, routes_lead_to_the_target,
    Multiaddr, PartView,
};
use crate::gateway::{leave_queue, lemma_without_peer, without_peer};
use crate::ledger::Ledger;
use crate::lobby::{
    alloc_match_id, copy_addresses, fresh_id, queue_ok, Lobby, LobbyView, START_RATING,
};
use crate::moderation::push_views;
use crate::peer::{base58, PeerId};
use crate::protocol::{GatewayRequest, GatewayRequestView};

verus! {

/// Players whose ratings differ by more than this are not paired.
pub const MAX_ELO_GAP: i32 = 600;

/// The rating that a player is paired by.
pub open spec fn queue_rating(l: LobbyView, p: PeerId) -> int {
    if l.players.contains_key(p) {
        l.players[p].rating as int
    } else {
        START_RATING as int
    }
}

/// A sorted queue with one more player, behind all of the same rating.
pub open spec fn insert_by_rating(l: LobbyView, s: Seq<PeerId>, p: PeerId) -> Seq<PeerId>
    decreases s.len(),
{
    if s.len() == 0 || queue_rating(l, s.last()) <= queue_rating(l, p) {
        s.push(p)
    } else {
        insert_by_rating(l, s.drop_last(), p).push(s.last())
    }
}

/// The queue sorted by rating; players of the same rating keep their order.
pub open spec fn sort_by_rating(l: LobbyView, q: Seq<PeerId>) -> Seq<PeerId>
    decreases q.len(),
{
    if q.len() == 0 {
        q
    } else {
        insert_by_rating(l, sort_by_rating(l, q.drop_last()), q.last())
    }
}

/// Whether two players are close enough.
pub open spec fn close_enough(l: LobbyView, a: PeerId, b: PeerId) -> bool {
    -MAX_ELO_GAP <= queue_rating(l, a) - queue_rating(l, b) <= MAX_ELO_GAP
}

/// The pairs of neighbours from index `i` on, each player in one at most.
pub open spec fn pairs_from(l: LobbyView, s: Seq<PeerId>, i: int) -> Seq<(PeerId, PeerId)>
    decreases s.len() - i,
{
    if i < 0 || i + 1 >= s.len() {
        Seq::empty()
    } else if close_enough(l, s[i], s[i + 1]) {
        seq![(s[i], s[i + 1])] + pairs_from(l, s, i + 2)
    } else {
        pairs_from(l, s, i + 1)
    }
}

/// The addresses of the gateway as a player sees it.
pub open spec fn bases_of(l: LobbyView, p: PeerId, default_base: Seq<PartView>) -> Seq<
    Seq<PartView>,
> {
    if l.players.contains_key(p) {
        l.players[p].base_addresses
    } else {
        seq![default_base]
    }
}

/// What a player is told of the opponent.
pub open spec fn found(
    l: LobbyView,
    relay: PeerId,
    default_base: Seq<PartView>,
    id: u64,
    p: PeerId,
    opponent: PeerId,
) -> (PeerId, GatewayRequestView) {
    (
        p,
        GatewayRequestView::MatchFound {
            match_id: id,
            opponent: base58(opponent),
            addresses: circuit_texts(bases_of(l, p, default_base), relay, opponent),
        },
    )
}

/// What the players of the first `n` pairs are told; the match numbers count
/// up from `id`.
pub open spec fn announcements(
    l: LobbyView,
    relay: PeerId,
    default_base: Seq<PartView>,
    id: u64,
    pairs: Seq<(PeerId, PeerId)>,
    n: nat,
) -> Seq<(PeerId, GatewayRequestView)>
    decreases n,
{
    if n == 0 {
        Seq::empty()
    } else {
        let (a, b) = pairs[n - 1];
        let number = (id + n - 1) as u64;
        announcements(l, relay, default_base, id, pairs, (n - 1) as nat).push(
            found(l, relay, default_base, number, a, b),
        ).push(found(l, relay, default_base, number, b, a))
    }
}

/// The queue without the players of the first `n` pairs.
pub open spec fn without_pairs(q: Seq<PeerId>, pairs: Seq<(PeerId, PeerId)>, n: nat) -> Seq<PeerId>
    decreases n,
{
    if n == 0 {
        q
    } else {
        let (a, b) = pairs[n - 1];
        without_peer(without_peer(without_pairs(q, pairs, (n - 1) as nat), a), b)
    }
}

/// The pairs that are made.
pub open spec fn pairs_of(l: LobbyView) -> Seq<(PeerId, PeerId)> {
    if l.queue.len() < 2 {
        Seq::empty()
    } else {
        pairs_from(l, sort_by_rating(l, l.queue), 0)
    }
}

/// The lobby after one round of pairing, given the next match number.
pub open spec fn paired_lobby(l: LobbyView, id: u64) -> LobbyView {
    let pairs = pairs_of(l);
    if l.queue.len() < 2 {
        l
    } else {
        LobbyView {
            queue: without_pairs(sort_by_rating(l, l.queue), pairs, pairs.len()),
            next_id: if pairs.len() == 0 {
                l.next_id
            } else {
                (id + pairs.len()) as u64
            },
            ..l
        }
    }
}

// ---------------------------------------------------------------------------
// Facts about sorting and pairing
// ---------------------------------------------------------------------------

proof fn lemma_insert(l: LobbyView, s: Seq<PeerId>, p: PeerId)
    requires
        forall|i: int, j: int|
            0 <= i <= j < s.len() ==> queue_rating(l, s[i]) <= queue_rating(l, s[j]),
    ensures
        insert_by_rating(l, s, p).len() == s.len() + 1,
        insert_by_rating(l, s, p).to_multiset() == s.to_multiset().insert(p),
        forall|i: int, j: int|
            0 <= i <= j < insert_by_rating(l, s, p).len() ==> queue_rating(
                l,
                insert_by_rating(l, s, p)[i],
            ) <= queue_rating(l, insert_by_rating(l, s, p)[j]),
        forall|x: PeerId| #[trigger]
            insert_by_rating(l, s, p).contains(x) ==> x == p || s.contains(x),
    decreases s.len(),
{
    broadcast use vstd::seq_lib::group_to_multiset_ensures;

    let r = insert_by_rating(l, s, p);
    if s.len() == 0 || queue_rating(l, s.last()) <= queue_rating(l, p) {
        assert forall|x: PeerId| r.contains(x) implies x == p || s.contains(x) by {
            let i = r.index_of(x);
            if i < s.len() {
                assert(s[i] == x);
            }
        }
    } else {
        let t = s.drop_last();
        let w = insert_by_rating(l, t, p);
        lemma_insert(l, t, p);
        assert(s =~= t.push(s.last()));
        assert(r.to_multiset() =~= s.to_multiset().insert(p));
        assert forall|i: int, j: int| 0 <= i <= j < r.len() implies queue_rating(l, r[i])
            <= queue_rating(l, r[j]) by {
            if j == w.len() && i < j {
                assert(w.contains(w[i]));
                if w[i] != p {
                    let k = t.index_of(w[i]);
                    assert(s[k] == w[i]);
                    assert(queue_rating(l, s[k]) <= queue_rating(l, s[s.len() - 1]));
                }
            }
        }
        assert forall|x: PeerId| r.contains(x) implies x == p || s.contains(x) by {
            let i = r.index_of(x);
            if i < w.len() {
                assert(w.contains(w[i]));
                if x != p {
                    let k = t.index_of(x);
                    assert(s[k] == x);
                }
            } else {
                assert(s[s.len() - 1] == x);
            }
        }
    }
}

/// Sorting keeps the players and brings them into the order of their ratings.
pub proof fn sorting_sorts(l: LobbyView, q: Seq<PeerId>)
    ensures
        sort_by_rating(l, q).len() == q.len(),
        sort_by_rating(l, q).to_multiset() == q.to_multiset(),
        forall|i: int, j: int|
            0 <= i <= j < q.len() ==> queue_rating(l, sort_by_rating(l, q)[i]) <= queue_rating(
                l,
                sort_by_rating(l, q)[j],
            ),
    decreases q.len(),
{
    broadcast use vstd::seq_lib::group_to_multiset_ensures;

    if q.len() > 0 {
        sorting_sorts(l, q.drop_last());
        lemma_insert(l, sort_by_rating(l, q.drop_last()), q.last());
        assert(q =~= q.drop_last().push(q.last()));
    }
}

proof fn lemma_sorted_contains(l: LobbyView, q: Seq<PeerId>)
    requires
        queue_ok(q),
    ensures
        queue_ok(sort_by_rating(l, q)),
        forall|x: PeerId| #[trigger] sort_by_rating(l, q).contains(x) <==> q.contains(x),
{
    broadcast use vstd::seq_lib::group_to_multiset_ensures;

    let s = sort_by_rating(l, q);
    sorting_sorts(l, q);
    q.lemma_multiset_has_no_duplicates();
    assert(s.to_multiset() == q.to_multiset());
    s.lemma_multiset_has_no_duplicates_conv();
    assert forall|x: PeerId| #[trigger] s.contains(x) <==> q.contains(x) by {
        assert(s.contains(x) <==> s.to_multiset().count(x) > 0);
        assert(q.contains(x) <==> q.to_multiset().count(x) > 0);
    }
    assert forall|i: int| 0 <= i < s.len() implies (#[trigger] s[i]).wf() by {
        assert(s.contains(s[i]));
        let k = q.index_of(s[i]);
        assert(q[k].wf());
    }
}

/// Where the pairs from index `i` on come from.
proof fn lemma_pairs(l: LobbyView, s: Seq<PeerId>, i: int)
    requires
        0 <= i,
    ensures
        2 * pairs_from(l, s, i).len() <= if i < s.len() { s.len() - i } else { 0 },
        forall|k: int|
            0 <= k < pairs_from(l, s, i).len() ==> #[trigger] pair_beyond(
                l,
                s,
                pairs_from(l, s, i)[k],
                i,
            ),
    decreases s.len() - i,
{
    if i + 1 < s.len() {
        let p = pairs_from(l, s, i);
        if close_enough(l, s[i], s[i + 1]) {
            let rest = pairs_from(l, s, i + 2);
            lemma_pairs(l, s, i + 2);
            assert forall|k: int| 0 <= k < p.len() implies #[trigger] pair_beyond(
                l,
                s,
                p[k],
                i,
            ) by {
                if k == 0 {
                    assert(pair_at(l, s, p[0], i));
                } else {
                    assert(p[k] == rest[k - 1]);
                    assert(pair_beyond(l, s, rest[k - 1], i + 2));
                    let n = choose|n: int| #[trigger]
                        pair_at(l, s, rest[k - 1], n) && i + 2 <= n;
                    assert(pair_at(l, s, p[k], n));
                }
            }
        } else {
            lemma_pairs(l, s, i + 1);
            assert forall|k: int| 0 <= k < p.len() implies #[trigger] pair_beyond(
                l,
                s,
                p[k],
                i,
            ) by {
                assert(pair_beyond(l, s, pairs_from(l, s, i + 1)[k], i + 1));
                let n = choose|n: int| #[trigger] pair_at(l, s, p[k], n) && i + 1 <= n;
                assert(pair_at(l, s, p[k], n));
            }
        }
    }
}

/// Whether a pair stands at index `n` of the sorted queue.
pub open spec fn pair_at(l: LobbyView, s: Seq<PeerId>, pair: (PeerId, PeerId), n: int) -> bool {
    &&& 0 <= n
    &&& n + 1 < s.len()
    &&& pair.0 == s[n]
    &&& pair.1 == s[n + 1]
    &&& close_enough(l, s[n], s[n + 1])
}

/// Whether a pair stands at index `from` of the sorted queue or behind.
pub open spec fn pair_beyond(
    l: LobbyView,
    s: Seq<PeerId>,
    pair: (PeerId, PeerId),
    from: int,
) -> bool {
    exists|n: int| #[trigger] pair_at(l, s, pair, n) && from <= n
}

/// Every pair is of two different players who waited and whose ratings are
/// close enough.
pub proof fn pairs_are_close(l: LobbyView, k: int)
    requires
        queue_ok(l.queue),
        0 <= k < pairs_of(l).len(),
    ensures
        l.queue.contains(pairs_of(l)[k].0),
        l.queue.contains(pairs_of(l)[k].1),
        pairs_of(l)[k].0 != pairs_of(l)[k].1,
        close_enough(l, pairs_of(l)[k].0, pairs_of(l)[k].1),
{
    let s = sort_by_rating(l, l.queue);
    lemma_sorted_contains(l, l.queue);
    lemma_pairs(l, s, 0);
    assert(pair_beyond(l, s, pairs_from(l, s, 0)[k], 0));
    let n = choose|n: int| #[trigger] pair_at(l, s, pairs_of(l)[k], n) && 0 <= n;
    assert(s.contains(s[n]) && s.contains(s[n + 1]));
}

/// Whether a player is in none of the first `n` pairs.
pub open spec fn unpaired(pairs: Seq<(PeerId, PeerId)>, n: nat, x: PeerId) -> bool {
    forall|k: int| 0 <= k < n ==> x != (#[trigger] pairs[k]).0 && x != pairs[k].1
}

proof fn lemma_without_pairs(q: Seq<PeerId>, pairs: Seq<(PeerId, PeerId)>, n: nat)
    requires
        n <= pairs.len(),
    ensures
        queue_ok(q) ==> queue_ok(without_pairs(q, pairs, n)),
        forall|k: int|
            0 <= k < n ==> !without_pairs(q, pairs, n).contains((#[trigger] pairs[k]).0)
                && !without_pairs(q, pairs, n).contains(pairs[k].1),
        forall|x: PeerId| #[trigger]
            unpaired(pairs, n, x) ==> (without_pairs(q, pairs, n).contains(x) <==> q.contains(x)),
        without_pairs(q, pairs, n).len() <= q.len(),
    decreases n,
{
    if n > 0 {
        let m = (n - 1) as nat;
        let w = without_pairs(q, pairs, m);
        let (a, b) = pairs[n - 1];
        lemma_without_pairs(q, pairs, m);
        lemma_without_peer(w, a);
        lemma_without_peer(without_peer(w, a), b);
        let r = without_pairs(q, pairs, n);
        assert(r == without_peer(without_peer(w, a), b));
        assert forall|x: PeerId| r.contains(x) implies w.contains(x) && x != a && x != b by {
            if x != b {
                assert(without_peer(w, a).contains(x));
            }
        }
        assert forall|x: PeerId| w.contains(x) && x != a && x != b implies r.contains(x) by {
            assert(without_peer(w, a).contains(x));
        }
        assert forall|k: int| 0 <= k < n implies !r.contains((#[trigger] pairs[k]).0)
            && !r.contains(pairs[k].1) by {
            if k < m {
                assert(!w.contains(pairs[k].0) && !w.contains(pairs[k].1));
            }
        }
        assert forall|x: PeerId| #[trigger] unpaired(pairs, n, x) implies (r.contains(x)
            <==> q.contains(x)) by {
            assert(x != pairs[n - 1].0 && x != pairs[n - 1].1);
            assert(unpaired(pairs, m, x));
            assert(w.contains(x) <==> q.contains(x));
        }
    }
}

/// After a round of pairing, whoever was paired waits no more, and whoever was
/// not still does.
pub proof fn paired_players_leave(l: LobbyView, id: u64, x: PeerId)
    requires
        queue_ok(l.queue),
    ensures
        paired_lobby(l, id).queue.contains(x) <==> l.queue.contains(x) && unpaired(
            pairs_of(l),
            pairs_of(l).len(),
            x,
        ),
        queue_ok(paired_lobby(l, id).queue),
{
    let s = sort_by_rating(l, l.queue);
    let pairs = pairs_of(l);
    lemma_sorted_contains(l, l.queue);
    lemma_without_pairs(s, pairs, pairs.len());
    if l.queue.len() >= 2 && !unpaired(pairs, pairs.len(), x) {
        let k = choose|k: int|
            0 <= k < pairs.len() && !(x != (#[trigger] pairs[k]).0 && x != pairs[k].1);
        assert(!without_pairs(s, pairs, pairs.len()).contains(pairs[k].0));
    }
}

/// No player is in two pairs.
pub proof fn pairs_are_disjoint(l: LobbyView, i: int, j: int)
    requires
        queue_ok(l.queue),
        0 <= i < j < pairs_of(l).len(),
    ensures
        pairs_of(l)[i].0 != pairs_of(l)[j].0,
        pairs_of(l)[i].0 != pairs_of(l)[j].1,
        pairs_of(l)[i].1 != pairs_of(l)[j].0,
        pairs_of(l)[i].1 != pairs_of(l)[j].1,
{
    let s = sort_by_rating(l, l.queue);
    lemma_sorted_contains(l, l.queue);
    lemma_pairs_order(l, s, 0, i, j);
}

proof fn lemma_pairs_order(l: LobbyView, s: Seq<PeerId>, from: int, i: int, j: int)
    requires
        s.no_duplicates(),
        0 <= from,
        0 <= i < j < pairs_from(l, s, from).len(),
    ensures
        pairs_from(l, s, from)[i].0 != pairs_from(l, s, from)[j].0,
        pairs_from(l, s, from)[i].0 != pairs_from(l, s, from)[j].1,
        pairs_from(l, s, from)[i].1 != pairs_from(l, s, from)[j].0,
        pairs_from(l, s, from)[i].1 != pairs_from(l, s, from)[j].1,
    decreases s.len() - from,
{
    let p = pairs_from(l, s, from);
    assert(from + 1 < s.len());
    if close_enough(l, s[from], s[from + 1]) {
        let rest = pairs_from(l, s, from + 2);
        assert(p[j] == rest[j - 1]);
        if i == 0 {
            lemma_pairs(l, s, from + 2);
            assert(pair_beyond(l, s, rest[j - 1], from + 2));
            let n = choose|n: int| #[trigger] pair_at(l, s, rest[j - 1], n) && from + 2 <= n;
            assert(s[n] != s[from] && s[n + 1] != s[from]);
            assert(s[n] != s[from + 1] && s[n + 1] != s[from + 1]);
        } else {
            assert(p[i] == rest[i - 1]);
            lemma_pairs_order(l, s, from + 2, i - 1, j - 1);
        }
    } else {
        lemma_pairs_order(l, s, from + 1, i, j);
    }
}

// ---------------------------------------------------------------------------
// Code
// ---------------------------------------------------------------------------

fn rating_in_queue(lobby: &Lobby, p: &PeerId) -> (r: i32)
    requires
        lobby.wf(),
    ensures
        r == queue_rating(lobby@, *p),
{
    match lobby.players.get(p) {
        Some(e) => e.rating,
        None => START_RATING,
    }
}

/// Inserts a player into a sorted queue.
fn insert_sorted(lobby: &Lobby, s: &mut Vec<PeerId>, p: PeerId)
    requires
        lobby.wf(),
    ensures
        final(s)@ == insert_by_rating(lobby@, old(s)@, p),
{
    let mut i: usize = s.len();
    let rating: i32 = rating_in_queue(lobby, &p);
    assert(s@.take(i as int) =~= s@);
    assert(insert_by_rating(lobby@, s@.take(i as int), p) + s@.skip(i as int) =~= insert_by_rating(
        lobby@,
        s@,
        p,
    ));
    while i > 0 && rating_in_queue(lobby, &s[i - 1]) > rating
        invariant
            0 <= i <= s.len(),
            lobby.wf(),
            s@ == old(s)@,
            rating == queue_rating(lobby@, p),
            insert_by_rating(lobby@, s@.take(i as int), p) + s@.skip(i as int)
                == insert_by_rating(lobby@, s@, p),
        decreases i,
    {
        let ghost t = s@.take(i as int);
        assert(t.last() == s@[i - 1]);
        assert(t.drop_last() =~= s@.take(i - 1));
        assert(insert_by_rating(lobby@, t.drop_last(), p).push(t.last()) + s@.skip(i as int)
            =~= insert_by_rating(lobby@, t.drop_last(), p) + s@.skip(i - 1));
        i -= 1;
    }
    assert(i > 0 ==> s@.take(i as int).last() == s@[i - 1]);
    assert(s@.insert(i as int, p) =~= s@.take(i as int).push(p) + s@.skip(i as int));
    s.insert(i, p);
}

fn sorted_queue(lobby: &Lobby) -> (r: Vec<PeerId>)
    requires
        lobby.wf(),
    ensures
        r@ == sort_by_rating(lobby@, lobby@.queue),
{
    let mut out: Vec<PeerId> = Vec::new();
    let mut i: usize = 0;
    assert(lobby.queue@.take(0) =~= Seq::empty());
    while i < lobby.queue.len()
        invariant
            0 <= i <= lobby.queue.len(),
            lobby.wf(),
            out@ == sort_by_rating(lobby@, lobby.queue@.take(i as int)),
        decreases lobby.queue.len() - i,
    {
        assert(lobby.queue@.take(i + 1).drop_last() =~= lobby.queue@.take(i as int));
        insert_sorted(lobby, &mut out, lobby.queue[i]);
        i += 1;
    }
    assert(lobby.queue@.take(lobby.queue@.len() as int) =~= lobby.queue@);
    out
}

fn find_pairs(lobby: &Lobby, s: &Vec<PeerId>) -> (r: Vec<(PeerId, PeerId)>)
    requires
        lobby.wf(),
    ensures
        r@ == pairs_from(lobby@, s@, 0),
{
    let mut out: Vec<(PeerId, PeerId)> = Vec::new();
    let mut i: usize = 0;
    assert(out@ + pairs_from(lobby@, s@, 0) =~= pairs_from(lobby@, s@, 0));
    while i < s.len() && s.len() - i > 1
        invariant
            0 <= i <= s.len(),
            lobby.wf(),
            out@ + pairs_from(lobby@, s@, i as int) == pairs_from(lobby@, s@, 0),
        decreases s.len() - i,
    {
        let a = s[i];
        let b = s[i + 1];
        let gap: i64 = rating_in_queue(lobby, &a) as i64 - rating_in_queue(lobby, &b) as i64;
        let ghost before = out@;
        if gap >= -(MAX_ELO_GAP as i64) && gap <= MAX_ELO_GAP as i64 {
            out.push((a, b));
            assert(before.push((a, b)) + pairs_from(lobby@, s@, i + 2) =~= before + (seq![(a, b)]
                + pairs_from(lobby@, s@, i + 2)));
            i += 2;
        } else {
            i += 1;
        }
    }
    assert(out@ + pairs_from(lobby@, s@, i as int) =~= out@);
    out
}

fn known_bases(lobby: &Lobby, p: &PeerId, default_base: &Multiaddr) -> (r: Vec<Multiaddr>)
    requires
        lobby.wf(),
    ensures
        addr_views(r@) == bases_of(lobby@, *p, default_base@),
{
    match lobby.players.get(p) {
        Some(e) => copy_addresses(&e.base_addresses),
        None => {
            let mut v: Vec<Multiaddr> = Vec::new();
            v.push(default_base.copied());
            assert(addr_views(v@) =~= seq![default_base@]);
            v
        },
    }
}

fn match_found(
    lobby: &Lobby,
    relay_peer: &PeerId,
    default_base: &Multiaddr,
    id: u64,
    p: &PeerId,
    opponent: &PeerId,
) -> (r: (PeerId, GatewayRequest))
    requires
        lobby.wf(),
        relay_peer.wf(),
        opponent.wf(),
    ensures
        (r.0, r.1@) == found(lobby@, *relay_peer, default_base@, id, *p, *opponent),
{
    let bases = known_bases(lobby, p, default_base);
    let addresses = circuit_addresses(&bases, relay_peer, opponent);
    (*p, GatewayRequest::MatchFound { match_id: id, opponent: opponent.to_base58(), addresses })
}

/// Pairs the players who wait and returns what they are told: the opponent,
/// the relayed ways to the opponent and the number of the match.
pub fn run_matchmaking(
    lobby: &mut Lobby,
    ledger: &Ledger,
    relay_peer: &PeerId,
    default_base: &Multiaddr,
) -> (r: Vec<(PeerId, GatewayRequest)>)
    requires
        old(lobby).wf(),
        ledger.wf(),
        relay_peer.wf(),
        fresh_id(old(lobby)@, ledger@) + old(lobby)@.queue.len() <= u64::MAX,
    ensures
        final(lobby).wf(),
        ({
            let l = old(lobby)@;
            let id = fresh_id(l, ledger@);
            let pairs = pairs_of(l);
            &&& final(lobby)@ == paired_lobby(l, id)
            &&& push_views(r@) == announcements(
                l,
                *relay_peer,
                default_base@,
                id,
                pairs,
                pairs.len(),
            )
        }),
{
    let mut out: Vec<(PeerId, GatewayRequest)> = Vec::new();
    assert(push_views(out@) =~= Seq::empty());
    if lobby.queue.len() < 2 {
        return out;
    }
    let ghost l = lobby@;
    let ghost id0 = fresh_id(l, ledger@);
    let sorted = sorted_queue(lobby);
    let pairs = find_pairs(lobby, &sorted);
    let ghost s = sorted@;
    proof {
        lemma_sorted_contains(l, l.queue);
        sorting_sorts(l, l.queue);
        lemma_pairs(l, s, 0);
    }
    lobby.queue = sorted;
    let mut i: usize = 0;
    while i < pairs.len()
        invariant
            0 <= i <= pairs.len(),
            lobby.wf(),
            ledger.wf(),
            relay_peer.wf(),
            queue_ok(s),
            pairs@ == pairs_from(l, s, 0),
            forall|k: int|
                0 <= k < pairs@.len() ==> #[trigger] pair_beyond(l, s, pairs@[k], 0),
            id0 == fresh_id(l, ledger@),
            id0 + pairs@.len() <= u64::MAX,
            lobby@ == (LobbyView {
                queue: without_pairs(s, pairs@, i as nat),
                next_id: if i == 0 {
                    l.next_id
                } else {
                    (id0 + i) as u64
                },
                ..l
            }),
            push_views(out@) == announcements(
                l,
                *relay_peer,
                default_base@,
                id0,
                pairs@,
                i as nat,
            ),
        decreases pairs.len() - i,
    {
        let (a, b) = pairs[i];
        proof {
            assert(pair_beyond(l, s, pairs@[i as int], 0));
            let n = choose|n: int| #[trigger] pair_at(l, s, pairs@[i as int], n) && 0 <= n;
            assert(s[n].wf() && s[n + 1].wf());
        }
        leave_queue(lobby, &a);
        leave_queue(lobby, &b);
        let id: u64 = alloc_match_id(lobby, ledger);
        assert(id == id0 + i);
        let to_a = match_found(lobby, relay_peer, default_base, id, &a, &b);
        let to_b = match_found(lobby, relay_peer, default_base, id, &b, &a);
        let ghost before = push_views(out@);
        out.push(to_a);
        out.push(to_b);
        assert(push_views(out@) =~= before.push((to_a.0, to_a.1@)).push((to_b.0, to_b.1@)));
        i += 1;
    }
    out
}

// ---------------------------------------------------------------------------
// Laws
// ---------------------------------------------------------------------------

/// Whether a message tells a player of an opponent: the number of the match,
/// the opponent's identity, and for every address that the player knows the
/// gateway by a way through it that leads to the opponent.
pub open spec fn tells_of(
    message: GatewayRequestView,
    relay: PeerId,
    bases: Seq<Seq<PartView>>,
    number: int,
    opponent: PeerId,
) -> bool {
    message matches GatewayRequestView::MatchFound { match_id, opponent: name, addresses }
        && match_id == number && name == base58(opponent) && addresses.len() == bases.len()
        && forall|i: int|
        0 <= i < bases.len() ==> #[trigger] addresses[i] == addr_text(base_of(bases[i])) + (
        "/p2p/"@ + base58(relay)) + "/p2p-circuit"@ + ("/p2p/"@ + base58(opponent))
}

proof fn lemma_announced(
    l: LobbyView,
    relay: PeerId,
    default_base: Seq<PartView>,
    id: u64,
    pairs: Seq<(PeerId, PeerId)>,
    n: nat,
    k: int,
)
    requires
        0 <= k < n <= pairs.len(),
    ensures
        ({
            let told = announcements(l, relay, default_base, id, pairs, n);
            let number = (id + k) as u64;
            &&& told.len() == 2 * n
            &&& told[2 * k] == found(l, relay, default_base, number, pairs[k].0, pairs[k].1)
            &&& told[2 * k + 1] == found(l, relay, default_base, number, pairs[k].1, pairs[k].0)
        }),
    decreases n,
{
    if n > 1 {
        lemma_announced(l, relay, default_base, id, pairs, (n - 1) as nat, if k < n - 1 {
            k
        } else {
            0
        });
    } else {
        assert(announcements(l, relay, default_base, id, pairs, 0) =~= Seq::empty());
    }
}

/// Both players of a pair are told of each other, once each and under one
/// number: nobody is told of themselves, and every way that they are given
/// leads to the other player. Each pair has a number of its own, counted from
/// the first. Nobody else is told anything.
pub proof fn pairs_are_told_of_each_other(
    l: LobbyView,
    relay: PeerId,
    default_base: Seq<PartView>,
    id: u64,
    k: int,
)
    requires
        queue_ok(l.queue),
        0 <= k < pairs_of(l).len(),
        id + pairs_of(l).len() <= u64::MAX,
    ensures
        ({
            let pairs = pairs_of(l);
            let (a, b) = pairs[k];
            let told = announcements(l, relay, default_base, id, pairs, pairs.len());
            &&& a != b
            &&& told.len() == 2 * pairs.len()
            &&& told[2 * k].0 == a
            &&& told[2 * k + 1].0 == b
            &&& l.players.contains_key(a) ==> tells_of(
                told[2 * k].1,
                relay,
                l.players[a].base_addresses,
                id + k,
                b,
            )
            &&& !l.players.contains_key(a) ==> tells_of(
                told[2 * k].1,
                relay,
                seq![default_base],
                id + k,
                b,
            )
            &&& l.players.contains_key(b) ==> tells_of(
                told[2 * k + 1].1,
                relay,
                l.players[b].base_addresses,
                id + k,
                a,
            )
            &&& !l.players.contains_key(b) ==> tells_of(
                told[2 * k + 1].1,
                relay,
                seq![default_base],
                id + k,
                a,
            )
            &&& forall|j: int|
                0 <= j < told.len() && j != 2 * k ==> (#[trigger] told[j]).0 != a
            &&& forall|j: int|
                0 <= j < told.len() && j != 2 * k + 1 ==> (#[trigger] told[j]).0 != b
        }),
{
    let pairs = pairs_of(l);
    let (a, b) = pairs[k];
    let told = announcements(l, relay, default_base, id, pairs, pairs.len());
    lemma_announced(l, relay, default_base, id, pairs, pairs.len(), k);
    pairs_are_close(l, k);
    assert forall|x: PeerId, y: PeerId, i: int|
        0 <= i < bases_of(l, x, default_base).len() implies #[trigger] circuit_texts(
        bases_of(l, x, default_base),
        relay,
        y,
    )[i] == addr_text(base_of(bases_of(l, x, default_base)[i])) + ("/p2p/"@ + base58(relay))
        + "/p2p-circuit"@ + ("/p2p/"@ + base58(y)) by {
        routes_lead_to_the_target(bases_of(l, x, default_base), relay, y, i);
    }
    assert forall|j: int| 0 <= j < told.len() implies (j != 2 * k ==> (#[trigger] told[j]).0 != a)
        && (j != 2 * k + 1 ==> told[j].0 != b) by {
        let m = j / 2;
        lemma_announced(l, relay, default_base, id, pairs, pairs.len(), m);
        assert(j == 2 * m || j == 2 * m + 1);
        if m < k {
            pairs_are_disjoint(l, m, k);
        } else if m > k {
            pairs_are_disjoint(l, k, m);
        }
    }
}

/// The rating of somebody who waits: that of the lobby, or that of a newcomer.
pub open spec fn waiting_rating(l: LobbyView, p: PeerId) -> int {
    if l.players.contains_key(p) {
        l.players[p].rating as int
    } else {
        800
    }
}

/// The two of a pair are not more than 600 points apart, the weaker one is
/// named first, and nobody who waits has a rating between theirs.
pub proof fn pairs_are_neighbours(l: LobbyView, k: int, x: PeerId)
    requires
        queue_ok(l.queue),
        0 <= k < pairs_of(l).len(),
        l.queue.contains(x),
    ensures
        ({
            let (a, b) = pairs_of(l)[k];
            &&& 0 <= waiting_rating(l, b) - waiting_rating(l, a) <= 600
            &&& !(waiting_rating(l, a) < waiting_rating(l, x) < waiting_rating(l, b))
        }),
{
    let s = sort_by_rating(l, l.queue);
    sorting_sorts(l, l.queue);
    lemma_sorted_contains(l, l.queue);
    lemma_pairs(l, s, 0);
    assert(pair_beyond(l, s, pairs_from(l, s, 0)[k], 0));
    let n = choose|n: int| #[trigger] pair_at(l, s, pairs_of(l)[k], n) && 0 <= n;
    assert(s.contains(x));
    let j = choose|j: int| 0 <= j < s.len() && s[j] == x;
    assert(queue_rating(l, s[n]) <= queue_rating(l, s[n + 1]));
    if j <= n {
        assert(queue_rating(l, s[j]) <= queue_rating(l, s[n]));
    } else {
        assert(queue_rating(l, s[n + 1]) <= queue_rating(l, s[j]));
    }
}

/// Whether a pair has either of two players.
pub open spec fn touches(pair: (PeerId, PeerId), x: PeerId, y: PeerId) -> bool {
    pair.0 == x || pair.0 == y || pair.1 == x || pair.1 == y
}

proof fn lemma_nobody_is_left_out(l: LobbyView, s: Seq<PeerId>, from: int, n: int)
    requires
        0 <= from <= n,
        n + 1 < s.len(),
        close_enough(l, s[n], s[n + 1]),
    ensures
        exists|k: int|
            0 <= k < pairs_from(l, s, from).len() && #[trigger] touches(
                pairs_from(l, s, from)[k],
                s[n],
                s[n + 1],
            ),
    decreases s.len() - from,
{
    let p = pairs_from(l, s, from);
    if close_enough(l, s[from], s[from + 1]) {
        let rest = pairs_from(l, s, from + 2);
        assert(p =~= seq![(s[from], s[from + 1])] + rest);
        if n <= from + 1 {
            assert(touches(p[0], s[n], s[n + 1]));
        } else {
            lemma_nobody_is_left_out(l, s, from + 2, n);
            let k = choose|k: int|
                0 <= k < rest.len() && #[trigger] touches(rest[k], s[n], s[n + 1]);
            assert(p[k + 1] == rest[k]);
            assert(touches(p[k + 1], s[n], s[n + 1]));
        }
    } else {
        lemma_nobody_is_left_out(l, s, from + 1, n);
    }
}

/// Nobody waits for nothing: of two players who are not more than 600 points
/// apart, with nobody else who waits between them or level with either, one at
/// least is paired.
pub proof fn close_players_do_not_both_wait(l: LobbyView, id: u64, x: PeerId, y: PeerId)
    requires
        queue_ok(l.queue),
        l.queue.contains(x),
        l.queue.contains(y),
        x != y,
        0 <= waiting_rating(l, y) - waiting_rating(l, x) <= 600,
        forall|z: PeerId|
            l.queue.contains(z) && z != x && z != y ==> #[trigger] waiting_rating(l, z)
                < waiting_rating(l, x) || waiting_rating(l, z) > waiting_rating(l, y),
    ensures
        !(paired_lobby(l, id).queue.contains(x) && paired_lobby(l, id).queue.contains(y)),
{
    let s = sort_by_rating(l, l.queue);
    sorting_sorts(l, l.queue);
    lemma_sorted_contains(l, l.queue);
    assert(s.contains(x) && s.contains(y));
    let i = choose|i: int| 0 <= i < s.len() && s[i] == x;
    let j = choose|j: int| 0 <= j < s.len() && s[j] == y;
    let lo = if i < j {
        i
    } else {
        j
    };
    let hi = if i < j {
        j
    } else {
        i
    };
    if lo + 1 < hi {
        let z = s[lo + 1];
        assert(s.contains(z));
        assert(l.queue.contains(z));
        assert(z != x && z != y);
        assert(queue_rating(l, s[lo]) <= queue_rating(l, z) <= queue_rating(l, s[hi]));
        assert(waiting_rating(l, z) == queue_rating(l, z));
    }
    assert(hi == lo + 1);
    if l.queue.len() < 2 {
        assert(s.len() == l.queue.len());
    }
    lemma_nobody_is_left_out(l, s, 0, lo);
    let p = pairs_of(l);
    assert(p == pairs_from(l, s, 0));
    let k = choose|k: int| 0 <= k < p.len() && #[trigger] touches(p[k], s[lo], s[lo + 1]);
    paired_players_leave(l, id, x);
    paired_players_leave(l, id, y);
    assert(touches(p[k], s[lo], s[lo + 1]));
}

/// A round takes one match number for every pair, and changes nothing of the
/// lobby but the queue and the next number.
pub proof fn rounds_number_their_pairs(l: LobbyView, id: u64)
    requires
        id + pairs_of(l).len() <= u64::MAX,
    ensures
        ({
            let after = paired_lobby(l, id);
            &&& pairs_of(l).len() > 0 ==> after.next_id == id + pairs_of(l).len()
            &&& pairs_of(l).len() == 0 ==> after.next_id == l.next_id
            &&& after.players == l.players
            &&& after.open == l.open
            &&& after.by_canon == l.by_canon
        }),
{
}

/// Whether a player who waits has a rating.
pub open spec fn level_with(l: LobbyView, rating: int) -> spec_fn(PeerId) -> bool {
    |x: PeerId| waiting_rating(l, x) == rating
}

proof fn lemma_filter_push(s: Seq<PeerId>, p: PeerId, f: spec_fn(PeerId) -> bool)
    ensures
        s.push(p).filter(f) == if f(p) {
            s.filter(f).push(p)
        } else {
            s.filter(f)
        },
{
    reveal(Seq::filter);
    assert(s.push(p).drop_last() =~= s);
}

proof fn lemma_insert_level(l: LobbyView, s: Seq<PeerId>, p: PeerId, rating: int)
    ensures
        insert_by_rating(l, s, p).filter(level_with(l, rating)) == s.push(p).filter(
            level_with(l, rating),
        ),
    decreases s.len(),
{
    let level = level_with(l, rating);
    if s.len() > 0 && queue_rating(l, s.last()) > queue_rating(l, p) {
        let t = s.drop_last();
        lemma_insert_level(l, t, p, rating);
        assert(s =~= t.push(s.last()));
        lemma_filter_push(insert_by_rating(l, t, p), s.last(), level);
        lemma_filter_push(t, p, level);
        lemma_filter_push(t, s.last(), level);
        lemma_filter_push(s, p, level);
    }
}

/// Who came first stays first among players of one rating.
pub proof fn equals_keep_their_order(l: LobbyView, q: Seq<PeerId>, rating: int)
    ensures
        sort_by_rating(l, q).filter(level_with(l, rating)) == q.filter(level_with(l, rating)),
    decreases q.len(),
{
    let level = level_with(l, rating);
    if q.len() > 0 {
        let t = q.drop_last();
        equals_keep_their_order(l, t, rating);
        let s = sort_by_rating(l, t);
        lemma_insert_level(l, s, q.last(), rating);
        lemma_filter_push(s, q.last(), level);
        lemma_filter_push(t, q.last(), level);
        assert(q =~= t.push(q.last()));
    }
}

} // verus!
