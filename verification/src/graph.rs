//! The network of players that is shown while searching: who is in it, and
//! where each bubble starts.
use vstd::prelude::*;

use crate::client::has_peer;
use crate::peer::{same_peer, PeerId};

verus! {

/// How many players are shown at once.
pub const MAX_NODES: usize = 12;

/// The bytes hashed one after the other (FNV-1a, 32 bits).
pub open spec fn fnv_of(bytes: Seq<u8>) -> u32
    decreases bytes.len(),
{
    if bytes.len() == 0 {
        2166136261
    } else {
        (((fnv_of(bytes.drop_last()) ^ (bytes.last() as u32)) * 16777619) % 0x1_0000_0000) as u32
    }
}

/// A number that belongs to a player, the same in every session.
pub fn peer_hash(peer: &PeerId) -> (r: u32)
    requires
        peer.wf(),
    ensures
        r == fnv_of(peer.bytes()),
{
    let bytes = peer.to_bytes();
    let mut acc: u32 = 2166136261;
    let mut i: usize = 0;
    assert(bytes@.take(0) =~= Seq::empty());
    while i < bytes.len()
        invariant
            0 <= i <= bytes.len(),
            acc == fnv_of(bytes@.take(i as int)),
        decreases bytes.len() - i,
    {
        let mixed: u32 = acc ^ (bytes[i] as u32);
        let wide: u64 = mixed as u64 * 16777619;
        assert(bytes@.take(i + 1).drop_last() =~= bytes@.take(i as int));
        assert(bytes@.take(i + 1).last() == bytes@[i as int]);
        acc = (wide % 0x1_0000_0000) as u32;
        i += 1;
    }
    assert(bytes@.take(bytes@.len() as int) =~= bytes@);
    acc
}

/// Where a bubble starts, in hundredths of a radian.
pub fn initial_angle(peer: &PeerId) -> (r: u32)
    requires
        peer.wf(),
    ensures
        r == fnv_of(peer.bytes()) % 628,
{
    peer_hash(peer) % 628
}

/// How fast a bubble is, in hundredths of the way from the lowest speed to
/// the highest.
pub fn orbit_speed(peer: &PeerId) -> (r: u32)
    requires
        peer.wf(),
    ensures
        r == fnv_of(peer.bytes()) % 100,
{
    peer_hash(peer) % 100
}

/// The first `n` players in the list who are not the gateway.
pub open spec fn wanted_of(peers: Seq<PeerId>, gateway: Option<PeerId>, n: nat) -> Seq<PeerId>
    decreases peers.len(),
{
    if peers.len() == 0 || n == 0 {
        Seq::empty()
    } else if gateway == Some(peers[0]) {
        wanted_of(peers.skip(1), gateway, n)
    } else {
        seq![peers[0]] + wanted_of(peers.skip(1), gateway, (n - 1) as nat)
    }
}

/// The players to show.
pub fn wanted_nodes(peers: &Vec<PeerId>, gateway: &Option<PeerId>) -> (r: Vec<PeerId>)
    ensures
        r@ == wanted_of(peers@, *gateway, MAX_NODES as nat),
{
    let mut out: Vec<PeerId> = Vec::new();
    let mut i: usize = 0;
    let ghost all = wanted_of(peers@, *gateway, MAX_NODES as nat);
    assert(peers@.skip(0) =~= peers@);
    assert(out@ + wanted_of(peers@, *gateway, MAX_NODES as nat) =~= all);
    while i < peers.len() && out.len() < MAX_NODES
        invariant
            0 <= i <= peers.len(),
            out@.len() <= MAX_NODES,
            out@ + wanted_of(peers@.skip(i as int), *gateway, (MAX_NODES - out@.len()) as nat)
                == all,
        decreases peers.len() - i,
    {
        let ghost before = out@;
        let ghost rest = peers@.skip(i as int);
        assert(rest[0] == peers@[i as int]);
        assert(rest.skip(1) =~= peers@.skip(i + 1));
        let p = peers[i];
        if !same_peer(gateway, &Some(p)) {
            out.push(p);
            let ghost tail = wanted_of(rest.skip(1), *gateway, (MAX_NODES - out@.len()) as nat);
            assert(before.push(p) + tail =~= before + (seq![p] + tail));
        }
        i += 1;
    }
    assert(wanted_of(peers@.skip(i as int), *gateway, (MAX_NODES - out@.len()) as nat)
        =~= Seq::empty());
    assert(out@ =~= all);
    out
}

/// The members of `a` that are not in `b`, in order.
pub open spec fn missing_from(a: Seq<PeerId>, b: Seq<PeerId>) -> Seq<PeerId>
    decreases a.len(),
{
    if a.len() == 0 {
        a
    } else if b.contains(a.last()) {
        missing_from(a.drop_last(), b)
    } else {
        missing_from(a.drop_last(), b).push(a.last())
    }
}

fn difference(a: &Vec<PeerId>, b: &Vec<PeerId>) -> (r: Vec<PeerId>)
    ensures
        r@ == missing_from(a@, b@),
{
    let mut out: Vec<PeerId> = Vec::new();
    let mut i: usize = 0;
    assert(a@.take(0) =~= Seq::empty());
    while i < a.len()
        invariant
            0 <= i <= a.len(),
            out@ == missing_from(a@.take(i as int), b@),
        decreases a.len() - i,
    {
        assert(a@.take(i + 1).drop_last() =~= a@.take(i as int));
        if !has_peer(b, &a[i]) {
            out.push(a[i]);
        }
        i += 1;
    }
    assert(a@.take(a@.len() as int) =~= a@);
    out
}

/// What changes in the network: who goes and who comes.
pub struct GraphChange {
    pub remove: Vec<PeerId>,
    pub add: Vec<PeerId>,
}

/// Brings the network up to date. It is shown only while searching.
pub fn update_node_graph(
    search: bool,
    shown: &Vec<PeerId>,
    peers: &Vec<PeerId>,
    gateway: &Option<PeerId>,
) -> (r: GraphChange)
    ensures
        ({
            let wanted = if search {
                wanted_of(peers@, *gateway, MAX_NODES as nat)
            } else {
                Seq::empty()
            };
            &&& r.remove@ == missing_from(shown@, wanted)
            &&& r.add@ == missing_from(wanted, shown@)
        }),
{
    let wanted = if search {
        wanted_nodes(peers, gateway)
    } else {
        Vec::new()
    };
    assert(!search ==> wanted@ =~= Seq::empty());
    GraphChange { remove: difference(shown, &wanted), add: difference(&wanted, shown) }
}

proof fn lemma_missing(a: Seq<PeerId>, b: Seq<PeerId>, x: PeerId)
    ensures
        missing_from(a, b).contains(x) <==> a.contains(x) && !b.contains(x),
    decreases a.len(),
{
    if a.len() > 0 {
        let t = a.drop_last();
        lemma_missing(t, b, x);
        assert(a.contains(x) <==> t.contains(x) || x == a.last()) by {
            if t.contains(x) {
                let i = t.index_of(x);
                assert(a[i] == x);
            }
            if a.contains(x) {
                let i = a.index_of(x);
                if i < t.len() {
                    assert(t[i] == x);
                }
            }
            assert(a[a.len() - 1] == a.last());
        }
        if !b.contains(a.last()) {
            let m = missing_from(t, b);
            let r = m.push(a.last());
            assert(r.contains(x) <==> m.contains(x) || x == a.last()) by {
                if m.contains(x) {
                    let i = m.index_of(x);
                    assert(r[i] == x);
                }
                if r.contains(x) {
                    let i = r.index_of(x);
                    if i < m.len() {
                        assert(m[i] == x);
                    }
                }
                assert(r[m.len() as int] == a.last());
            }
        }
    }
}

/// After a change exactly the wanted players are shown: whoever was shown and
/// is not removed, or is added, is wanted, and nobody else.
pub proof fn changes_show_the_wanted(shown: Seq<PeerId>, wanted: Seq<PeerId>, x: PeerId)
    ensures
        wanted.contains(x) <==> (shown.contains(x) && !missing_from(shown, wanted).contains(x))
            || missing_from(wanted, shown).contains(x),
{
    lemma_missing(shown, wanted, x);
    lemma_missing(wanted, shown, x);
}

proof fn lemma_wanted_len(peers: Seq<PeerId>, gateway: Option<PeerId>, n: nat)
    ensures
        wanted_of(peers, gateway, n).len() <= n,
    decreases peers.len(),
{
    if peers.len() > 0 && n > 0 {
        if gateway == Some(peers[0]) {
            lemma_wanted_len(peers.skip(1), gateway, n);
        } else {
            lemma_wanted_len(peers.skip(1), gateway, (n - 1) as nat);
        }
    }
}

/// Never more than [`MAX_NODES`] players are shown.
pub proof fn graphs_stay_small(peers: Seq<PeerId>, gateway: Option<PeerId>)
    ensures
        wanted_of(peers, gateway, MAX_NODES as nat).len() <= MAX_NODES,
{
    lemma_wanted_len(peers, gateway, MAX_NODES as nat);
}

/// Whether a player is not the gateway.
pub open spec fn is_no_gateway(gateway: Option<PeerId>) -> spec_fn(PeerId) -> bool {
    |x: PeerId| gateway != Some(x)
}

proof fn lemma_filter_front(s: Seq<PeerId>, f: spec_fn(PeerId) -> bool)
    requires
        s.len() > 0,
    ensures
        s.filter(f) == (if f(s[0]) {
            seq![s[0]]
        } else {
            Seq::empty()
        }) + s.skip(1).filter(f),
    decreases s.len(),
{
    reveal(Seq::filter);
    let head = if f(s[0]) {
        seq![s[0]]
    } else {
        Seq::empty()
    };
    if s.len() == 1 {
        assert(s.drop_last() =~= Seq::empty());
        assert(s.skip(1) =~= Seq::empty());
        assert(s.drop_last().filter(f) =~= Seq::empty());
        assert(s.filter(f) =~= head + s.skip(1).filter(f));
    } else {
        lemma_filter_front(s.drop_last(), f);
        assert(s.drop_last().skip(1) =~= s.skip(1).drop_last());
        assert(s.filter(f) =~= head + s.skip(1).filter(f));
    }
}

/// The players shown are the first ones in the list, in its order, the gateway
/// left out.
pub proof fn the_first_players_are_shown(peers: Seq<PeerId>, gateway: Option<PeerId>, n: nat)
    ensures
        ({
            let players = peers.filter(is_no_gateway(gateway));
            &&& players.len() <= n ==> wanted_of(peers, gateway, n) == players
            &&& players.len() > n ==> wanted_of(peers, gateway, n) == players.take(n as int)
        }),
    decreases peers.len(),
{
    let f = is_no_gateway(gateway);
    let players = peers.filter(f);
    if peers.len() == 0 {
        reveal(Seq::filter);
        assert(players =~= Seq::empty());
        assert(wanted_of(peers, gateway, n) =~= players);
    } else {
        lemma_filter_front(peers, f);
        let rest = peers.skip(1).filter(f);
        if n == 0 {
            assert(wanted_of(peers, gateway, n) =~= players.take(0));
            if players.len() == 0 {
                assert(wanted_of(peers, gateway, n) =~= players);
            }
        } else if gateway == Some(peers[0]) {
            the_first_players_are_shown(peers.skip(1), gateway, n);
            assert(players =~= rest);
        } else {
            the_first_players_are_shown(peers.skip(1), gateway, (n - 1) as nat);
            assert(players =~= seq![peers[0]] + rest);
            if players.len() > n {
                assert(players.take(n as int) =~= seq![peers[0]] + rest.take(n - 1));
            }
        }
    }
}

/// Who goes and who comes keep the order of the list that they are from.
pub proof fn changes_keep_the_order(a: Seq<PeerId>, b: Seq<PeerId>)
    ensures
        missing_from(a, b) == a.filter(|x: PeerId| !b.contains(x)),
    decreases a.len(),
{
    reveal(Seq::filter);
    if a.len() > 0 {
        changes_keep_the_order(a.drop_last(), b);
    }
}

/// Twelve players are shown at most.
pub proof fn twelve_players_are_shown(peers: Seq<PeerId>, gateway: Option<PeerId>)
    ensures
        wanted_of(peers, gateway, MAX_NODES as nat).len() <= 12,
        peers.filter(is_no_gateway(gateway)).len() >= 12 ==> wanted_of(
            peers,
            gateway,
            MAX_NODES as nat,
        ).len() == 12,
{
    the_first_players_are_shown(peers, gateway, MAX_NODES as nat);
}

/// The hash starts from its offset; every byte is mixed in and multiplied by
/// the prime, in thirty-two bits.
pub proof fn bytes_are_mixed_in(bytes: Seq<u8>, b: u8)
    ensures
        fnv_of(Seq::empty()) == 2_166_136_261,
        fnv_of(bytes.push(b)) == ((fnv_of(bytes) ^ (b as u32)) * 16_777_619) % 0x1_0000_0000,
{
    assert(bytes.push(b).drop_last() =~= bytes);
}

} // verus!
