//! Multiaddresses, as the sequence of their components.
use vstd::prelude::*;

use crate::peer::{base58, PeerId};
use crate::protocol::texts;
use crate::table::Same;

verus! {

/// What a component is, with the value where something here reads it.
#[derive(Clone, Copy, PartialEq, Eq, Structural, Debug)]
pub enum PartKind {
    Ip4(u32),
    Ip6(u128),
    Tcp(u16),
    P2p,
    P2pCircuit,
    Other,
}

/// One component of an address, with its text (`/tcp/4001`).
#[derive(Debug)]
pub struct AddrPart {
    pub kind: PartKind,
    pub text: String,
}

pub struct PartView {
    pub kind: PartKind,
    pub text: Seq<char>,
}

impl View for AddrPart {
    type V = PartView;

    open spec fn view(&self) -> PartView {
        PartView { kind: self.kind, text: self.text@ }
    }
}

/// An address.
#[derive(Debug)]
pub struct Multiaddr {
    pub parts: Vec<AddrPart>,
}

pub open spec fn part_views(v: Seq<AddrPart>) -> Seq<PartView> {
    Seq::new(v.len(), |i: int| v[i]@)
}

impl View for Multiaddr {
    type V = Seq<PartView>;

    open spec fn view(&self) -> Seq<PartView> {
        part_views(self.parts@)
    }
}

/// The text of an address: that of its components, one after the other.
pub open spec fn addr_text(parts: Seq<PartView>) -> Seq<char>
    decreases parts.len(),
{
    if parts.len() == 0 {
        Seq::empty()
    } else {
        addr_text(parts.drop_last()) + parts.last().text
    }
}

/// The components that a text is read as.
pub uninterp spec fn text_addr_parts(text: Seq<char>) -> Option<Seq<PartView>>;

/// `libp2p::Multiaddr::from_str`, with each component of the result
/// (`Multiaddr::iter`) and its text (`Protocol::to_string`). Which texts are
/// accepted, and as what, is left to that function; it is a function of the
/// text alone.
#[verifier::external_body]
fn parts_of_text(text: &str) -> (r: Option<Vec<AddrPart>>)
    ensures
        match r {
            Some(v) => text_addr_parts(text@) == Some(part_views(v@)),
            None => text_addr_parts(text@) is None,
        },
{
    let addr = text.parse::<libp2p::Multiaddr>().ok()?;
    let part = |p: libp2p::multiaddr::Protocol| AddrPart {
        text: p.to_string(),
        kind: match p {
            libp2p::multiaddr::Protocol::Ip4(a) => PartKind::Ip4(u32::from(a)),
            libp2p::multiaddr::Protocol::Ip6(a) => PartKind::Ip6(u128::from(a)),
            libp2p::multiaddr::Protocol::Tcp(port) => PartKind::Tcp(port),
            libp2p::multiaddr::Protocol::P2p(_) => PartKind::P2p,
            libp2p::multiaddr::Protocol::P2pCircuit => PartKind::P2pCircuit,
            _ => PartKind::Other,
        },
    };
    Some(addr.iter().map(part).collect())
}

/// The component that names a peer.
pub open spec fn p2p_part(peer: PeerId) -> PartView {
    PartView { kind: PartKind::P2p, text: "/p2p/"@ + base58(peer) }
}

/// The component of a relayed route.
pub open spec fn circuit_part() -> PartView {
    PartView { kind: PartKind::P2pCircuit, text: "/p2p-circuit"@ }
}

/// The address without a peer at its end.
pub open spec fn base_of(parts: Seq<PartView>) -> Seq<PartView> {
    if parts.len() > 0 && parts.last().kind is P2p {
        parts.drop_last()
    } else {
        parts
    }
}

/// The route to `target` through the relay at an address.
pub open spec fn circuit_of(base: Seq<PartView>, relay: PeerId, target: PeerId) -> Seq<PartView> {
    base_of(base).push(p2p_part(relay)).push(circuit_part()).push(p2p_part(target))
}

/// Whether the address is a relayed one.
pub open spec fn has_circuit(parts: Seq<PartView>) -> bool {
    exists|i: int| 0 <= i < parts.len() && (#[trigger] parts[i]).kind is P2pCircuit
}

/// The port of the first TCP component.
pub open spec fn tcp_port(parts: Seq<PartView>) -> Option<u16>
    decreases parts.len(),
{
    if parts.len() == 0 {
        None
    } else {
        match parts[0].kind {
            PartKind::Tcp(port) => Some(port),
            _ => tcp_port(parts.skip(1)),
        }
    }
}

/// The host part of a socket address.
#[derive(Clone, Copy, PartialEq, Eq, Structural, Debug)]
pub enum Host {
    V4(u32),
    V6(u128),
}

/// The last IP component.
pub open spec fn last_host(parts: Seq<PartView>) -> Option<Host>
    decreases parts.len(),
{
    if parts.len() == 0 {
        None
    } else {
        match parts.last().kind {
            PartKind::Ip4(a) => Some(Host::V4(a)),
            PartKind::Ip6(a) => Some(Host::V6(a)),
            _ => last_host(parts.drop_last()),
        }
    }
}

/// The port of the last TCP component.
pub open spec fn last_port(parts: Seq<PartView>) -> Option<u16>
    decreases parts.len(),
{
    if parts.len() == 0 {
        None
    } else {
        match parts.last().kind {
            PartKind::Tcp(port) => Some(port),
            _ => last_port(parts.drop_last()),
        }
    }
}

impl AddrPart {
    pub fn copied(&self) -> (r: AddrPart)
        ensures
            r@ == self@,
    {
        AddrPart { kind: self.kind, text: self.text.clone() }
    }
}

impl Same for Multiaddr {
    fn same(&self, other: &Self) -> (r: bool) {
        if self.parts.len() != other.parts.len() {
            assert(self@.len() != other@.len());
            return false;
        }
        let mut i: usize = 0;
        while i < self.parts.len()
            invariant
                0 <= i <= self.parts.len(),
                self.parts.len() == other.parts.len(),
                forall|j: int| 0 <= j < i ==> self@[j] == other@[j],
            decreases self.parts.len() - i,
        {
            let a = &self.parts[i];
            let b = &other.parts[i];
            if a.kind != b.kind || a.text != b.text {
                assert(self@[i as int] != other@[i as int]);
                return false;
            }
            i += 1;
        }
        assert(self@ =~= other@);
        true
    }
}

impl Multiaddr {
    /// Reads an address.
    pub fn parse(text: &str) -> (r: Option<Multiaddr>)
        ensures
            match r {
                Some(a) => text_addr_parts(text@) == Some(a@),
                None => text_addr_parts(text@) is None,
            },
    {
        match parts_of_text(text) {
            Some(parts) => Some(Multiaddr { parts }),
            None => None,
        }
    }

    pub fn copied(&self) -> (r: Multiaddr)
        ensures
            r@ == self@,
    {
        let mut parts: Vec<AddrPart> = Vec::new();
        let mut i: usize = 0;
        while i < self.parts.len()
            invariant
                0 <= i <= self.parts.len(),
                parts@.len() == i,
                forall|j: int| 0 <= j < i ==> (#[trigger] parts@[j])@ == self@[j],
            decreases self.parts.len() - i,
        {
            parts.push(self.parts[i].copied());
            i += 1;
        }
        let r = Multiaddr { parts };
        assert(r@ =~= self@);
        r
    }

    /// The text of the address.
    pub fn to_text(&self) -> (r: String)
        ensures
            r@ == addr_text(self@),
    {
        let mut out = String::new();
        let mut i: usize = 0;
        assert(self@.take(0) =~= Seq::empty());
        while i < self.parts.len()
            invariant
                0 <= i <= self.parts.len(),
                out@ == addr_text(self@.take(i as int)),
            decreases self.parts.len() - i,
        {
            out.append(self.parts[i].text.as_str());
            assert(self@.take(i + 1).drop_last() =~= self@.take(i as int));
            i += 1;
        }
        assert(self@.take(self@.len() as int) =~= self@);
        out
    }

    /// The address without a peer at its end.
    pub fn base(&self) -> (r: Multiaddr)
        ensures
            r@ == base_of(self@),
    {
        let mut r = self.copied();
        let n: usize = r.parts.len();
        if n > 0 {
            let last = r.parts[n - 1].kind;
            assert(r@.last().kind == last);
            if let PartKind::P2p = last {
                r.parts.pop();
                assert(r@ =~= self@.drop_last());
            }
        }
        r
    }

    /// Appends the peer.
    pub fn push_peer(&mut self, peer: &PeerId)
        requires
            peer.wf(),
        ensures
            final(self)@ == old(self)@.push(p2p_part(*peer)),
    {
        let mut text = String::new();
        text.append("/p2p/");
        text.append(peer.to_base58().as_str());
        let part = AddrPart { kind: PartKind::P2p, text };
        assert(part@.text =~= "/p2p/"@ + base58(*peer));
        self.parts.push(part);
        assert(self@ =~= old(self)@.push(p2p_part(*peer)));
    }

    /// Appends the component of a relayed route.
    pub fn push_circuit(&mut self)
        ensures
            final(self)@ == old(self)@.push(circuit_part()),
    {
        let mut text = String::new();
        text.append("/p2p-circuit");
        assert(text@ =~= "/p2p-circuit"@);
        self.parts.push(AddrPart { kind: PartKind::P2pCircuit, text });
        assert(self@ =~= old(self)@.push(circuit_part()));
    }
}

/// Whether the address is a relayed one.
pub fn is_circuit(addr: &Multiaddr) -> (r: bool)
    ensures
        r == has_circuit(addr@),
{
    let mut i: usize = 0;
    while i < addr.parts.len()
        invariant
            0 <= i <= addr.parts.len(),
            forall|j: int| 0 <= j < i ==> !((#[trigger] addr@[j]).kind is P2pCircuit),
        decreases addr.parts.len() - i,
    {
        assert(addr@[i as int].kind == addr.parts@[i as int].kind);
        if let PartKind::P2pCircuit = addr.parts[i].kind {
            return true;
        }
        i += 1;
    }
    false
}

/// The port that an address listens on, if it has one.
pub fn port_of(addr: &Multiaddr) -> (r: Option<u16>)
    ensures
        r == tcp_port(addr@),
{
    let mut i: usize = 0;
    assert(addr@.skip(0) =~= addr@);
    while i < addr.parts.len()
        invariant
            0 <= i <= addr.parts.len(),
            tcp_port(addr@) == tcp_port(addr@.skip(i as int)),
        decreases addr.parts.len() - i,
    {
        assert(addr@.skip(i as int)[0].kind == addr.parts@[i as int].kind);
        assert(addr@.skip(i as int).skip(1) =~= addr@.skip(i + 1));
        if let PartKind::Tcp(port) = addr.parts[i].kind {
            return Some(port);
        }
        i += 1;
    }
    None
}

/// The host and port to measure the way to an address with.
pub fn multiaddr_to_socket(addr: &Multiaddr) -> (r: Option<(Host, u16)>)
    ensures
        match (last_host(addr@), last_port(addr@)) {
            (Some(host), Some(port)) => r == Some((host, port)),
            _ => r is None,
        },
{
    let mut host: Option<Host> = None;
    let mut port: Option<u16> = None;
    let mut i: usize = 0;
    assert(addr@.take(0) =~= Seq::empty());
    while i < addr.parts.len()
        invariant
            0 <= i <= addr.parts.len(),
            host == last_host(addr@.take(i as int)),
            port == last_port(addr@.take(i as int)),
        decreases addr.parts.len() - i,
    {
        assert(addr@.take(i + 1).last().kind == addr.parts@[i as int].kind);
        assert(addr@.take(i + 1).drop_last() =~= addr@.take(i as int));
        match addr.parts[i].kind {
            PartKind::Ip4(a) => host = Some(Host::V4(a)),
            PartKind::Ip6(a) => host = Some(Host::V6(a)),
            PartKind::Tcp(p) => port = Some(p),
            _ => {},
        }
        i += 1;
    }
    assert(addr@.take(addr@.len() as int) =~= addr@);
    match (host, port) {
        (Some(h), Some(p)) => Some((h, p)),
        _ => None,
    }
}

pub open spec fn addr_views(v: Seq<Multiaddr>) -> Seq<Seq<PartView>> {
    Seq::new(v.len(), |i: int| v[i]@)
}

/// The texts of the routes to `target` through `relay`, one for each base.
pub open spec fn circuit_texts(
    bases: Seq<Seq<PartView>>,
    relay: PeerId,
    target: PeerId,
) -> Seq<Seq<char>> {
    Seq::new(bases.len(), |i: int| addr_text(circuit_of(bases[i], relay, target)))
}

/// The relayed addresses that `target` can be reached at.
pub fn circuit_addresses(bases: &Vec<Multiaddr>, relay_peer: &PeerId, target: &PeerId) -> (r: Vec<
    String,
>)
    requires
        relay_peer.wf(),
        target.wf(),
    ensures
        texts(r@) == circuit_texts(addr_views(bases@), *relay_peer, *target),
{
    let mut out: Vec<String> = Vec::new();
    let mut i: usize = 0;
    while i < bases.len()
        invariant
            0 <= i <= bases.len(),
            relay_peer.wf(),
            target.wf(),
            out@.len() == i,
            forall|j: int|
                0 <= j < i ==> (#[trigger] out@[j])@ == addr_text(
                    circuit_of(bases@[j]@, *relay_peer, *target),
                ),
        decreases bases.len() - i,
    {
        let mut addr = bases[i].base();
        addr.push_peer(relay_peer);
        addr.push_circuit();
        addr.push_peer(target);
        out.push(addr.to_text());
        i += 1;
    }
    assert(texts(out@) =~= circuit_texts(addr_views(bases@), *relay_peer, *target));
    out
}

/// A relayed route is a relayed address, and taking the peer off its end and
/// putting it back changes nothing.
pub proof fn circuits_are_circuits(base: Seq<PartView>, relay: PeerId, target: PeerId)
    ensures
        has_circuit(circuit_of(base, relay, target)),
        base_of(circuit_of(base, relay, target)).push(p2p_part(target)) == circuit_of(
            base,
            relay,
            target,
        ),
{
    let c = circuit_of(base, relay, target);
    assert(c[c.len() - 2].kind is P2pCircuit);
    assert(base_of(c).push(p2p_part(target)) =~= c);
}

/// An address reads as its components one after the other.
pub proof fn texts_are_joined(a: Seq<PartView>, b: Seq<PartView>)
    ensures
        addr_text(a + b) == addr_text(a) + addr_text(b),
        forall|p: PartView| #[trigger] addr_text(seq![p]) == p.text,
    decreases b.len(),
{
    assert forall|p: PartView| #[trigger] addr_text(seq![p]) == p.text by {
        assert(seq![p].drop_last() =~= Seq::empty());
        assert(addr_text(seq![p].drop_last()) =~= Seq::empty());
        assert(Seq::<char>::empty() + p.text =~= p.text);
    }
    if b.len() == 0 {
        assert(a + b =~= a);
        assert(addr_text(a) + addr_text(b) =~= addr_text(a));
    } else {
        texts_are_joined(a, b.drop_last());
        assert((a + b).drop_last() =~= a + b.drop_last());
        assert((addr_text(a) + addr_text(b.drop_last())) + b.last().text =~= addr_text(a) + (
        addr_text(b.drop_last()) + b.last().text));
    }
}

/// A peer that was put at the end of an address is taken off again, whoever it
/// is, and an address that ends in none is left as it is.
pub proof fn only_the_peer_is_taken_off(parts: Seq<PartView>, peer: PeerId)
    ensures
        base_of(parts.push(p2p_part(peer))) == parts,
        parts.len() > 0 && !(parts.last().kind is P2p) ==> base_of(parts) == parts,
        base_of(Seq::<PartView>::empty()) == Seq::<PartView>::empty(),
{
    assert(parts.push(p2p_part(peer)).drop_last() =~= parts);
}

/// The text of a route through a relay: the address of the relay, its peer, the
/// mark of a relayed route, and last the peer that the route leads to.
pub proof fn routes_lead_to_the_target(
    bases: Seq<Seq<PartView>>,
    relay: PeerId,
    target: PeerId,
    i: int,
)
    requires
        0 <= i < bases.len(),
    ensures
        circuit_texts(bases, relay, target).len() == bases.len(),
        circuit_texts(bases, relay, target)[i] == addr_text(base_of(bases[i])) + ("/p2p/"@
            + base58(relay)) + "/p2p-circuit"@ + ("/p2p/"@ + base58(target)),
{
    let base = base_of(bases[i]);
    let c = circuit_of(bases[i], relay, target);
    assert(c.drop_last() =~= base.push(p2p_part(relay)).push(circuit_part()));
    assert(c.drop_last().drop_last() =~= base.push(p2p_part(relay)));
    assert(c.drop_last().drop_last().drop_last() =~= base);
    reveal_with_fuel(addr_text, 4);
}

/// A route that ends in one peer does not end in another: the text behind the
/// last mark of a relayed route tells which.
pub proof fn routes_to_two_peers_differ(
    bases: Seq<Seq<PartView>>,
    relay: PeerId,
    target: PeerId,
    other: PeerId,
    i: int,
)
    requires
        0 <= i < bases.len(),
        base58(target) != base58(other),
    ensures
        circuit_texts(bases, relay, target)[i] != circuit_texts(bases, relay, other)[i],
{
    routes_lead_to_the_target(bases, relay, target, i);
    routes_lead_to_the_target(bases, relay, other, i);
    let head = addr_text(base_of(bases[i])) + ("/p2p/"@ + base58(relay)) + "/p2p-circuit"@;
    let a = head + ("/p2p/"@ + base58(target));
    let b = head + ("/p2p/"@ + base58(other));
    if a == b {
        let n = (head.len() + "/p2p/"@.len()) as int;
        assert(a.skip(n) =~= base58(target));
        assert(b.skip(n) =~= base58(other));
    }
}

/// An address is a relayed one exactly if a component of it marks a relayed
/// route, wherever it stands.
pub proof fn one_mark_makes_a_circuit(a: Seq<PartView>, b: Seq<PartView>, p: PartView)
    ensures
        p.kind is P2pCircuit ==> has_circuit(a.push(p) + b),
        !(p.kind is P2pCircuit) ==> (has_circuit(a.push(p) + b) <==> has_circuit(a) || has_circuit(
            b,
        )),
        !has_circuit(Seq::<PartView>::empty()),
{
    let c = a.push(p) + b;
    assert(c[a.len() as int] == p);
    if !(p.kind is P2pCircuit) {
        if has_circuit(a) {
            let i = choose|i: int| 0 <= i < a.len() && (#[trigger] a[i]).kind is P2pCircuit;
            assert(c[i] == a[i]);
        }
        if has_circuit(b) {
            let i = choose|i: int| 0 <= i < b.len() && (#[trigger] b[i]).kind is P2pCircuit;
            assert(c[a.len() + 1 + i] == b[i]);
        }
        if has_circuit(c) {
            let i = choose|i: int| 0 <= i < c.len() && (#[trigger] c[i]).kind is P2pCircuit;
            if i < a.len() {
                assert(a[i] == c[i]);
            } else {
                assert(b[i - a.len() - 1] == c[i]);
            }
        }
    }
}

/// The port of an address is that of its first TCP component.
pub proof fn the_first_port_counts(a: Seq<PartView>, b: Seq<PartView>, p: PartView, port: u16)
    requires
        forall|i: int| 0 <= i < a.len() ==> !((#[trigger] a[i]).kind is Tcp),
    ensures
        p.kind == PartKind::Tcp(port) ==> tcp_port(a.push(p) + b) == Some(port),
        tcp_port(a) is None,
    decreases a.len(),
{
    let c = a.push(p) + b;
    if a.len() > 0 {
        assert(c[0] == a[0]);
        assert forall|i: int| 0 <= i < a.skip(1).len() implies !((#[trigger] a.skip(1)[i]).kind
            is Tcp) by {
            assert(a.skip(1)[i] == a[i + 1]);
        }
        the_first_port_counts(a.skip(1), b, p, port);
        assert(c.skip(1) =~= a.skip(1).push(p) + b);
    } else {
        assert(c[0] == p);
    }
}

/// The socket of an address has its last IP component and its last TCP
/// component; where either is missing there is none.
pub proof fn the_last_host_and_port_count(a: Seq<PartView>, b: Seq<PartView>, p: PartView)
    requires
        forall|i: int|
            0 <= i < b.len() ==> !((#[trigger] b[i]).kind is Tcp) && !(b[i].kind is Ip4) && !(
            b[i].kind is Ip6),
    ensures
        p.kind matches PartKind::Ip4(ip) ==> last_host(a.push(p) + b) == Some(Host::V4(ip))
            && last_port(a.push(p) + b) == last_port(a),
        p.kind matches PartKind::Ip6(ip) ==> last_host(a.push(p) + b) == Some(Host::V6(ip))
            && last_port(a.push(p) + b) == last_port(a),
        p.kind matches PartKind::Tcp(port) ==> last_port(a.push(p) + b) == Some(port)
            && last_host(a.push(p) + b) == last_host(a),
        last_host(b) is None,
        last_port(b) is None,
    decreases b.len(),
{
    let c = a.push(p) + b;
    if b.len() > 0 {
        assert(c.last() == b.last());
        assert(c.drop_last() =~= a.push(p) + b.drop_last());
        assert forall|i: int| 0 <= i < b.drop_last().len() implies !((#[trigger] b.drop_last()[i]).kind
            is Tcp) && !(b.drop_last()[i].kind is Ip4) && !(b.drop_last()[i].kind is Ip6) by {
            assert(b.drop_last()[i] == b[i]);
        }
        the_last_host_and_port_count(a, b.drop_last(), p);
    } else {
        assert(c =~= a.push(p));
        assert(c.drop_last() =~= a);
    }
}

} // verus!
