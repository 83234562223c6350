//! Peer identities.
//!
//! A peer is known by a multihash of its public key: a hash code, the size of
//! the digest and the digest. Identities are compared and sorted by those
//! three, and written in base 58 where people or tables see them.
use vstd::prelude::*;

use crate::table::Same;
use crate::text::{chars_of, slice_of, text_of};

verus! {

/// The multihash codes that a peer identity may have.
pub const IDENTITY_CODE: u8 = 0x00;

pub const SHA256_CODE: u8 = 0x12;

/// The longest public key that is its own digest.
pub const MAX_INLINE_KEY: u8 = 42;

/// The longest digest.
pub const MAX_DIGEST: u8 = 64;

/// The identity of a peer; the digest is padded with zeros.
#[derive(Clone, Copy, PartialEq, Eq, Debug)]
pub struct PeerId {
    pub code: u8,
    pub size: u8,
    pub digest: [u8; 64],
}

impl View for PeerId {
    type V = PeerId;

    open spec fn view(&self) -> PeerId {
        *self
    }
}

impl Same for PeerId {
    fn same(&self, other: &Self) -> (r: bool) {
        if self.code != other.code || self.size != other.size {
            return false;
        }
        let mut i: usize = 0;
        while i < 64
            invariant
                0 <= i <= 64,
                self.code == other.code,
                self.size == other.size,
                forall|j: int| 0 <= j < i ==> self.digest@[j] == other.digest@[j],
            decreases 64 - i,
        {
            if self.digest[i] != other.digest[i] {
                return false;
            }
            i += 1;
        }
        assert(self.digest =~= other.digest);
        true
    }
}

/// Whether two optional identities are the same.
pub fn same_peer(a: &Option<PeerId>, b: &Option<PeerId>) -> (r: bool)
    ensures
        r == (*a == *b),
{
    match (a, b) {
        (Some(x), Some(y)) => x.same(y),
        (None, None) => true,
        _ => false,
    }
}

/// Whether a code and a digest size belong to a peer identity.
pub open spec fn peer_header(code: u8, size: u8) -> bool {
    ||| code == SHA256_CODE && size <= MAX_DIGEST
    ||| code == IDENTITY_CODE && size <= MAX_INLINE_KEY
}

/// Whether `bytes` are the binary form of a peer identity: the code, the size
/// and then exactly that many bytes of digest.
pub open spec fn is_peer_bytes(bytes: Seq<u8>) -> bool {
    &&& bytes.len() >= 2
    &&& peer_header(bytes[0], bytes[1])
    &&& bytes.len() == 2 + bytes[1]
}

impl PeerId {
    /// A proper identity: a header that fits and zeros behind the digest.
    pub open spec fn wf(self) -> bool {
        &&& peer_header(self.code, self.size)
        &&& forall|i: int| self.size <= i < 64 ==> self.digest@[i] == 0
    }

    /// The binary form.
    pub open spec fn bytes(self) -> Seq<u8> {
        seq![self.code, self.size] + self.digest@.take(self.size as int)
    }

    /// Reads the binary form of an identity.
    pub fn from_bytes(data: &[u8]) -> (r: Option<PeerId>)
        ensures
            r is Some <==> is_peer_bytes(data@),
            r matches Some(p) ==> p.wf() && p.bytes() == data@,
    {
        if data.len() < 2 {
            return None;
        }
        let code: u8 = data[0];
        let size: u8 = data[1];
        let known = (code == SHA256_CODE && size <= MAX_DIGEST) || (code == IDENTITY_CODE && size
            <= MAX_INLINE_KEY);
        if !known || data.len() != 2 + size as usize {
            return None;
        }
        let mut digest: [u8; 64] = [0u8; 64];
        let mut i: usize = 0;
        while i < size as usize
            invariant
                0 <= i <= size <= 64,
                data@.len() == 2 + size,
                forall|j: int| 0 <= j < i ==> digest@[j] == data@[2 + j],
                forall|j: int| i <= j < 64 ==> digest@[j] == 0,
            decreases size - i,
        {
            digest[i] = data[2 + i];
            i += 1;
        }
        let peer = PeerId { code, size, digest };
        assert(peer.bytes() =~= data@);
        Some(peer)
    }

    /// The binary form of this identity.
    pub fn to_bytes(&self) -> (r: Vec<u8>)
        requires
            self.wf(),
        ensures
            r@ == self.bytes(),
            is_peer_bytes(r@),
    {
        let mut out: Vec<u8> = Vec::new();
        out.push(self.code);
        out.push(self.size);
        let mut i: usize = 0;
        assert(out@ =~= seq![self.code, self.size] + self.digest@.take(0));
        while i < self.size as usize
            invariant
                0 <= i <= self.size <= 64,
                out@ == seq![self.code, self.size] + self.digest@.take(i as int),
            decreases self.size - i,
        {
            out.push(self.digest[i]);
            assert(self.digest@.take(i + 1) =~= self.digest@.take(i as int).push(
                self.digest@[i as int],
            ));
            assert(out@ =~= seq![self.code, self.size] + self.digest@.take(i + 1));
            i += 1;
        }
        out
    }

    /// Reads an identity from its base 58 text.
    pub fn parse(text: &str) -> (r: Option<PeerId>)
        ensures
            r == parsed_peer(text@),
            r matches Some(p) ==> p.wf(),
    {
        match peer_bytes_of_text(text) {
            Some(bytes) => {
                let r = PeerId::from_bytes(bytes.as_slice());
                proof {
                    lemma_peer_of_bytes(r.unwrap());
                }
                r
            },
            None => None,
        }
    }

    /// The base 58 text of this identity.
    pub fn to_base58(&self) -> (r: String)
        requires
            self.wf(),
        ensures
            r@ == base58(*self),
            vstd::utf8::is_ascii_chars(r@),
            parsed_peer(r@) == Some(*self),
    {
        let bytes = self.to_bytes();
        proof {
            lemma_peer_of_bytes(*self);
        }
        peer_text_of_bytes(bytes.as_slice())
    }

    /// Whether this identity comes before the other one.
    pub fn less(&self, other: &PeerId) -> (r: bool)
        ensures
            r == peer_less(*self, *other),
    {
        if self.code != other.code {
            return self.code < other.code;
        }
        if self.size != other.size {
            return self.size < other.size;
        }
        let mut i: usize = 0;
        while i < 64
            invariant
                0 <= i <= 64,
                self.code == other.code,
                self.size == other.size,
                forall|j: int| 0 <= j < i ==> self.digest@[j] == other.digest@[j],
            decreases 64 - i,
        {
            if self.digest[i] != other.digest[i] {
                proof {
                    if other.digest@[i as int] < self.digest@[i as int] {
                        assert(first_smaller_at(other.digest@, self.digest@, i as int));
                        lemma_lex_exclusive(self.digest@, other.digest@, i as int);
                    } else {
                        assert(first_smaller_at(self.digest@, other.digest@, i as int));
                    }
                }
                return self.digest[i] < other.digest[i];
            }
            i += 1;
        }
        assert(self.digest =~= other.digest);
        proof {
            peer_order_is_total(*self, *other);
        }
        false
    }
}

/// The identity whose binary form is `bytes`.
pub open spec fn peer_of_bytes(bytes: Seq<u8>) -> PeerId {
    choose|p: PeerId| p.wf() && p.bytes() == bytes
}

/// An identity is given by its binary form.
pub proof fn lemma_peer_of_bytes(p: PeerId)
    requires
        p.wf(),
    ensures
        peer_of_bytes(p.bytes()) == p,
{
    let q = peer_of_bytes(p.bytes());
    same_bytes_same_peer(p, q);
}

/// Two identities with the same binary form are the same.
pub proof fn same_bytes_same_peer(p: PeerId, q: PeerId)
    requires
        p.wf(),
        q.wf(),
        p.bytes() == q.bytes(),
    ensures
        p == q,
{
    assert(p.bytes()[0] == p.code && q.bytes()[0] == q.code);
    assert(p.bytes()[1] == p.size && q.bytes()[1] == q.size);
    assert forall|i: int| 0 <= i < 64 implies p.digest@[i] == q.digest@[i] by {
        if i < p.size {
            assert(p.bytes()[2 + i] == p.digest@[i]);
            assert(q.bytes()[2 + i] == q.digest@[i]);
        }
    }
    assert(p.digest =~= q.digest);
}

/// What a text says as a base 58 peer identity, in binary form.
pub uninterp spec fn text_peer_bytes(text: Seq<char>) -> Option<Seq<u8>>;

/// The base 58 text of a binary form.
pub uninterp spec fn bytes_peer_text(bytes: Seq<u8>) -> Seq<char>;

/// The identity that a base 58 text stands for.
pub open spec fn parsed_peer(text: Seq<char>) -> Option<PeerId> {
    match text_peer_bytes(text) {
        Some(bytes) => Some(peer_of_bytes(bytes)),
        None => None,
    }
}

/// The base 58 text of an identity.
pub open spec fn base58(p: PeerId) -> Seq<char> {
    bytes_peer_text(p.bytes())
}

/// `libp2p::PeerId::from_str`, then `to_bytes`. Which texts are accepted, and
/// what they stand for, is left to that function; it is a function of the text
/// alone, and what it accepts has the binary form of a peer identity.
#[verifier::external_body]
fn peer_bytes_of_text(text: &str) -> (r: Option<Vec<u8>>)
    ensures
        match r {
            Some(v) => text_peer_bytes(text@) == Some(v@) && is_peer_bytes(v@),
            None => text_peer_bytes(text@) is None,
        },
{
    match text.parse::<libp2p::PeerId>() {
        Ok(peer) => Some(peer.to_bytes()),
        Err(_) => None,
    }
}

/// `libp2p::PeerId::from_bytes`, then `to_base58`. The text is a function of
/// the bytes alone, all ASCII, and parsing it gives the same bytes back.
#[verifier::external_body]
fn peer_text_of_bytes(bytes: &[u8]) -> (r: String)
    requires
        is_peer_bytes(bytes@),
    ensures
        r@ == bytes_peer_text(bytes@),
        vstd::utf8::is_ascii_chars(r@),
        text_peer_bytes(r@) == Some(bytes@),
{
    match libp2p::PeerId::from_bytes(bytes) {
        Ok(peer) => peer.to_base58(),
        Err(_) => String::new(),
    }
}

/// What stands for an identity where space is short.
pub open spec fn short_text(text: Seq<char>) -> Seq<char> {
    if text.len() <= 16 {
        text
    } else {
        text.take(8) + "..."@ + text.skip(text.len() - 4)
    }
}

/// A short, readable piece of the base 58 text of a peer.
pub fn short_peer(peer: &PeerId) -> (r: String)
    requires
        peer.wf(),
    ensures
        r@ == short_text(base58(*peer)),
{
    let text = peer.to_base58();
    let v = chars_of(text.as_str());
    if v.len() <= 16 {
        return text;
    }
    let head = slice_of(&v, 0, 8);
    let tail = slice_of(&v, v.len() - 4, v.len());
    let mut out = text_of(&head);
    out.append("...");
    out.append(text_of(&tail).as_str());
    assert(head@ =~= v@.take(8));
    assert(tail@ =~= v@.skip(v@.len() - 4));
    out
}

// ---------------------------------------------------------------------------
// Order
// ---------------------------------------------------------------------------

/// Whether `s` comes before `t`, both of the same length: it is smaller at the
/// first place where they differ.
pub open spec fn lex_less(s: Seq<u8>, t: Seq<u8>) -> bool {
    exists|i: int| first_smaller_at(s, t, i)
}

pub open spec fn first_smaller_at(s: Seq<u8>, t: Seq<u8>, i: int) -> bool {
    &&& 0 <= i < s.len()
    &&& i < t.len()
    &&& s[i] < t[i]
    &&& forall|j: int| 0 <= j < i ==> s[j] == t[j]
}

/// Whether `a` comes before `b`: by code, then by size, then by digest.
pub open spec fn peer_less(a: PeerId, b: PeerId) -> bool {
    ||| a.code < b.code
    ||| a.code == b.code && a.size < b.size
    ||| a.code == b.code && a.size == b.size && lex_less(a.digest@, b.digest@)
}

proof fn lemma_lex_exclusive(s: Seq<u8>, t: Seq<u8>, i: int)
    requires
        first_smaller_at(t, s, i),
    ensures
        !lex_less(s, t),
{
    if lex_less(s, t) {
        let k = choose|k: int| first_smaller_at(s, t, k);
        assert(s[k] < t[k] && t[i] < s[i]);
        assert(k == i || k < i || i < k);
    }
}

proof fn lemma_lex_total(s: Seq<u8>, t: Seq<u8>, n: int)
    requires
        s.len() == t.len(),
        0 <= n <= s.len(),
        forall|j: int| 0 <= j < n ==> s[j] == t[j],
    ensures
        s == t || lex_less(s, t) || lex_less(t, s),
    decreases s.len() - n,
{
    if n == s.len() {
        assert(s =~= t);
    } else if s[n] < t[n] {
        assert(first_smaller_at(s, t, n));
    } else if t[n] < s[n] {
        assert(first_smaller_at(t, s, n));
    } else {
        lemma_lex_total(s, t, n + 1);
    }
}

/// Of two different identities exactly one comes first, and none comes before
/// itself.
pub proof fn peer_order_is_total(a: PeerId, b: PeerId)
    ensures
        a != b ==> (peer_less(a, b) <==> !peer_less(b, a)),
        !peer_less(a, a),
{
    if lex_less(a.digest@, a.digest@) {
        let k = choose|k: int| first_smaller_at(a.digest@, a.digest@, k);
        assert(false);
    }
    if a.code == b.code && a.size == b.size {
        lemma_lex_total(a.digest@, b.digest@, 0);
        if a.digest@ == b.digest@ {
            assert(a.digest =~= b.digest);
        }
        if lex_less(a.digest@, b.digest@) {
            let k = choose|k: int| first_smaller_at(a.digest@, b.digest@, k);
            lemma_lex_exclusive(b.digest@, a.digest@, k);
        }
    }
}

/// Peers are ordered as their bytes are: the first byte in which they differ
/// decides.
pub proof fn peers_are_ordered_by_their_bytes(a: PeerId, b: PeerId, i: int)
    requires
        a.wf(),
        b.wf(),
        0 <= i < a.bytes().len() && i < b.bytes().len(),
        forall|j: int| 0 <= j < i ==> a.bytes()[j] == b.bytes()[j],
        a.bytes()[i] < b.bytes()[i],
    ensures
        peer_less(a, b),
        !peer_less(b, a),
{
    assert(a.bytes()[0] == a.code && b.bytes()[0] == b.code);
    assert(a.bytes()[1] == a.size && b.bytes()[1] == b.size);
    if i >= 2 {
        assert(a.bytes()[0] == b.bytes()[0] && a.bytes()[1] == b.bytes()[1]);
        let k = i - 2;
        assert(a.bytes()[i] == a.digest@[k] && b.bytes()[i] == b.digest@[k]);
        assert forall|j: int| 0 <= j < k implies a.digest@[j] == b.digest@[j] by {
            assert(a.bytes()[j + 2] == a.digest@[j]);
            assert(b.bytes()[j + 2] == b.digest@[j]);
        }
        assert(first_smaller_at(a.digest@, b.digest@, k));
    }
    peer_order_is_total(a, b);
}

/// The bytes of a peer are the code of a hash, the length of the digest and the
/// digest: up to sixty-four bytes of a hash, or a key of up to forty-two bytes
/// as it is.
pub proof fn peers_are_short_hashes(bytes: Seq<u8>)
    requires
        bytes.len() >= 2,
    ensures
        is_peer_bytes(bytes) <==> bytes.len() == 2 + bytes[1] && (bytes[0] == 0x12 && bytes[1] <= 64
            || bytes[0] == 0x00 && bytes[1] <= 42),
{
}

/// A text names the peer whose bytes it stands for, and no other.
pub proof fn texts_name_their_peer(text: Seq<char>, p: PeerId)
    requires
        p.wf(),
    ensures
        text_peer_bytes(text) == Some(p.bytes()) ==> parsed_peer(text) == Some(p),
        text_peer_bytes(text) is None ==> parsed_peer(text) is None,
        base58(p) == bytes_peer_text(p.bytes()),
{
    lemma_peer_of_bytes(p);
}

/// A long name is shown by its first eight and its last four characters, with
/// three dots between; one of up to sixteen characters is shown whole.
pub proof fn long_names_are_cut_in_the_middle(text: Seq<char>, i: int)
    ensures
        text.len() <= 16 ==> short_text(text) == text,
        text.len() > 16 ==> {
            let s = short_text(text);
            &&& s.len() == 15
            &&& 0 <= i < 8 ==> s[i] == text[i]
            &&& 8 <= i < 11 ==> s[i] == '.'
            &&& 11 <= i < 15 ==> s[i] == text[text.len() - 15 + i]
        },
{
    reveal_strlit("...");
}

} // verus!
