//! Signed ratings.
//!
//! A gateway certifies a rating by signing the rating, a sequence number and
//! the player's identity with its key. Gateways of one deployment share the
//! key, so each can check the certificates of the others.
use vstd::prelude::*;

use crate::peer::{base58, same_bytes_same_peer, PeerId};
use crate::protocol::{proof_view, ProofView, RatingProof};

verus! {

/// The secret of an Ed25519 key pair.
#[derive(Clone, Copy)]
pub struct SigningKey {
    pub secret: [u8; 32],
}

impl SigningKey {
    /// The key that a key file holds: 32 bytes, no more and no less.
    pub fn from_file(bytes: &[u8]) -> (r: Option<SigningKey>)
        ensures
            match r {
                Some(key) => key.secret@ == bytes@,
                None => bytes@.len() != 32,
            },
    {
        if bytes.len() != 32 {
            return None;
        }
        let mut secret: [u8; 32] = [0u8; 32];
        let mut i: usize = 0;
        while i < 32
            invariant
                0 <= i <= 32,
                bytes@.len() == 32,
                forall|j: int| 0 <= j < i ==> secret@[j] == bytes@[j],
            decreases 32 - i,
        {
            secret[i] = bytes[i];
            i += 1;
        }
        assert(secret@ =~= bytes@);
        Some(SigningKey { secret })
    }
}

/// The Ed25519 signature of a message under a secret.
pub uninterp spec fn ed25519_signature(secret: Seq<u8>, message: Seq<u8>) -> Seq<u8>;

/// Whether the public key of a secret accepts a signature of a message.
pub uninterp spec fn ed25519_accepts(
    secret: Seq<u8>,
    message: Seq<u8>,
    signature: Seq<u8>,
) -> bool;

/// `libp2p::identity::Keypair::sign` for the key pair of an Ed25519 secret.
/// The signature is a function of secret and message, and the public key of
/// the pair accepts it. That only the holder of the secret can make one is a
/// matter of cryptography and not stated.
#[verifier::external_body]
fn sign(secret: &[u8; 32], message: &[u8]) -> (r: Option<Vec<u8>>)
    ensures
        r is Some,
        r matches Some(s) ==> s@ == ed25519_signature(secret@, message@) && ed25519_accepts(
            secret@,
            message@,
            s@,
        ),
{
    let key = libp2p::identity::Keypair::ed25519_from_bytes(*secret).ok()?;
    key.sign(message).ok()
}

/// `libp2p::identity::PublicKey::verify` for the public key of an Ed25519
/// secret. The answer is a function of secret, message and signature.
#[verifier::external_body]
fn verify(secret: &[u8; 32], message: &[u8], signature: &[u8]) -> (r: bool)
    ensures
        r == ed25519_accepts(secret@, message@, signature@),
{
    match libp2p::identity::Keypair::ed25519_from_bytes(*secret) {
        Ok(key) => key.public().verify(message, signature),
        Err(_) => false,
    }
}

/// The `n` lowest bytes of `v`, the most significant first.
pub open spec fn be_bytes(v: int, n: nat) -> Seq<u8>
    decreases n,
{
    if n == 0 {
        Seq::empty()
    } else {
        be_bytes(v / 256, (n - 1) as nat).push((v % 256) as u8)
    }
}

/// A 32-bit number in two's complement.
pub open spec fn twos_complement(v: int) -> int {
    if v < 0 {
        v + 0x1_0000_0000
    } else {
        v
    }
}

/// What a gateway signs: rating, sequence number and player.
pub open spec fn proof_message_of(rating: int, seq: int, client: PeerId) -> Seq<u8> {
    be_bytes(twos_complement(rating), 4) + be_bytes(seq, 8) + client.bytes()
}

/// Appends the `n` lowest bytes of `v`, the most significant first.
fn push_be(out: &mut Vec<u8>, v: u64, n: u64)
    requires
        n <= 8,
    ensures
        final(out)@ == old(out)@ + be_bytes(v as int, n as nat),
    decreases n,
{
    if n > 0 {
        push_be(out, v / 256, n - 1);
        out.push((v % 256) as u8);
        assert(out@ =~= old(out)@ + be_bytes(v as int, n as nat));
    } else {
        assert(out@ =~= old(out)@ + be_bytes(v as int, 0));
    }
}

/// The message that certifies `rating` for `client` at `seq`. The player's
/// identity binds the certificate to its holder.
pub fn proof_message(rating: i32, seq: u64, client: &PeerId) -> (r: Vec<u8>)
    requires
        client.wf(),
    ensures
        r@ == proof_message_of(rating as int, seq as int, *client),
{
    let bits: u64 = if rating < 0 {
        (rating as i64 + 0x1_0000_0000) as u64
    } else {
        rating as u64
    };
    let mut msg: Vec<u8> = Vec::new();
    push_be(&mut msg, bits, 4);
    push_be(&mut msg, seq, 8);
    let id = client.to_bytes();
    msg.extend_from_slice(id.as_slice());
    assert(msg@ =~= proof_message_of(rating as int, seq as int, *client));
    msg
}

/// The certificate of a rating.
pub open spec fn proof_of(
    key: SigningKey,
    gateway: PeerId,
    client: PeerId,
    rating: i32,
    seq: u64,
) -> ProofView {
    ProofView {
        rating,
        seq,
        gateway: base58(gateway),
        signature: ed25519_signature(
            key.secret@,
            proof_message_of(rating as int, seq as int, client),
        ),
    }
}

/// Whether the key accepts a certificate for a player.
pub open spec fn proof_holds(key: SigningKey, client: PeerId, proof: ProofView) -> bool {
    ed25519_accepts(
        key.secret@,
        proof_message_of(proof.rating as int, proof.seq as int, client),
        proof.signature,
    )
}

/// Certifies `rating` for `client` at `seq`.
pub fn proof_for(
    key: &SigningKey,
    gateway: &PeerId,
    client: &PeerId,
    rating: i32,
    seq: u64,
) -> (r: Option<RatingProof>)
    requires
        gateway.wf(),
        client.wf(),
    ensures
        proof_view(r) == Some(proof_of(*key, *gateway, *client, rating, seq)),
        proof_holds(*key, *client, r.unwrap()@),
{
    let message = proof_message(rating, seq, client);
    match sign(&key.secret, message.as_slice()) {
        Some(signature) => Some(
            RatingProof { rating, seq, gateway: gateway.to_base58(), signature },
        ),
        None => None,
    }
}

/// Checks a certificate with the key of the gateway.
pub fn verify_proof(key: &SigningKey, client: &PeerId, proof: &RatingProof) -> (r: bool)
    requires
        client.wf(),
    ensures
        r == proof_holds(*key, *client, proof@),
{
    let message = proof_message(proof.rating, proof.seq, client);
    verify(&key.secret, message.as_slice(), proof.signature.as_slice())
}

// ---------------------------------------------------------------------------
// Laws
// ---------------------------------------------------------------------------

proof fn lemma_be_bytes_injective(a: int, b: int, n: nat)
    requires
        0 <= a,
        0 <= b,
        be_bytes(a, n) == be_bytes(b, n),
        a < vstd::arithmetic::power::pow(256, n),
        b < vstd::arithmetic::power::pow(256, n),
    ensures
        a == b,
        be_bytes(a, n).len() == n,
    decreases n,
{
    reveal(vstd::arithmetic::power::pow);
    lemma_be_bytes_len(a, n);
    if n > 0 {
        let x = be_bytes(a / 256, (n - 1) as nat);
        let y = be_bytes(b / 256, (n - 1) as nat);
        assert(x =~= be_bytes(a, n).drop_last());
        assert(y =~= be_bytes(b, n).drop_last());
        assert(be_bytes(a, n).last() == (a % 256) as u8);
        assert(be_bytes(b, n).last() == (b % 256) as u8);
        lemma_be_bytes_injective(a / 256, b / 256, (n - 1) as nat);
    }
}

proof fn lemma_be_bytes_len(a: int, n: nat)
    ensures
        be_bytes(a, n).len() == n,
    decreases n,
{
    if n > 0 {
        lemma_be_bytes_len(a / 256, (n - 1) as nat);
    }
}

/// What is signed tells rating, sequence number and player apart: a
/// certificate says the same as another only if all three agree.
pub proof fn messages_are_distinct(
    rating: i32,
    seq: u64,
    client: PeerId,
    rating2: i32,
    seq2: u64,
    client2: PeerId,
)
    requires
        client.wf(),
        client2.wf(),
        proof_message_of(rating as int, seq as int, client) == proof_message_of(
            rating2 as int,
            seq2 as int,
            client2,
        ),
    ensures
        rating == rating2,
        seq == seq2,
        client == client2,
{
    let m = proof_message_of(rating as int, seq as int, client);
    let m2 = proof_message_of(rating2 as int, seq2 as int, client2);
    let r1 = be_bytes(twos_complement(rating as int), 4);
    let r2 = be_bytes(twos_complement(rating2 as int), 4);
    let s1 = be_bytes(seq as int, 8);
    let s2 = be_bytes(seq2 as int, 8);
    lemma_be_bytes_len(twos_complement(rating as int), 4);
    lemma_be_bytes_len(twos_complement(rating2 as int), 4);
    lemma_be_bytes_len(seq as int, 8);
    lemma_be_bytes_len(seq2 as int, 8);
    assert(r1 =~= m.subrange(0, 4));
    assert(r2 =~= m2.subrange(0, 4));
    assert(s1 =~= m.subrange(4, 12));
    assert(s2 =~= m2.subrange(4, 12));
    assert(client.bytes() =~= m.skip(12));
    assert(client2.bytes() =~= m2.skip(12));
    assert(vstd::arithmetic::power::pow(256, 4) == 0x1_0000_0000) by {
        reveal_with_fuel(vstd::arithmetic::power::pow, 5);
    }
    assert(vstd::arithmetic::power::pow(256, 8) == 0x1_0000_0000_0000_0000) by {
        reveal_with_fuel(vstd::arithmetic::power::pow, 9);
    }
    lemma_be_bytes_injective(twos_complement(rating as int), twos_complement(rating2 as int), 4);
    lemma_be_bytes_injective(seq as int, seq2 as int, 8);
    same_bytes_same_peer(client, client2);
}

/// What is signed: four bytes of the rating in two's complement and eight of the
/// number, the highest byte first, and then the identity of the player.
pub proof fn messages_spell_rating_number_and_player(rating: i32, seq: u64, client: PeerId)
    ensures
        ({
            let m = proof_message_of(rating as int, seq as int, client);
            let bits = 0x100_0000 * m[0] + 0x1_0000 * m[1] + 0x100 * m[2] + m[3];
            let high = 0x100_0000 * m[4] + 0x1_0000 * m[5] + 0x100 * m[6] + m[7];
            let low = 0x100_0000 * m[8] + 0x1_0000 * m[9] + 0x100 * m[10] + m[11];
            &&& m.len() == 12 + client.bytes().len()
            &&& rating >= 0 ==> bits == rating
            &&& rating < 0 ==> bits == rating + 0x1_0000_0000
            &&& high * 0x1_0000_0000 + low == seq
            &&& m.skip(12) == client.bytes()
        }),
{
    let r = be_bytes(twos_complement(rating as int), 4);
    let s = be_bytes(seq as int, 8);
    let m = proof_message_of(rating as int, seq as int, client);
    lemma_be_bytes_len(twos_complement(rating as int), 4);
    lemma_be_bytes_len(seq as int, 8);
    assert(m.skip(12) =~= client.bytes());
    reveal_with_fuel(be_bytes, 9);
    let t = twos_complement(rating as int);
    let x = seq as int;
    assert(m[0] == r[0] && m[1] == r[1] && m[2] == r[2] && m[3] == r[3]);
    assert(r[3] == t % 256 && r[2] == t / 256 % 256 && r[1] == t / 256 / 256 % 256 && r[0] == t
        / 256 / 256 / 256 % 256);
    assert(forall|i: int| 0 <= i < 8 ==> m[4 + i] == #[trigger] s[i]);
    assert(s[7] == x % 256 && s[6] == x / 256 % 256 && s[5] == x / 256 / 256 % 256 && s[4] == x
        / 256 / 256 / 256 % 256);
    assert(s[3] == x / 256 / 256 / 256 / 256 % 256);
    assert(s[2] == x / 256 / 256 / 256 / 256 / 256 % 256);
    assert(s[1] == x / 256 / 256 / 256 / 256 / 256 / 256 % 256);
    assert(s[0] == x / 256 / 256 / 256 / 256 / 256 / 256 / 256 % 256);
}

/// A certificate says the rating and the number that it was made for, names the
/// gateway, and is signed for the player over just these.
pub proof fn certificates_say_what_was_certified(
    key: SigningKey,
    gateway: PeerId,
    client: PeerId,
    rating: i32,
    seq: u64,
)
    ensures
        ({
            let c = proof_of(key, gateway, client, rating, seq);
            &&& c.rating == rating
            &&& c.seq == seq
            &&& c.gateway == base58(gateway)
            &&& c.signature == ed25519_signature(
                key.secret@,
                proof_message_of(rating as int, seq as int, client),
            )
        }),
{
}

/// The key is asked of the rating and the number that a certificate says and of
/// the player who shows it; which gateway it names does not count.
pub proof fn only_the_signature_counts(key: SigningKey, client: PeerId, c: ProofView, d: ProofView)
    requires
        c.rating == d.rating,
        c.seq == d.seq,
        c.signature == d.signature,
    ensures
        proof_holds(key, client, c) == proof_holds(key, client, d),
        proof_holds(key, client, c) == ed25519_accepts(
            key.secret@,
            proof_message_of(c.rating as int, c.seq as int, client),
            c.signature,
        ),
{
}

} // verus!
