//! The messages that players and gateways exchange, and the rank tiers.
//!
//! Coordinates and speeds are carried as the bits of 32-bit floating-point
//! numbers: nothing here computes with them but [`mirror_x`], which changes a
//! sign.
use vstd::prelude::*;

verus! {

/// The protocol of the matchmaking and lobby calls. Game state has its own
/// protocol, so that the two never compete for one codec.
pub const GATEWAY_PROTOCOL: &'static str = "/pong/matchmaking/1.0.0";

/// The agent version that a gateway advertises; clients know it by this.
pub const GATEWAY_AGENT_VERSION: &'static str = "pong-gateway/1.0.0";

/// The bits of the number one.
pub const ONE_BITS: u32 = 0x3f80_0000;

/// A position on the playing field, as the bits of its coordinates.
#[derive(Clone, Copy, PartialEq, Eq, Structural, Debug)]
pub struct Point2 {
    pub x: u32,
    pub y: u32,
}

impl Default for Point2 {
    fn default() -> (r: Self)
        ensures
            r == (Point2 { x: 0, y: 0 }),
    {
        Point2 { x: 0, y: 0 }
    }
}

/// The state of the game at one moment. The host runs the simulation; the
/// other side shows it and sends back its own paddle.
#[derive(Clone, Copy, PartialEq, Eq, Structural, Debug)]
pub struct GameSnapshot {
    pub seq: u64,
    /// Whether the sender is the host.
    pub is_host: bool,
    pub ball: Point2,
    pub ball_velocity: Point2,
    /// The sender's own paddle.
    pub player_paddle: Point2,
    /// Where the sender's opponent stands.
    pub opponent_paddle: Point2,
    /// The sender's own points.
    pub player_score: u32,
    pub opponent_score: u32,
    /// Set once one of the players has reached the winning score.
    pub match_over: bool,
    /// The bits of the rally's speed multiplier.
    pub ball_speed_mult: u32,
}

impl Default for GameSnapshot {
    fn default() -> (r: Self)
        ensures
            r == (GameSnapshot {
                seq: 0,
                is_host: false,
                ball: Point2 { x: 0, y: 0 },
                ball_velocity: Point2 { x: 0, y: 0 },
                player_paddle: Point2 { x: 0, y: 0 },
                opponent_paddle: Point2 { x: 0, y: 0 },
                player_score: 0,
                opponent_score: 0,
                match_over: false,
                ball_speed_mult: 0,
            }),
    {
        let zero = Point2 { x: 0, y: 0 };
        GameSnapshot {
            seq: 0,
            is_host: false,
            ball: zero,
            ball_velocity: zero,
            player_paddle: zero,
            opponent_paddle: zero,
            player_score: 0,
            opponent_score: 0,
            match_over: false,
            ball_speed_mult: 0,
        }
    }
}

/// A snapshot that does not say how fast the ball is has it at normal speed.
pub fn default_ball_speed_mult() -> (r: u32)
    ensures
        r == ONE_BITS,
{
    ONE_BITS
}

/// The bits with the sign turned round.
pub open spec fn negated_bits(bits: u32) -> u32 {
    if bits >= 0x8000_0000 {
        (bits - 0x8000_0000) as u32
    } else {
        (bits + 0x8000_0000) as u32
    }
}

/// The point as the player on the other side sees it.
pub open spec fn mirrored_x(p: Point2) -> Point2 {
    Point2 { x: negated_bits(p.x), y: p.y }
}

pub fn negate_bits(bits: u32) -> (r: u32)
    ensures
        r == negated_bits(bits),
{
    if bits >= 0x8000_0000 {
        bits - 0x8000_0000
    } else {
        bits + 0x8000_0000
    }
}

/// Mirrors a point at the vertical middle of the field.
pub fn mirror_x(p: Point2) -> (r: Point2)
    ensures
        r == mirrored_x(p),
{
    Point2 { x: negate_bits(p.x), y: p.y }
}

/// Mirroring twice changes nothing.
pub proof fn mirroring_undoes_itself(p: Point2)
    ensures
        mirrored_x(mirrored_x(p)) == p,
{
}

/// What one player sends to the other.
#[derive(Clone, PartialEq, Eq, Debug)]
pub enum Request {
    /// A greeting after connecting, with the display name.
    Hello { name: String },
    /// Asks for a match.
    InviteToPlay,
    /// Accepts the paired match; once both have, a countdown runs.
    AcceptMatch,
    /// Cancels the pairing.
    DeclineMatch,
    /// Tells the challenger to start playing.
    MatchStart,
    /// Ends the match for both.
    MatchAbort,
    /// A fresh snapshot.
    State(GameSnapshot),
    /// The host hands its part over before it leaves.
    MigrateHost(GameSnapshot),
    /// The former guest has taken over.
    HostMigrated,
    /// A chat message.
    Chat { text: String },
}

/// What a request to a player is answered with.
#[derive(Clone, Copy, PartialEq, Eq, Structural, Debug)]
pub enum Response {
    Welcome,
    State(GameSnapshot),
    Ack,
}

/// A way to reach a player: a multiaddress as text.
pub type Addr = String;

/// The rating of a player nobody has rated yet, inside the lowest tier.
pub const DEFAULT_RATING: i32 = 800;

pub fn default_rating() -> (r: i32)
    ensures
        r == DEFAULT_RATING,
{
    DEFAULT_RATING
}

/// A rating certified by a gateway.
///
/// Every registration and every rating of a player takes the next `seq`, and an
/// answer that moves nothing certifies the standing rating under the one to
/// come, without taking it. A gateway does not take a number that is not above
/// the one it knows.
#[derive(Clone, PartialEq, Eq, Debug)]
pub struct RatingProof {
    pub rating: i32,
    pub seq: u64,
    /// The base 58 identity of the gateway that issued it.
    pub gateway: String,
    /// The signature over rating, sequence number and player.
    pub signature: Vec<u8>,
}

/// What a [`RatingProof`] says.
pub struct ProofView {
    pub rating: i32,
    pub seq: u64,
    pub gateway: Seq<char>,
    pub signature: Seq<u8>,
}

impl View for RatingProof {
    type V = ProofView;

    open spec fn view(&self) -> ProofView {
        ProofView {
            rating: self.rating,
            seq: self.seq,
            gateway: self.gateway@,
            signature: self.signature@,
        }
    }
}

pub open spec fn proof_view(p: Option<RatingProof>) -> Option<ProofView> {
    match p {
        Some(p) => Some(p@),
        None => None,
    }
}

/// A copy of the bytes.
pub fn copy_bytes(v: &Vec<u8>) -> (r: Vec<u8>)
    ensures
        r@ == v@,
{
    let mut out: Vec<u8> = Vec::new();
    out.extend_from_slice(v.as_slice());
    assert(out@ =~= v@);
    out
}

impl RatingProof {
    /// A copy.
    pub fn copied(&self) -> (r: RatingProof)
        ensures
            r@ == self@,
    {
        RatingProof {
            rating: self.rating,
            seq: self.seq,
            gateway: self.gateway.clone(),
            signature: copy_bytes(&self.signature),
        }
    }
}

/// A copy of an optional proof.
pub fn copy_proof(p: &Option<RatingProof>) -> (r: Option<RatingProof>)
    ensures
        proof_view(r) == proof_view(*p),
{
    match p {
        Some(p) => Some(p.copied()),
        None => None,
    }
}

pub fn default_no_proof() -> (r: Option<RatingProof>)
    ensures
        r is None,
{
    None
}

/// What a client asks of a gateway, and what a gateway tells a client unasked.
#[derive(Clone, PartialEq, Eq, Debug)]
pub enum GatewayRequest {
    /// Who we are, the rating that we keep and the proof of it.
    Register { username: String, rating: i32, proof: Option<RatingProof> },
    /// Puts us in the queue.
    QueueMatch,
    /// Takes us out of the queue.
    LeaveQueue,
    /// A finished match; `match_id` is zero where no gateway paired it.
    ReportResult { match_id: u64, opponent: String, my_score: u32, opponent_score: u32 },
    /// Keepalive.
    Ping,
    /// Gateway to client: a match was reserved.
    MatchFound { match_id: u64, opponent: String, addresses: Vec<Addr> },
    /// Gateway to client: a moderator revoked the match; `rating` is restored.
    MatchRevoked { match_id: u64, rating: i32, proof: Option<RatingProof> },
    /// Gateway to client: a moderator corrected the score of the match.
    MatchCorrected {
        match_id: u64,
        my_score: u32,
        opponent_score: u32,
        rating: i32,
        proof: Option<RatingProof>,
    },
}

/// What a [`GatewayRequest`] says.
pub enum GatewayRequestView {
    Register { username: Seq<char>, rating: i32, proof: Option<ProofView> },
    QueueMatch,
    LeaveQueue,
    ReportResult { match_id: u64, opponent: Seq<char>, my_score: u32, opponent_score: u32 },
    Ping,
    MatchFound { match_id: u64, opponent: Seq<char>, addresses: Seq<Seq<char>> },
    MatchRevoked { match_id: u64, rating: i32, proof: Option<ProofView> },
    MatchCorrected {
        match_id: u64,
        my_score: u32,
        opponent_score: u32,
        rating: i32,
        proof: Option<ProofView>,
    },
}

/// The texts of a vector of strings.
pub open spec fn texts(v: Seq<String>) -> Seq<Seq<char>> {
    Seq::new(v.len(), |i: int| v[i]@)
}

impl View for GatewayRequest {
    type V = GatewayRequestView;

    open spec fn view(&self) -> GatewayRequestView {
        match *self {
            GatewayRequest::Register { username, rating, proof } => GatewayRequestView::Register {
                username: username@,
                rating,
                proof: proof_view(proof),
            },
            GatewayRequest::QueueMatch => GatewayRequestView::QueueMatch,
            GatewayRequest::LeaveQueue => GatewayRequestView::LeaveQueue,
            GatewayRequest::ReportResult {
                match_id,
                opponent,
                my_score,
                opponent_score,
            } => GatewayRequestView::ReportResult {
                match_id,
                opponent: opponent@,
                my_score,
                opponent_score,
            },
            GatewayRequest::Ping => GatewayRequestView::Ping,
            GatewayRequest::MatchFound {
                match_id,
                opponent,
                addresses,
            } => GatewayRequestView::MatchFound {
                match_id,
                opponent: opponent@,
                addresses: texts(addresses@),
            },
            GatewayRequest::MatchRevoked {
                match_id,
                rating,
                proof,
            } => GatewayRequestView::MatchRevoked { match_id, rating, proof: proof_view(proof) },
            GatewayRequest::MatchCorrected {
                match_id,
                my_score,
                opponent_score,
                rating,
                proof,
            } => GatewayRequestView::MatchCorrected {
                match_id,
                my_score,
                opponent_score,
                rating,
                proof: proof_view(proof),
            },
        }
    }
}

/// What a gateway answers.
#[derive(Clone, PartialEq, Eq, Debug)]
pub enum GatewayResponse {
    /// The accepted name and rating, with a fresh proof.
    Registered { username: String, rating: i32, rank: String, proof: Option<RatingProof> },
    /// In the queue; `position` players are ahead.
    Queued { position: u32 },
    /// Out of the queue.
    Dequeued,
    /// The rating after a report, with a fresh proof.
    Rating { rating: i32, rank: String, proof: Option<RatingProof> },
    Pong,
    Error(String),
}

/// What a [`GatewayResponse`] says.
pub enum GatewayResponseView {
    Registered { username: Seq<char>, rating: i32, rank: Seq<char>, proof: Option<ProofView> },
    Queued { position: u32 },
    Dequeued,
    Rating { rating: i32, rank: Seq<char>, proof: Option<ProofView> },
    Pong,
    Error(Seq<char>),
}

impl View for GatewayResponse {
    type V = GatewayResponseView;

    open spec fn view(&self) -> GatewayResponseView {
        match *self {
            GatewayResponse::Registered {
                username,
                rating,
                rank,
                proof,
            } => GatewayResponseView::Registered {
                username: username@,
                rating,
                rank: rank@,
                proof: proof_view(proof),
            },
            GatewayResponse::Queued { position } => GatewayResponseView::Queued { position },
            GatewayResponse::Dequeued => GatewayResponseView::Dequeued,
            GatewayResponse::Rating { rating, rank, proof } => GatewayResponseView::Rating {
                rating,
                rank: rank@,
                proof: proof_view(proof),
            },
            GatewayResponse::Pong => GatewayResponseView::Pong,
            GatewayResponse::Error(text) => GatewayResponseView::Error(text@),
        }
    }
}

// ---------------------------------------------------------------------------
// Ranks
// ---------------------------------------------------------------------------

/// The rank tiers, from the lowest to the highest.
pub const RANKS: [&'static str; 9] = [
    "Brick",
    "Bronze",
    "Silver",
    "Gold",
    "Platinum",
    "Diamond",
    "Obsidian",
    "Pong Master",
    "Pong Legend",
];

/// The lowest rating of each tier.
pub const RANK_THRESHOLDS: [i32; 9] = [0, 1000, 1200, 1400, 1600, 1800, 2000, 2200, 2400];

/// Whether `idx` is the tier of `rating`: the highest one whose threshold it
/// reaches, or the lowest one of all.
pub open spec fn is_rank(rating: int, idx: int) -> bool {
    &&& 0 <= idx < 9
    &&& idx > 0 ==> rating >= RANK_THRESHOLDS[idx]
    &&& forall|j: int| idx < j < 9 ==> rating < RANK_THRESHOLDS[j]
}

/// The tier of a rating.
pub open spec fn rank_of(rating: int) -> int {
    if rating < 1000 {
        0
    } else if rating >= 2400 {
        8
    } else {
        (rating - 800) / 200
    }
}

/// The tier of `rating` as an index.
pub fn rank_index(rating: i32) -> (r: usize)
    ensures
        r == rank_of(rating as int),
        is_rank(rating as int, r as int),
{
    let mut idx: usize = 0;
    let mut i: usize = 0;
    while i < 9
        invariant
            0 <= i <= 9,
            0 <= idx < 9,
            idx > 0 ==> rating >= RANK_THRESHOLDS[idx as int],
            forall|j: int| idx < j < i ==> rating < RANK_THRESHOLDS[j],
        decreases 9 - i,
    {
        if rating >= RANK_THRESHOLDS[i] {
            idx = i;
        }
        i += 1;
    }
    proof {
        rank_is_its_tier(rating as int);
        one_tier_only(rating as int, idx as int, rank_of(rating as int));
    }
    idx
}

/// [`rank_of`] is the tier that the thresholds give.
pub proof fn rank_is_its_tier(rating: int)
    ensures
        is_rank(rating, rank_of(rating)),
{
}

/// A rating belongs to one tier only.
pub proof fn one_tier_only(rating: int, i: int, j: int)
    requires
        is_rank(rating, i),
        is_rank(rating, j),
    ensures
        i == j,
{
}

/// A higher rating never has a lower rank.
pub proof fn ranks_grow_with_ratings(a: int, b: int)
    requires
        a <= b,
    ensures
        rank_of(a) <= rank_of(b),
{
}

/// The name of the rank of `rating`.
pub fn rank_for_rating(rating: i32) -> (r: &'static str)
    ensures
        r == RANKS[rank_of(rating as int)],
{
    RANKS[rank_index(rating)]
}

/// The rank above that of `rating`, unless that is the top tier.
pub fn next_rank_name(rating: i32) -> (r: Option<&'static str>)
    ensures
        r is None <==> rating >= 2400,
        r matches Some(name) ==> name == RANKS[rank_of(rating as int) + 1],
{
    let next: usize = rank_index(rating) + 1;
    if next < 9 {
        Some(RANKS[next])
    } else {
        None
    }
}

/// How far a rating has come in its tier, as a fraction.
#[derive(Clone, Copy, PartialEq, Eq, Structural, Debug)]
pub struct Progress {
    pub done: u32,
    pub of: u32,
}

/// The points above the floor of the tier, and the points from that floor to
/// the next one; the whole way in the top tier, and none below zero.
pub open spec fn rank_progress_of(rating: int) -> Progress {
    if rating >= 2400 {
        Progress { done: 1, of: 1 }
    } else if rating < 0 {
        Progress { done: 0, of: 1000 }
    } else if rating < 1000 {
        Progress { done: rating as u32, of: 1000 }
    } else {
        Progress { done: (rating % 200) as u32, of: 200 }
    }
}

/// How close `rating` is to the next rank.
pub fn rank_progress(rating: i32) -> (r: Progress)
    ensures
        r == rank_progress_of(rating as int),
        r.done <= r.of,
        r.of > 0,
{
    let idx: usize = rank_index(rating);
    if idx == 8 {
        return Progress { done: 1, of: 1 };
    }
    let floor: i32 = RANK_THRESHOLDS[idx];
    let next: i32 = RANK_THRESHOLDS[idx + 1];
    if rating < floor {
        Progress { done: 0, of: (next - floor) as u32 }
    } else {
        Progress { done: (rating - floor) as u32, of: (next - floor) as u32 }
    }
}

// ---------------------------------------------------------------------------
// Laws
// ---------------------------------------------------------------------------

/// Mirroring moves a point to the other side at the same height: only the sign
/// of the horizontal place changes.
pub proof fn mirroring_changes_the_side(p: Point2)
    ensures
        mirrored_x(p).y == p.y,
        p.x < 0x8000_0000 ==> mirrored_x(p).x == p.x + 0x8000_0000,
        p.x >= 0x8000_0000 ==> mirrored_x(p).x == p.x - 0x8000_0000,
        mirrored_x(p) != p,
{
}

/// The tiers: everything below a thousand is the first, everything from 2400
/// the last, and every two hundred points between them bring the next.
pub proof fn two_hundred_points_make_a_tier(rating: int)
    ensures
        0 <= rank_of(rating) <= 8,
        rank_of(rating) == 0 <==> rating < 1000,
        rank_of(rating) == 8 <==> rating >= 2400,
        1000 <= rating < 2400 ==> 800 + 200 * rank_of(rating) <= rating < 1000 + 200 * rank_of(
            rating,
        ),
        rating < 2200 && rating >= 800 ==> rank_of(rating + 200) == rank_of(rating) + 1,
{
}

/// The way through a tier: from its floor to the next one, a point at a time.
pub proof fn progress_counts_the_points(rating: int)
    ensures
        ({
            let p = rank_progress_of(rating);
            &&& p.done <= p.of
            &&& rating >= 2400 <==> p.done == p.of
            &&& 0 <= rating < 1000 ==> p.done == rating && p.of == 1000
            &&& rating <= 0 ==> p.done == 0 && p.of == 1000
            &&& 1000 <= rating < 2400 ==> p.of == 200 && p.done == rating - 800 - 200 * rank_of(
                rating,
            )
        }),
{
}

} // verus!
