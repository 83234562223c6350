//! The rules around the simulation: points and victory, handing the part of
//! the host over, the pace of the simulation, and which snapshots count.
//!
//! Positions and speeds are carried as the bits of 32-bit floating-point
//! numbers; the physics that moves them is not here.
use vstd::prelude::*;

use crate::client::{to_player, ReconnectionState};
use crate::net::{command_views, no_commands, send, NetCommand, NetCommandView};
use crate::peer::PeerId;
use crate::protocol::{GameSnapshot, Point2, Request, ONE_BITS};
use crate::text::{decimal, decimal_of};

verus! {

/// Who has this many points first has won.
pub const WIN_SCORE: u32 = 5;

/// The bits of the fastest rally, two and a half times the normal speed.
pub const MAX_SPEED_BITS: u32 = 0x4020_0000;

/// The bits of the horizontal places of the two paddles, 380 to the left and
/// to the right.
pub const LEFT_X_BITS: u32 = 0xc3be_0000;

pub const RIGHT_X_BITS: u32 = 0x43be_0000;

/// The bits of the first velocity of the ball, two to the left and two up.
pub const SERVE_X_BITS: u32 = 0xc000_0000;

pub const SERVE_Y_BITS: u32 = 0x4000_0000;

/// The time between two steps of the simulation.
pub const FIXED_DT_NANOS: u64 = 15_625_000;

/// How many steps are made up for after a stall.
pub const MAX_STEPS: u64 = 8;

/// The time between two snapshots.
pub const SNAPSHOT_DT_NANOS: u64 = 33_333_000;

// ---------------------------------------------------------------------------
// Points
// ---------------------------------------------------------------------------

/// The points of both sides and whether the match is over.
#[derive(Clone, Copy, PartialEq, Eq, Structural, Debug)]
pub struct Score {
    pub player: u32,
    pub opponent: u32,
    pub over: bool,
}

/// The points after a goal; a match that is over takes none.
pub open spec fn scored(s: Score, by_player: bool) -> Score {
    if s.over {
        s
    } else {
        let player = if by_player {
            (s.player + 1) as u32
        } else {
            s.player
        };
        let opponent = if by_player {
            s.opponent
        } else {
            (s.opponent + 1) as u32
        };
        Score { player, opponent, over: player >= WIN_SCORE || opponent >= WIN_SCORE }
    }
}

impl Score {
    /// No points yet.
    pub fn new() -> (r: Score)
        ensures
            r == (Score { player: 0, opponent: 0, over: false }),
    {
        Score { player: 0, opponent: 0, over: false }
    }

    /// A goal was made.
    pub fn goal(&mut self, by_player: bool)
        requires
            old(self).player < u32::MAX,
            old(self).opponent < u32::MAX,
        ensures
            *final(self) == scored(*old(self), by_player),
    {
        if self.over {
            return ;
        }
        if by_player {
            self.player += 1;
        } else {
            self.opponent += 1;
        }
        self.over = self.player >= WIN_SCORE || self.opponent >= WIN_SCORE;
    }
}

/// Whether points are those of a match that is being played by the rules.
pub open spec fn fair(s: Score) -> bool {
    &&& s.player <= WIN_SCORE
    &&& s.opponent <= WIN_SCORE
    &&& s.over <==> s.player == WIN_SCORE || s.opponent == WIN_SCORE
    &&& !(s.player == WIN_SCORE && s.opponent == WIN_SCORE)
}

/// A match ends exactly when a side has the winning score, and then nothing
/// changes any more.
pub proof fn matches_end_at_the_winning_score(s: Score, by_player: bool)
    requires
        fair(s),
    ensures
        fair(scored(s, by_player)),
        s.over ==> scored(s, by_player) == s,
        !s.over ==> scored(s, by_player).player + scored(s, by_player).opponent == s.player
            + s.opponent + 1,
{
}

/// The points to show: the host's own, or those of the host with the sides
/// changed; none before the host has sent any.
pub open spec fn shown_score(is_host: bool, s: Score, world: Option<GameSnapshot>) -> Option<
    (u32, u32),
> {
    if is_host {
        Some((s.player, s.opponent))
    } else {
        match world {
            Some(w) => Some((w.opponent_score, w.player_score)),
            None => None,
        }
    }
}

pub fn displayed_score(is_host: bool, score: &Score, world: &Option<GameSnapshot>) -> (r: Option<
    (u32, u32),
>)
    ensures
        r == shown_score(is_host, *score, *world),
{
    if is_host {
        Some((score.player, score.opponent))
    } else {
        match world {
            Some(w) => Some((w.opponent_score, w.player_score)),
            None => None,
        }
    }
}

/// Whether the match is over: the host's own word for it, or what the host has
/// sent; not before it has sent anything.
pub open spec fn over_of(is_host: bool, s: Score, world: Option<GameSnapshot>) -> bool {
    if is_host {
        s.over
    } else {
        world is Some && world->0.match_over
    }
}

pub fn match_is_over(is_host: bool, score: &Score, world: &Option<GameSnapshot>) -> (r: bool)
    ensures
        r == over_of(is_host, *score, *world),
{
    if is_host {
        score.over
    } else {
        match world {
            Some(w) => w.match_over,
            None => false,
        }
    }
}

/// The words at the end of a match.
pub open spec fn final_words(player: u32, opponent: u32) -> Seq<char> {
    if player > opponent {
        "You win! "@ + decimal_of(player as nat) + " - "@ + decimal_of(opponent as nat)
    } else if player == 0 && opponent >= WIN_SCORE {
        "YOU JUST GOT PONGED!"@
    } else {
        "You lose! "@ + decimal_of(player as nat) + " - "@ + decimal_of(opponent as nat)
    }
}

pub fn game_over_title(player: u32, opponent: u32) -> (r: String)
    ensures
        r@ == final_words(player, opponent),
{
    if player <= opponent && player == 0 && opponent >= WIN_SCORE {
        return "YOU JUST GOT PONGED!".to_owned();
    }
    let mut out = if player > opponent {
        "You win! ".to_owned()
    } else {
        "You lose! ".to_owned()
    };
    out.append(decimal(player as u64).as_str());
    out.append(" - ");
    out.append(decimal(opponent as u64).as_str());
    out
}

// ---------------------------------------------------------------------------
// The host's part
// ---------------------------------------------------------------------------

/// What the simulation works on.
#[derive(Clone, Copy, PartialEq, Eq, Structural, Debug)]
pub struct SimState {
    pub ball: Point2,
    pub ball_velocity: Point2,
    pub player_paddle: Point2,
    pub opponent_paddle: Point2,
    /// Where the opponent's paddle is going.
    pub opponent_target_y: u32,
    pub player_velocity: u32,
    pub score: Score,
    /// The bits of the rally's speed multiplier.
    pub speed: u32,
    pub seq: u64,
}

/// Whether bits stand for something that is not a number.
pub open spec fn is_nan_bits(bits: u32) -> bool {
    bits % 0x8000_0000 > 0x7f80_0000
}

/// The speed brought between the normal one and the fastest.
pub open spec fn clamped_speed(bits: u32) -> u32 {
    if is_nan_bits(bits) {
        bits
    } else if bits >= 0x8000_0000 || bits < ONE_BITS {
        ONE_BITS
    } else if bits > MAX_SPEED_BITS {
        MAX_SPEED_BITS
    } else {
        bits
    }
}

/// Brings a speed between the normal one and the fastest. Bits of numbers
/// without a sign are ordered as the numbers are.
pub fn clamp_speed(bits: u32) -> (r: u32)
    ensures
        r == clamped_speed(bits),
{
    if bits % 0x8000_0000 > 0x7f80_0000 {
        bits
    } else if bits >= 0x8000_0000 || bits < ONE_BITS {
        ONE_BITS
    } else if bits > MAX_SPEED_BITS {
        MAX_SPEED_BITS
    } else {
        bits
    }
}

/// The start of a match.
pub open spec fn fresh_state() -> SimState {
    SimState {
        ball: Point2 { x: 0, y: 0 },
        ball_velocity: Point2 { x: SERVE_X_BITS, y: SERVE_Y_BITS },
        player_paddle: Point2 { x: LEFT_X_BITS, y: 0 },
        opponent_paddle: Point2 { x: RIGHT_X_BITS, y: 0 },
        opponent_target_y: 0,
        player_velocity: 0,
        score: Score { player: 0, opponent: 0, over: false },
        speed: ONE_BITS,
        seq: 0,
    }
}

/// The state of a new host that goes on from what the old one sent: the sides
/// are changed, since each player is on the left of their own field.
pub open spec fn seeded_state(s: GameSnapshot) -> SimState {
    SimState {
        ball: s.ball,
        ball_velocity: s.ball_velocity,
        player_paddle: Point2 { x: LEFT_X_BITS, y: s.opponent_paddle.y },
        opponent_paddle: Point2 { x: RIGHT_X_BITS, y: s.player_paddle.y },
        opponent_target_y: s.player_paddle.y,
        player_velocity: 0,
        score: Score {
            player: s.opponent_score,
            opponent: s.player_score,
            over: s.match_over,
        },
        speed: clamped_speed(s.ball_speed_mult),
        seq: s.seq,
    }
}

/// What a host sends.
pub open spec fn snapshot_of(st: SimState) -> GameSnapshot {
    GameSnapshot {
        seq: st.seq,
        is_host: true,
        ball: st.ball,
        ball_velocity: st.ball_velocity,
        player_paddle: st.player_paddle,
        opponent_paddle: st.opponent_paddle,
        player_score: st.score.player,
        opponent_score: st.score.opponent,
        match_over: st.score.over,
        ball_speed_mult: st.speed,
    }
}

/// What is told to a running simulation.
#[derive(Clone, Copy, PartialEq, Eq, Structural, Debug)]
pub enum SimCommand {
    /// The bits of the own paddle's velocity.
    SetPlayerVelocity(u32),
    /// The bits of the height of the other paddle.
    RemotePaddle(u32),
}

impl SimState {
    /// The start of a match, or of the rest of one.
    pub fn new(seed: Option<GameSnapshot>) -> (r: SimState)
        ensures
            r == match seed {
                Some(s) => seeded_state(s),
                None => fresh_state(),
            },
    {
        match seed {
            None => SimState {
                ball: Point2 { x: 0, y: 0 },
                ball_velocity: Point2 { x: SERVE_X_BITS, y: SERVE_Y_BITS },
                player_paddle: Point2 { x: LEFT_X_BITS, y: 0 },
                opponent_paddle: Point2 { x: RIGHT_X_BITS, y: 0 },
                opponent_target_y: 0,
                player_velocity: 0,
                score: Score::new(),
                speed: ONE_BITS,
                seq: 0,
            },
            Some(s) => SimState {
                ball: s.ball,
                ball_velocity: s.ball_velocity,
                player_paddle: Point2 { x: LEFT_X_BITS, y: s.opponent_paddle.y },
                opponent_paddle: Point2 { x: RIGHT_X_BITS, y: s.player_paddle.y },
                opponent_target_y: s.player_paddle.y,
                player_velocity: 0,
                score: Score {
                    player: s.opponent_score,
                    opponent: s.player_score,
                    over: s.match_over,
                },
                speed: clamp_speed(s.ball_speed_mult),
                seq: s.seq,
            },
        }
    }

    /// Takes a command.
    pub fn apply(&mut self, command: SimCommand)
        ensures
            *final(self) == match command {
                SimCommand::SetPlayerVelocity(v) => SimState { player_velocity: v, ..*old(self) },
                SimCommand::RemotePaddle(y) => SimState { opponent_target_y: y, ..*old(self) },
            },
    {
        match command {
            SimCommand::SetPlayerVelocity(v) => {
                self.player_velocity = v;
            },
            SimCommand::RemotePaddle(y) => {
                self.opponent_target_y = y;
            },
        }
    }

    /// What the host sends.
    pub fn build_snapshot(&self) -> (r: GameSnapshot)
        ensures
            r == snapshot_of(*self),
    {
        GameSnapshot {
            seq: self.seq,
            is_host: true,
            ball: self.ball,
            ball_velocity: self.ball_velocity,
            player_paddle: self.player_paddle,
            opponent_paddle: self.opponent_paddle,
            player_score: self.score.player,
            opponent_score: self.score.opponent,
            match_over: self.score.over,
            ball_speed_mult: self.speed,
        }
    }
}

/// Handing the host's part over keeps the match: ball, numbering and end stay,
/// points and paddles change sides, and handing it back restores them.
pub proof fn handing_over_keeps_the_match(st: SimState)
    requires
        clamped_speed(st.speed) == st.speed,
        st.player_paddle.x == LEFT_X_BITS,
        st.opponent_paddle.x == RIGHT_X_BITS,
    ensures
        ({
            let there = seeded_state(snapshot_of(st));
            let back = seeded_state(snapshot_of(there));
            &&& there.ball == st.ball
            &&& there.speed == st.speed
            &&& there.seq == st.seq
            &&& there.score == (Score {
                player: st.score.opponent,
                opponent: st.score.player,
                over: st.score.over,
            })
            &&& back.score == st.score
            &&& back.player_paddle == st.player_paddle
            &&& back.opponent_paddle == st.opponent_paddle
        }),
{
}

/// A speed that was brought between the limits stays as it is.
pub proof fn clamping_is_stable(bits: u32)
    ensures
        clamped_speed(clamped_speed(bits)) == clamped_speed(bits),
{
}

// ---------------------------------------------------------------------------
// The pace
// ---------------------------------------------------------------------------

/// The time that the simulation still has to make up for, and the time since
/// the last snapshot, in nanoseconds.
#[derive(Clone, Copy, PartialEq, Eq, Structural, Debug)]
pub struct SimClock {
    pub owed: u64,
    pub since_snapshot: u64,
}

/// The time owed after more has passed, as far as it is made up for.
pub open spec fn owed_after(owed: u64, elapsed: u64) -> int {
    if owed + elapsed > FIXED_DT_NANOS * MAX_STEPS {
        FIXED_DT_NANOS * MAX_STEPS
    } else {
        owed + elapsed
    }
}

/// What is due: so many steps, and a snapshot or not.
#[derive(Clone, Copy, PartialEq, Eq, Structural, Debug)]
pub struct Due {
    pub steps: u64,
    pub snapshot: bool,
}

impl SimClock {
    pub fn new() -> (r: SimClock)
        ensures
            r == (SimClock { owed: 0, since_snapshot: 0 }),
    {
        SimClock { owed: 0, since_snapshot: 0 }
    }

    /// Time has passed: tells what is due.
    pub fn advance(&mut self, elapsed: u64) -> (r: Due)
        ensures
            r.steps == owed_after(old(self).owed, elapsed) / FIXED_DT_NANOS as int,
            final(self).owed == owed_after(old(self).owed, elapsed) % FIXED_DT_NANOS as int,
            r.snapshot == (old(self).since_snapshot + elapsed >= SNAPSHOT_DT_NANOS),
            final(self).since_snapshot == if r.snapshot {
                0
            } else {
                old(self).since_snapshot + elapsed
            },
            r.steps <= MAX_STEPS,
    {
        let limit: u64 = FIXED_DT_NANOS * MAX_STEPS;
        let total: u64 = self.owed.saturating_add(elapsed);
        let owed: u64 = if total > limit {
            limit
        } else {
            total
        };
        let since: u64 = self.since_snapshot.saturating_add(elapsed);
        let snapshot = since >= SNAPSHOT_DT_NANOS;
        self.owed = owed % FIXED_DT_NANOS;
        self.since_snapshot = if snapshot {
            0
        } else {
            since
        };
        Due { steps: owed / FIXED_DT_NANOS, snapshot }
    }
}

/// Short of a stall no time is lost: the steps and what is still owed are all
/// the time that has passed.
pub proof fn no_time_is_lost(owed: u64, elapsed: u64)
    requires
        owed + elapsed <= FIXED_DT_NANOS * MAX_STEPS,
    ensures
        (owed_after(owed, elapsed) / FIXED_DT_NANOS as int) * FIXED_DT_NANOS + owed_after(
            owed,
            elapsed,
        ) % FIXED_DT_NANOS as int == owed + elapsed,
{
    vstd::arithmetic::div_mod::lemma_fundamental_div_mod(
        owed_after(owed, elapsed),
        FIXED_DT_NANOS as int,
    );
}

// ---------------------------------------------------------------------------
// Snapshots of the other side
// ---------------------------------------------------------------------------

/// The last two snapshots of the other side.
#[derive(Clone, Copy, PartialEq, Eq, Structural, Debug)]
pub struct RemoteFrames {
    pub prev: Option<GameSnapshot>,
    pub curr: Option<GameSnapshot>,
}

/// Whether a snapshot is newer than what is there.
pub open spec fn is_newer(f: RemoteFrames, next: GameSnapshot) -> bool {
    match f.curr {
        Some(c) => next.seq > c.seq,
        None => true,
    }
}

/// The frames after a snapshot has come: an old one changes nothing.
pub open spec fn promoted(f: RemoteFrames, next: GameSnapshot) -> RemoteFrames {
    if is_newer(f, next) {
        RemoteFrames { prev: f.curr, curr: Some(next) }
    } else {
        f
    }
}

impl RemoteFrames {
    /// Nothing was received yet.
    pub fn new() -> (r: RemoteFrames)
        ensures
            r == (RemoteFrames { prev: None, curr: None }),
    {
        RemoteFrames { prev: None, curr: None }
    }

    /// A snapshot has come; tells whether it is a new one.
    pub fn promote(&mut self, next: GameSnapshot) -> (r: bool)
        ensures
            *final(self) == promoted(*old(self), next),
            r == is_newer(*old(self), next),
    {
        let newer = match self.curr {
            Some(c) => next.seq > c.seq,
            None => true,
        };
        if newer {
            self.prev = self.curr;
            self.curr = Some(next);
        }
        newer
    }
}

/// Whatever comes in whatever order, the newest snapshot is the one shown.
pub proof fn snapshots_never_go_back(f: RemoteFrames, next: GameSnapshot)
    requires
        f.prev matches Some(p) ==> f.curr matches Some(c) && p.seq < c.seq,
    ensures
        f.curr matches Some(c) ==> promoted(f, next).curr->0.seq >= c.seq,
        promoted(f, next).curr->0.seq >= next.seq,
        promoted(f, next).prev matches Some(p) ==> p.seq < promoted(f, next).curr->0.seq,
{
}

/// What a guest sees of its own field.
#[derive(Clone, Copy, PartialEq, Eq, Structural, Debug)]
pub struct GuestView {
    pub ball: Point2,
    pub ball_velocity: Point2,
    pub player_paddle: Point2,
    pub opponent_paddle: Point2,
}

/// What a guest sends: its paddle, and the rest as it sees it.
pub open spec fn guest_snapshot(
    seq: u64,
    is_host: bool,
    v: GuestView,
    score: Score,
    world: Option<GameSnapshot>,
) -> GameSnapshot {
    GameSnapshot {
        seq,
        is_host,
        ball: v.ball,
        ball_velocity: v.ball_velocity,
        player_paddle: v.player_paddle,
        opponent_paddle: v.opponent_paddle,
        player_score: score.player,
        opponent_score: score.opponent,
        match_over: false,
        ball_speed_mult: match world {
            Some(w) => w.ball_speed_mult,
            None => ONE_BITS,
        },
    }
}

/// Sends a snapshot to the opponent, if there is one who has not dropped out.
pub fn broadcast_snapshot(
    seq: &mut u64,
    is_host: bool,
    view: &GuestView,
    score: &Score,
    world: &Option<GameSnapshot>,
    rival: &Option<PeerId>,
    reconn: &ReconnectionState,
) -> (r: Vec<NetCommand>)
    requires
        *old(seq) < u64::MAX,
    ensures
        match rival {
            Some(peer) if !reconn.active => {
                &&& *final(seq) == *old(seq) + 1
                &&& command_views(r@) == seq![
                    to_player(
                        *peer,
                        Request::State(guest_snapshot(*old(seq), is_host, *view, *score, *world)),
                    ),
                ]
            },
            _ => *final(seq) == *old(seq) && command_views(r@) == Seq::<NetCommandView>::empty(),
        },
{
    let mut out = no_commands();
    if reconn.active {
        return out;
    }
    match rival {
        None => {},
        Some(peer) => {
            let snapshot = GameSnapshot {
                seq: *seq,
                is_host,
                ball: view.ball,
                ball_velocity: view.ball_velocity,
                player_paddle: view.player_paddle,
                opponent_paddle: view.opponent_paddle,
                player_score: score.player,
                opponent_score: score.opponent,
                match_over: false,
                ball_speed_mult: match world {
                    Some(w) => w.ball_speed_mult,
                    None => ONE_BITS,
                },
            };
            *seq = *seq + 1;
            send(
                &mut out,
                NetCommand::SendRequest { peer: *peer, request: Request::State(snapshot) },
            );
            assert(command_views(out@) =~= seq![to_player(*peer, Request::State(snapshot))]);
        },
    }
    out
}

// ---------------------------------------------------------------------------
// Laws
// ---------------------------------------------------------------------------

/// A goal in a match that goes on counts once, for the side that made it; five
/// points end the match, and before that it goes on.
pub proof fn goals_count_for_their_side(s: Score, by_player: bool)
    requires
        !s.over,
        s.player < 5,
        s.opponent < 5,
    ensures
        by_player ==> scored(s, by_player).player == s.player + 1 && scored(s, by_player).opponent
            == s.opponent,
        !by_player ==> scored(s, by_player).opponent == s.opponent + 1 && scored(
            s,
            by_player,
        ).player == s.player,
        scored(s, by_player).over <==> (by_player && s.player == 4 || !by_player && s.opponent
            == 4),
{
}

/// A match that is over stays as it is, whoever scores.
pub proof fn finished_matches_take_no_goals(s: Score, by_player: bool)
    requires
        s.over,
    ensures
        scored(s, by_player).player == s.player,
        scored(s, by_player).opponent == s.opponent,
        scored(s, by_player).over,
{
}

/// Both players are shown the same points, each their own first, and the same
/// end of the match, once the guest has what the host has sent.
pub proof fn both_players_see_the_same_match(host: SimState, guest: Score)
    ensures
        ({
            let sent = Some(snapshot_of(host));
            let there = shown_score(false, guest, sent);
            let here = shown_score(true, host.score, None);
            &&& here == Some((host.score.player, host.score.opponent))
            &&& there == Some((host.score.opponent, host.score.player))
            &&& shown_score(false, guest, None) is None
            &&& over_of(false, guest, sent) == host.score.over
            &&& over_of(true, host.score, None) == host.score.over
            &&& !over_of(false, guest, None)
        }),
{
}

/// What a host sends is its state: ball, both paddles, points, end and speed as
/// they are, under its number.
pub proof fn snapshots_tell_the_state(st: SimState)
    ensures
        ({
            let s = snapshot_of(st);
            &&& s.ball.x == st.ball.x && s.ball.y == st.ball.y
            &&& s.ball_velocity.x == st.ball_velocity.x && s.ball_velocity.y == st.ball_velocity.y
            &&& s.player_paddle.x == st.player_paddle.x && s.player_paddle.y == st.player_paddle.y
            &&& s.opponent_paddle.x == st.opponent_paddle.x && s.opponent_paddle.y
                == st.opponent_paddle.y
            &&& s.player_score == st.score.player && s.opponent_score == st.score.opponent
            &&& s.match_over == st.score.over
            &&& s.ball_speed_mult == st.speed
            &&& s.seq == st.seq
            &&& s.is_host
        }),
{
}

/// Whoever takes over goes on from the last snapshot: the ball is where it was
/// and moves as it did, the numbering goes on, the new host keeps the paddle
/// and the points that were theirs, and the old host's go to the other side,
/// whose paddle stays where it is until told.
pub proof fn rallies_go_on_after_a_takeover(s: GameSnapshot)
    ensures
        ({
            let st = seeded_state(s);
            &&& st.ball.x == s.ball.x && st.ball.y == s.ball.y
            &&& st.ball_velocity.x == s.ball_velocity.x && st.ball_velocity.y == s.ball_velocity.y
            &&& st.seq == s.seq
            &&& st.score.player == s.opponent_score && st.score.opponent == s.player_score
            &&& st.score.over == s.match_over
            &&& st.player_paddle.y == s.opponent_paddle.y
            &&& st.opponent_paddle.y == s.player_paddle.y
            &&& st.opponent_target_y == st.opponent_paddle.y
            &&& st.player_velocity == 0
        }),
{
}

/// Handing over keeps the motion of the ball, and what the players are shown:
/// the new host sees the points that it was shown as a guest.
pub proof fn handing_over_keeps_the_motion(st: SimState, guest: Score)
    ensures
        ({
            let s = snapshot_of(st);
            let there = seeded_state(s);
            &&& there.ball == st.ball
            &&& there.ball_velocity == st.ball_velocity
            &&& shown_score(true, there.score, None) == shown_score(false, guest, Some(s))
            &&& over_of(true, there.score, None) == over_of(false, guest, Some(s))
            &&& snapshot_of(there).ball_velocity == s.ball_velocity
            &&& snapshot_of(there).seq == s.seq
        }),
{
}

/// Every host has its own paddle on the left and the other one on the right,
/// level with each other at the start of a match, where the ball is served from
/// the middle and nobody has points.
pub proof fn fields_are_laid_out_alike(s: GameSnapshot)
    ensures
        seeded_state(s).player_paddle.x == fresh_state().player_paddle.x,
        seeded_state(s).opponent_paddle.x == fresh_state().opponent_paddle.x,
        fresh_state().player_paddle.x == fresh_state().opponent_paddle.x + 0x8000_0000,
        fresh_state().player_paddle.y == 0 && fresh_state().opponent_paddle.y == 0,
        fresh_state().ball == (Point2 { x: 0, y: 0 }),
        fresh_state().ball_velocity.x != 0 && fresh_state().ball_velocity.y != 0,
        fresh_state().score.player == 0 && fresh_state().score.opponent == 0,
        !fresh_state().score.over,
        fresh_state().seq == 0,
        clamped_speed(fresh_state().speed) == fresh_state().speed,
{
}

/// The speed of a rally is never below the normal one nor above two and a half
/// times it, and one between these is kept. (Bits of positive numbers are
/// ordered as the numbers are.)
pub proof fn speeds_stay_between_the_limits(bits: u32)
    requires
        bits <= 0x7f80_0000 || 0x8000_0000 <= bits <= 0xff80_0000,
    ensures
        0x3f80_0000 <= clamped_speed(bits) <= 0x4020_0000,
        0x3f80_0000 <= bits <= 0x4020_0000 ==> clamped_speed(bits) == bits,
        bits < 0x3f80_0000 || bits >= 0x8000_0000 ==> clamped_speed(bits) == 0x3f80_0000,
        0x4020_0000 < bits < 0x8000_0000 ==> clamped_speed(bits) == 0x4020_0000,
{
}

/// A snapshot with a higher number than the one shown is shown as it was sent,
/// in all of its parts, and the one shown before becomes the previous one; the
/// first one is shown whatever its number.
pub proof fn newer_snapshots_are_shown_whole(f: RemoteFrames, next: GameSnapshot)
    requires
        f.curr is None || next.seq > f.curr->0.seq,
    ensures
        promoted(f, next).curr == Some(next),
        promoted(f, next).prev == f.curr,
{
}

/// A snapshot that is late or comes again changes nothing.
pub proof fn late_snapshots_are_dropped(f: RemoteFrames, next: GameSnapshot)
    requires
        f.curr is Some,
        next.seq <= f.curr->0.seq,
    ensures
        promoted(f, next).curr == f.curr,
        promoted(f, next).prev == f.prev,
{
}

/// The frames after all of these snapshots have come.
pub open spec fn after_snapshots(f: RemoteFrames, sent: Seq<GameSnapshot>) -> RemoteFrames
    decreases sent.len(),
{
    if sent.len() == 0 {
        f
    } else {
        promoted(after_snapshots(f, sent.drop_last()), sent.last())
    }
}

/// What is shown is always something that was received, and of all that was
/// received nothing is newer.
pub proof fn the_newest_received_is_shown(sent: Seq<GameSnapshot>)
    requires
        sent.len() > 0,
    ensures
        ({
            let f = after_snapshots(RemoteFrames { prev: None, curr: None }, sent);
            &&& f.curr is Some
            &&& sent.contains(f.curr->0)
            &&& f.prev is Some ==> sent.contains(f.prev->0)
            &&& forall|i: int| 0 <= i < sent.len() ==> (#[trigger] sent[i]).seq <= f.curr->0.seq
        }),
    decreases sent.len(),
{
    let before = sent.drop_last();
    let none = RemoteFrames { prev: None, curr: None };
    assert(sent[sent.len() - 1] == sent.last());
    if before.len() > 0 {
        the_newest_received_is_shown(before);
        let f = after_snapshots(none, before);
        let k = choose|k: int| 0 <= k < before.len() && before[k] == f.curr->0;
        assert(sent[k] == f.curr->0);
        if f.prev is Some {
            let j = choose|j: int| 0 <= j < before.len() && before[j] == f.prev->0;
            assert(sent[j] == f.prev->0);
        }
        assert forall|i: int| 0 <= i < sent.len() implies (#[trigger] sent[i]).seq <= promoted(
            f,
            sent.last(),
        ).curr->0.seq by {
            if i < before.len() {
                assert(before[i] == sent[i]);
            }
        }
    } else {
        assert(after_snapshots(none, before) == none);
    }
}

/// What a guest sends has its own paddle and what it sees, under the number
/// given, with the speed that the host last told.
pub proof fn guests_send_what_they_see(
    seq: u64,
    v: GuestView,
    score: Score,
    world: Option<GameSnapshot>,
)
    ensures
        ({
            let s = guest_snapshot(seq, false, v, score, world);
            &&& s.seq == seq
            &&& !s.is_host
            &&& guest_snapshot(seq, true, v, score, world).is_host
            &&& s.ball == v.ball && s.ball_velocity == v.ball_velocity
            &&& s.player_paddle == v.player_paddle && s.opponent_paddle == v.opponent_paddle
            &&& s.player_score == score.player && s.opponent_score == score.opponent
            &&& !s.match_over
            &&& world is Some ==> s.ball_speed_mult == world->0.ball_speed_mult
            &&& world is None ==> s.ball_speed_mult == 0x3f80_0000
        }),
{
}

/// A stall is made up for by eight steps of a sixty-fourth of a second at most,
/// and otherwise nothing is lost.
pub proof fn stalls_are_cut_short(owed: u64, elapsed: u64)
    ensures
        owed + elapsed <= 125_000_000 ==> owed_after(owed, elapsed) == owed + elapsed,
        owed + elapsed > 125_000_000 ==> owed_after(owed, elapsed) == 125_000_000,
        64 * FIXED_DT_NANOS == 1_000_000_000,
        MAX_STEPS == 8,
{
}

/// The words at the end tell the winner that they won and the loser that they
/// lost, with their own points first; five to nothing has words of its own.
pub proof fn winners_are_told_that_they_won(player: u32, opponent: u32)
    ensures
        player > opponent ==> final_words(player, opponent).take(9) == "You win! "@,
        player <= opponent && !(player == 0 && opponent >= 5) ==> final_words(
            player,
            opponent,
        ).take(10) == "You lose! "@,
        player > opponent ==> final_words(player, opponent).skip(9) == decimal_of(player as nat)
            + " - "@ + decimal_of(opponent as nat),
        player <= opponent && !(player == 0 && opponent >= 5) ==> final_words(
            player,
            opponent,
        ).skip(10) == decimal_of(player as nat) + " - "@ + decimal_of(opponent as nat),
        player == 0 && opponent >= 5 ==> final_words(player, opponent) == "YOU JUST GOT PONGED!"@,
{
    reveal_strlit("You win! ");
    reveal_strlit("You lose! ");
    let points = decimal_of(player as nat) + " - "@ + decimal_of(opponent as nat);
    if player > opponent {
        assert(final_words(player, opponent) =~= "You win! "@ + points);
    } else if !(player == 0 && opponent >= 5) {
        assert(final_words(player, opponent) =~= "You lose! "@ + points);
    }
    assert(final_words(player, opponent).take(9) =~= "You win! "@ || player <= opponent);
    assert(final_words(player, opponent).skip(9) =~= points || player <= opponent);
    assert(final_words(player, opponent).take(10) =~= "You lose! "@ || player > opponent
        || player == 0 && opponent >= 5);
    assert(final_words(player, opponent).skip(10) =~= points || player > opponent || player == 0
        && opponent >= 5);
}

} // verus!
