//! The pairing that waits for both players to accept.
use vstd::prelude::*;

use crate::peer::{same_peer, PeerId};
use crate::table::Same;

verus! {

/// How long the other player has to answer.
pub const PREMATCH_ACCEPT_NANOS: u64 = 20_000_000_000;

/// The countdown once both have accepted.
pub const PREMATCH_COUNTDOWN_NANOS: u64 = 5_000_000_000;

/// How long to wait before searching again after a pairing fell through.
pub const PREMATCH_RESUME_NANOS: u64 = 8_000_000_000;

/// A timer in nanoseconds. One that does not repeat stays at its end.
#[derive(Clone, Copy, PartialEq, Eq, Structural, Debug)]
pub struct Timer {
    pub duration: u64,
    pub elapsed: u64,
    pub repeating: bool,
    /// Whether it has come to its end; a repeating timer, in its last tick.
    pub finished: bool,
}

pub open spec fn once_of(duration: u64) -> Timer {
    Timer { duration, elapsed: 0, repeating: false, finished: false }
}

pub open spec fn repeating_of(duration: u64) -> Timer {
    Timer { duration, elapsed: 0, repeating: true, finished: false }
}

/// The timer after `delta` more nanoseconds.
pub open spec fn ticked(t: Timer, delta: u64) -> Timer {
    if !t.repeating && t.finished {
        t
    } else {
        let e = t.elapsed + delta;
        if e < t.duration {
            Timer { elapsed: e as u64, finished: false, ..t }
        } else if t.repeating {
            Timer {
                elapsed: if t.duration == 0 {
                    0
                } else {
                    (e % t.duration as int) as u64
                },
                finished: true,
                ..t
            }
        } else {
            Timer { elapsed: t.duration, finished: true, ..t }
        }
    }
}

/// Whether the timer comes to its end with this tick.
pub open spec fn ends_with(t: Timer, delta: u64) -> bool {
    (t.repeating || !t.finished) && t.elapsed + delta >= t.duration
}

/// The nanoseconds that are left.
pub open spec fn nanos_left(t: Timer) -> int {
    if t.elapsed >= t.duration {
        0
    } else {
        t.duration - t.elapsed
    }
}

impl Timer {
    pub fn once(duration: u64) -> (r: Timer)
        ensures
            r == once_of(duration),
    {
        Timer { duration, elapsed: 0, repeating: false, finished: false }
    }

    pub fn repeating(duration: u64) -> (r: Timer)
        ensures
            r == repeating_of(duration),
    {
        Timer { duration, elapsed: 0, repeating: true, finished: false }
    }

    /// Lets time pass; tells whether the timer comes to its end with it.
    pub fn tick(&mut self, delta: u64) -> (r: bool)
        ensures
            *final(self) == ticked(*old(self), delta),
            r == ends_with(*old(self), delta),
    {
        if !self.repeating && self.finished {
            return false;
        }
        let e: u128 = self.elapsed as u128 + delta as u128;
        if e < self.duration as u128 {
            self.elapsed = e as u64;
            self.finished = false;
            false
        } else if self.repeating {
            if self.duration == 0 {
                self.elapsed = 0;
            } else {
                self.elapsed = (e % self.duration as u128) as u64;
            }
            self.finished = true;
            true
        } else {
            self.elapsed = self.duration;
            self.finished = true;
            true
        }
    }

    /// Starts again.
    pub fn reset(&mut self)
        ensures
            *final(self) == (Timer { elapsed: 0, finished: false, ..*old(self) }),
    {
        self.elapsed = 0;
        self.finished = false;
    }

    /// The nanoseconds that are left.
    pub fn remaining(&self) -> (r: u64)
        ensures
            r == nanos_left(*self),
    {
        if self.elapsed >= self.duration {
            0
        } else {
            self.duration - self.elapsed
        }
    }
}

/// A timer that does not repeat ends exactly once: with the tick that brings
/// it to its duration, and with none after it.
pub proof fn timers_end_once(t: Timer, delta: u64, later: u64)
    requires
        !t.repeating,
        ends_with(t, delta),
    ensures
        !ends_with(ticked(t, delta), later),
        nanos_left(ticked(t, delta)) == 0,
{
}

/// A pairing that waits for both players. The match starts when both have
/// accepted and the countdown is over; a refusal or silence cancels it.
pub struct PreMatch {
    pub opponent: Option<PeerId>,
    pub self_accepted: bool,
    pub opp_accepted: bool,
    /// How long the other player still has to answer.
    pub waiting: Option<Timer>,
    /// The countdown after both have accepted.
    pub countdown: Option<Timer>,
    /// The pause before searching again.
    pub resume: Option<Timer>,
    /// Players with whom a pairing fell through in this search.
    pub rejected: Vec<PeerId>,
}

pub struct PreView {
    pub opponent: Option<PeerId>,
    pub self_accepted: bool,
    pub opp_accepted: bool,
    pub waiting: Option<Timer>,
    pub countdown: Option<Timer>,
    pub resume: Option<Timer>,
    pub rejected: Set<PeerId>,
}

impl View for PreMatch {
    type V = PreView;

    open spec fn view(&self) -> PreView {
        PreView {
            opponent: self.opponent,
            self_accepted: self.self_accepted,
            opp_accepted: self.opp_accepted,
            waiting: self.waiting,
            countdown: self.countdown,
            resume: self.resume,
            rejected: self.rejected@.to_set(),
        }
    }
}

/// No pairing and nobody rejected.
pub open spec fn no_pairing() -> PreView {
    PreView {
        opponent: None,
        self_accepted: false,
        opp_accepted: false,
        waiting: None,
        countdown: None,
        resume: None,
        rejected: Set::empty(),
    }
}

/// A pairing that has just been made.
pub open spec fn begun(p: PreView, opponent: PeerId) -> PreView {
    PreView {
        opponent: Some(opponent),
        self_accepted: false,
        opp_accepted: false,
        waiting: Some(once_of(PREMATCH_ACCEPT_NANOS)),
        countdown: None,
        resume: None,
        ..p
    }
}

/// The pairing with the countdown started, once both have accepted.
pub open spec fn counting_if_ready(p: PreView) -> PreView {
    if p.self_accepted && p.opp_accepted && p.countdown is None {
        PreView { waiting: None, countdown: Some(once_of(PREMATCH_COUNTDOWN_NANOS)), ..p }
    } else {
        p
    }
}

/// The pairing after a player has accepted it.
pub open spec fn accepted_by(p: PreView, peer: PeerId) -> PreView {
    if p.opponent == Some(peer) {
        counting_if_ready(PreView { opp_accepted: true, ..p })
    } else {
        p
    }
}

/// The pairing after we have accepted it.
pub open spec fn self_accept(p: PreView) -> PreView {
    counting_if_ready(PreView { self_accepted: true, ..p })
}

/// The pairing fell through; the opponent is remembered.
pub open spec fn cancelled(p: PreView) -> PreView {
    PreView {
        opponent: None,
        self_accepted: false,
        opp_accepted: false,
        waiting: None,
        countdown: None,
        rejected: match p.opponent {
            Some(peer) => p.rejected.insert(peer),
            None => p.rejected,
        },
        ..p
    }
}

impl PreMatch {
    pub fn new() -> (r: PreMatch)
        ensures
            r@ == no_pairing(),
    {
        let r = PreMatch {
            opponent: None,
            self_accepted: false,
            opp_accepted: false,
            waiting: None,
            countdown: None,
            resume: None,
            rejected: Vec::new(),
        };
        assert(r@.rejected =~= Set::empty());
        r
    }

    /// Opens a pairing with a player.
    pub fn begin(&mut self, opponent: PeerId)
        ensures
            final(self)@ == begun(old(self)@, opponent),
    {
        self.opponent = Some(opponent);
        self.self_accepted = false;
        self.opp_accepted = false;
        self.waiting = Some(Timer::once(PREMATCH_ACCEPT_NANOS));
        self.countdown = None;
        self.resume = None;
    }

    /// Whether there is no pairing.
    pub fn idle(&self) -> (r: bool)
        ensures
            r == (self@.opponent is None),
    {
        self.opponent.is_none()
    }

    /// The other player has accepted; tells whether it is our opponent.
    pub fn accepted_peer(&mut self, peer: &PeerId) -> (r: bool)
        ensures
            final(self)@ == accepted_by(old(self)@, *peer),
            r == (old(self)@.opponent == Some(*peer)),
    {
        if !same_peer(&self.opponent, &Some(*peer)) {
            return false;
        }
        self.opp_accepted = true;
        self.start_countdown_if_ready();
        true
    }

    /// We have accepted.
    pub fn accept(&mut self)
        ensures
            final(self)@ == self_accept(old(self)@),
    {
        self.self_accepted = true;
        self.start_countdown_if_ready();
    }

    /// Whether a pairing with this player fell through before.
    pub fn is_rejected(&self, peer: &PeerId) -> (r: bool)
        ensures
            r == self@.rejected.contains(*peer),
    {
        let mut i: usize = 0;
        while i < self.rejected.len()
            invariant
                0 <= i <= self.rejected.len(),
                forall|j: int| 0 <= j < i ==> self.rejected@[j] != *peer,
            decreases self.rejected.len() - i,
        {
            if self.rejected[i].same(peer) {
                assert(self.rejected@.contains(*peer));
                return true;
            }
            i += 1;
        }
        assert(!self.rejected@.contains(*peer));
        false
    }

    /// The pairing fell through; the opponent is not challenged again at once.
    pub fn cancel(&mut self)
        ensures
            final(self)@ == cancelled(old(self)@),
    {
        if let Some(peer) = self.opponent {
            if !self.is_rejected(&peer) {
                self.rejected.push(peer);
                assert(self.rejected@.to_set() =~= old(self).rejected@.to_set().insert(peer)) by {
                    let s = self.rejected@;
                    let o = old(self).rejected@;
                    assert forall|x: PeerId| s.contains(x) == (o.contains(x) || x == peer) by {
                        if o.contains(x) {
                            let i = o.index_of(x);
                            assert(s[i] == x);
                        }
                        if s.contains(x) {
                            let i = s.index_of(x);
                            if i < o.len() {
                                assert(o[i] == x);
                            }
                        }
                        assert(s[o.len() as int] == peer);
                    }
                }
            } else {
                assert(self.rejected@.to_set() =~= old(self).rejected@.to_set().insert(peer));
            }
        }
        self.opponent = None;
        self.self_accepted = false;
        self.opp_accepted = false;
        self.waiting = None;
        self.countdown = None;
    }

    /// The match starts: nothing is left of the pairing.
    pub fn reset(&mut self)
        ensures
            final(self)@ == no_pairing(),
    {
        *self = PreMatch::new();
    }

    /// Forgets with whom pairings fell through.
    pub fn forgive(&mut self)
        ensures
            final(self)@ == (PreView { rejected: Set::empty(), ..old(self)@ }),
    {
        self.rejected = Vec::new();
        assert(self.rejected@.to_set() =~= Set::empty());
    }

    fn start_countdown_if_ready(&mut self)
        ensures
            final(self)@ == counting_if_ready(old(self)@),
    {
        if self.self_accepted && self.opp_accepted && self.countdown.is_none() {
            self.waiting = None;
            self.countdown = Some(Timer::once(PREMATCH_COUNTDOWN_NANOS));
        }
    }
}

// ---------------------------------------------------------------------------
// Laws
// ---------------------------------------------------------------------------

/// The countdown runs only for a pairing that both players have accepted, and
/// nobody is waited for without a pairing.
pub open spec fn sound(p: PreView) -> bool {
    &&& p.countdown is Some ==> p.opponent is Some && p.self_accepted && p.opp_accepted
        && p.waiting is None
    &&& p.waiting is Some ==> p.opponent is Some
    &&& p.opponent is None ==> !p.self_accepted && !p.opp_accepted
}

/// Whatever happens to a pairing, it stays sound; our own acceptance comes
/// only while there is one.
pub proof fn pairings_stay_sound(p: PreView, peer: PeerId)
    requires
        sound(p),
    ensures
        sound(no_pairing()),
        sound(begun(p, peer)),
        sound(accepted_by(p, peer)),
        p.opponent is Some ==> sound(self_accept(p)),
        sound(cancelled(p)),
{
}

/// It does not matter who accepts first: once both have, the countdown runs.
pub proof fn both_acceptances_start_the_countdown(p: PreView, peer: PeerId)
    requires
        p.opponent == Some(peer),
        p.countdown is None,
    ensures
        self_accept(accepted_by(p, peer)) == accepted_by(self_accept(p), peer),
        self_accept(accepted_by(p, peer)).countdown == Some(once_of(PREMATCH_COUNTDOWN_NANOS)),
        self_accept(accepted_by(p, peer)).waiting is None,
{
}

/// A pairing that fell through ends it and remembers the opponent.
pub proof fn cancelling_remembers(p: PreView, peer: PeerId)
    requires
        p.opponent == Some(peer),
    ensures
        cancelled(p).opponent is None,
        cancelled(p).rejected.contains(peer),
{
}

/// A timer starts with its whole time before it.
pub proof fn timers_start_full(duration: u64)
    ensures
        nanos_left(once_of(duration)) == duration,
        nanos_left(repeating_of(duration)) == duration,
        once_of(duration).duration == duration && repeating_of(duration).duration == duration,
        !once_of(duration).repeating && repeating_of(duration).repeating,
        !once_of(duration).finished && !repeating_of(duration).finished,
{
}

/// As long as a timer runs it has as much less left as time has passed, and it
/// ends with the tick that uses its time up.
pub proof fn timers_run_down(t: Timer, delta: u64)
    requires
        !t.finished || t.repeating,
        t.elapsed <= t.duration,
    ensures
        ticked(t, delta).duration == t.duration,
        ticked(t, delta).repeating == t.repeating,
        delta < nanos_left(t) ==> !ends_with(t, delta) && !ticked(t, delta).finished && nanos_left(
            ticked(t, delta),
        ) == nanos_left(t) - delta,
        delta >= nanos_left(t) ==> ends_with(t, delta) && ticked(t, delta).finished,
        delta >= nanos_left(t) && !t.repeating ==> nanos_left(ticked(t, delta)) == 0,
{
}

/// It does not matter in how many ticks time passes for a timer that runs once.
pub proof fn ticks_add_up(t: Timer, delta: u64, more: u64)
    requires
        !t.repeating,
        !t.finished,
        t.elapsed <= t.duration,
        delta + more <= u64::MAX,
    ensures
        ticked(ticked(t, delta), more) == ticked(t, (delta + more) as u64),
        ends_with(t, (delta + more) as u64) == (ends_with(t, delta) || ends_with(
            ticked(t, delta),
            more,
        )),
{
}

/// A repeating timer goes on from where it is in its round, and ends with every
/// round.
pub proof fn rounds_go_on(t: Timer, delta: u64)
    requires
        t.repeating,
        t.elapsed < t.duration,
        delta < t.duration,
    ensures
        t.elapsed + delta >= t.duration ==> ticked(t, delta).elapsed == t.elapsed + delta
            - t.duration,
        t.elapsed + delta < t.duration ==> ticked(t, delta).elapsed == t.elapsed + delta,
        ends_with(t, delta) <==> t.elapsed + delta >= t.duration,
{
    if t.elapsed + delta >= t.duration {
        let e = t.elapsed + delta - t.duration;
        vstd::arithmetic::div_mod::lemma_mod_add_multiples_vanish(e, t.duration as int);
        vstd::arithmetic::div_mod::lemma_small_mod(e as nat, t.duration as nat);
    }
}

/// A new pairing is with the player named, nobody has accepted it, and there
/// are twenty seconds to; with whom pairings fell through stays known.
pub proof fn pairings_begin_open(p: PreView, opponent: PeerId)
    ensures
        ({
            let b = begun(p, opponent);
            &&& b.opponent == Some(opponent)
            &&& !b.self_accepted && !b.opp_accepted
            &&& b.waiting is Some && nanos_left(b.waiting->0) == 20_000_000_000 && !(
            b.waiting->0.repeating) && !(b.waiting->0.finished)
            &&& b.countdown is None
            &&& b.resume is None
            &&& b.rejected == p.rejected
        }),
{
}

/// Only the opponent's acceptance counts, and only ours is ours. One of them
/// alone starts nothing; both start a countdown of five seconds. An acceptance
/// that comes again changes nothing.
pub proof fn acceptances_count_for_their_side(p: PreView, peer: PeerId)
    requires
        p.opponent is Some,
        sound(p),
    ensures
        p.opponent != Some(peer) ==> accepted_by(p, peer) == p,
        p.opponent == Some(peer) ==> ({
            let a = accepted_by(p, peer);
            &&& a.opp_accepted
            &&& a.self_accepted == p.self_accepted
            &&& a.opponent == p.opponent && a.rejected == p.rejected && a.resume == p.resume
            &&& a.countdown is Some <==> p.self_accepted
            &&& !p.self_accepted ==> a.waiting == p.waiting
            &&& accepted_by(a, peer) == a
            &&& p.self_accepted && p.countdown is None ==> nanos_left(a.countdown->0)
                == 5_000_000_000 && a.waiting is None
        }),
        ({
            let a = self_accept(p);
            &&& a.self_accepted
            &&& a.opp_accepted == p.opp_accepted
            &&& a.opponent == p.opponent && a.rejected == p.rejected && a.resume == p.resume
            &&& a.countdown is Some <==> p.opp_accepted
            &&& !p.opp_accepted ==> a.waiting == p.waiting
            &&& p.opp_accepted && p.countdown is None ==> nanos_left(a.countdown->0)
                == 5_000_000_000 && a.waiting is None
        }),
{
}

/// A pairing that falls through leaves nothing but the memory of the opponent,
/// beside those remembered before.
pub proof fn cancelling_forgets_all_but_the_opponent(p: PreView, x: PeerId)
    ensures
        ({
            let c = cancelled(p);
            &&& c.opponent is None && c.waiting is None && c.countdown is None
            &&& !c.self_accepted && !c.opp_accepted
            &&& c.resume == p.resume
            &&& c.rejected.contains(x) <==> p.rejected.contains(x) || p.opponent == Some(x)
        }),
{
}

/// After a match has started nothing is left of the pairing, and nobody is
/// remembered.
pub proof fn matches_clear_the_pairing(x: PeerId)
    ensures
        no_pairing().opponent is None,
        no_pairing().waiting is None && no_pairing().countdown is None,
        no_pairing().resume is None,
        !no_pairing().self_accepted && !no_pairing().opp_accepted,
        !no_pairing().rejected.contains(x),
{
}

} // verus!
