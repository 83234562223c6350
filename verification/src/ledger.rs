//! The gateway's tables: the players' certified ratings and the matches.
use vstd::prelude::*;

use crate::peer::PeerId;
use crate::table::Table;

verus! {

/// The largest number that a table column holds.
pub const MAX_STORED: u64 = 0x7fff_ffff_ffff_ffff;

/// What is stored of a player.
pub struct PlayerRow {
    pub username: String,
    pub rating: i32,
    /// The sequence number of the last certificate.
    pub seq: u64,
}

pub struct PlayerRowView {
    pub username: Seq<char>,
    pub rating: i32,
    pub seq: u64,
}

impl View for PlayerRow {
    type V = PlayerRowView;

    open spec fn view(&self) -> PlayerRowView {
        PlayerRowView { username: self.username@, rating: self.rating, seq: self.seq }
    }
}

/// Where a match stands.
#[derive(Clone, Copy, PartialEq, Eq, Structural, Debug)]
pub enum MatchStatus {
    /// Reported by one player.
    Pending,
    /// Confirmed by both.
    Played,
    /// Taken back by a moderator.
    Revoked,
}

impl MatchStatus {
    pub open spec fn name(self) -> Seq<char> {
        match self {
            MatchStatus::Pending => "pending"@,
            MatchStatus::Played => "played"@,
            MatchStatus::Revoked => "revoked"@,
        }
    }

    pub fn label(self) -> (r: &'static str)
        ensures
            r@ == self.name(),
    {
        match self {
            MatchStatus::Pending => "pending",
            MatchStatus::Played => "played",
            MatchStatus::Revoked => "revoked",
        }
    }
}

/// What is stored of a match. The players are kept as text, A before B.
pub struct MatchRow {
    pub created_at: String,
    pub player_a: String,
    pub username_a: String,
    pub before_a: i32,
    pub after_a: i32,
    pub score_a: u32,
    pub reported_a: bool,
    pub player_b: String,
    pub username_b: String,
    pub before_b: i32,
    pub after_b: i32,
    pub score_b: u32,
    pub reported_b: bool,
    pub status: MatchStatus,
    pub revoked_at: Option<String>,
    pub edited_at: Option<String>,
}

pub struct MatchRowView {
    pub created_at: Seq<char>,
    pub player_a: Seq<char>,
    pub username_a: Seq<char>,
    pub before_a: i32,
    pub after_a: i32,
    pub score_a: u32,
    pub reported_a: bool,
    pub player_b: Seq<char>,
    pub username_b: Seq<char>,
    pub before_b: i32,
    pub after_b: i32,
    pub score_b: u32,
    pub reported_b: bool,
    pub status: MatchStatus,
    pub revoked_at: Option<Seq<char>>,
    pub edited_at: Option<Seq<char>>,
}

/// The text of an optional string.
pub open spec fn opt_text(s: Option<String>) -> Option<Seq<char>> {
    match s {
        Some(t) => Some(t@),
        None => None,
    }
}

pub fn copy_opt(s: &Option<String>) -> (r: Option<String>)
    ensures
        opt_text(r) == opt_text(*s),
{
    match s {
        Some(t) => Some(t.clone()),
        None => None,
    }
}

impl View for MatchRow {
    type V = MatchRowView;

    open spec fn view(&self) -> MatchRowView {
        MatchRowView {
            created_at: self.created_at@,
            player_a: self.player_a@,
            username_a: self.username_a@,
            before_a: self.before_a,
            after_a: self.after_a,
            score_a: self.score_a,
            reported_a: self.reported_a,
            player_b: self.player_b@,
            username_b: self.username_b@,
            before_b: self.before_b,
            after_b: self.after_b,
            score_b: self.score_b,
            reported_b: self.reported_b,
            status: self.status,
            revoked_at: opt_text(self.revoked_at),
            edited_at: opt_text(self.edited_at),
        }
    }
}

impl MatchRow {
    pub fn copied(&self) -> (r: MatchRow)
        ensures
            r@ == self@,
    {
        MatchRow {
            created_at: self.created_at.clone(),
            player_a: self.player_a.clone(),
            username_a: self.username_a.clone(),
            before_a: self.before_a,
            after_a: self.after_a,
            score_a: self.score_a,
            reported_a: self.reported_a,
            player_b: self.player_b.clone(),
            username_b: self.username_b.clone(),
            before_b: self.before_b,
            after_b: self.after_b,
            score_b: self.score_b,
            reported_b: self.reported_b,
            status: self.status,
            revoked_at: copy_opt(&self.revoked_at),
            edited_at: copy_opt(&self.edited_at),
        }
    }
}

/// The two tables.
pub struct Ledger {
    pub players: Table<PeerId, PlayerRow>,
    pub matches: Table<u64, MatchRow>,
}

pub struct LedgerView {
    pub players: Map<PeerId, PlayerRowView>,
    pub matches: Map<u64, MatchRowView>,
}

impl View for Ledger {
    type V = LedgerView;

    open spec fn view(&self) -> LedgerView {
        LedgerView { players: self.players@, matches: self.matches@ }
    }
}

/// The ledger with the player's row replaced. A sequence number that no
/// column holds is not stored, and nor is the row.
pub open spec fn upserted(
    g: LedgerView,
    peer: PeerId,
    username: Seq<char>,
    rating: i32,
    seq: u64,
) -> LedgerView {
    if seq <= MAX_STORED {
        LedgerView {
            players: g.players.insert(peer, PlayerRowView { username, rating, seq }),
            matches: g.matches,
        }
    } else {
        g
    }
}

/// The ledger with a new match; a number already given, or one that no column
/// holds, is not stored.
pub open spec fn with_match(g: LedgerView, id: u64, row: MatchRowView) -> LedgerView {
    if id <= MAX_STORED && !g.matches.contains_key(id) {
        LedgerView { players: g.players, matches: g.matches.insert(id, row) }
    } else {
        g
    }
}

/// The ledger with the row of a stored match replaced.
pub open spec fn with_row(g: LedgerView, id: u64, row: MatchRowView) -> LedgerView {
    LedgerView { players: g.players, matches: g.matches.insert(id, row) }
}

/// Whether `n` is the highest match number, or zero where there is no match.
pub open spec fn is_max_id(matches: Map<u64, MatchRowView>, n: u64) -> bool {
    &&& forall|id: u64| matches.contains_key(id) ==> id <= n
    &&& n == 0 || matches.contains_key(n)
}

/// The highest match number, or zero where there is no match.
pub open spec fn max_id_of(matches: Map<u64, MatchRowView>) -> u64 {
    choose|n: u64| is_max_id(matches, n)
}

proof fn lemma_one_max(matches: Map<u64, MatchRowView>, m: u64, n: u64)
    requires
        is_max_id(matches, m),
        is_max_id(matches, n),
    ensures
        m == n,
{
}

/// Every number fits its column.
pub open spec fn fits(g: LedgerView) -> bool {
    &&& forall|id: u64| #[trigger] g.matches.dom().contains(id) ==> id <= MAX_STORED
    &&& forall|p: PeerId| #[trigger] g.players.dom().contains(p) ==> g.players[p].seq <= MAX_STORED
}

/// What is stored keeps fitting.
pub proof fn ledgers_keep_fitting(g: LedgerView)
    requires
        fits(g),
    ensures
        forall|p: PeerId, name: Seq<char>, rating: i32, seq: u64|
            fits(#[trigger] upserted(g, p, name, rating, seq)),
        forall|id: u64, row: MatchRowView| fits(#[trigger] with_match(g, id, row)),
        forall|id: u64, row: MatchRowView|
            g.matches.contains_key(id) ==> fits(#[trigger] with_row(g, id, row)),
{
}

impl Ledger {
    /// Both tables are well formed and every number fits its column.
    pub open spec fn wf(&self) -> bool {
        &&& self.players.wf()
        &&& self.matches.wf()
        &&& fits(self@)
    }

    /// A ledger without players and matches.
    pub fn new() -> (r: Ledger)
        ensures
            r.wf(),
            r@.players == Map::<PeerId, PlayerRowView>::empty(),
            r@.matches == Map::<u64, MatchRowView>::empty(),
    {
        Ledger { players: Table::new(), matches: Table::new() }
    }

    /// The stored rating of a player and the number of its certificate.
    pub fn load_rating(&self, peer: &PeerId) -> (r: Option<(i32, u64)>)
        requires
            self.wf(),
        ensures
            match r {
                Some((rating, seq)) => self@.players.contains_key(*peer)
                    && self@.players[*peer].rating == rating && self@.players[*peer].seq == seq,
                None => !self@.players.contains_key(*peer),
            },
    {
        match self.players.get(peer) {
            Some(row) => Some((row.rating, row.seq)),
            None => None,
        }
    }

    /// Stores the rating of a player.
    pub fn upsert_rating(&mut self, peer: &PeerId, username: &str, rating: i32, seq: u64)
        requires
            old(self).wf(),
        ensures
            final(self).wf(),
            final(self)@ == upserted(old(self)@, *peer, username@, rating, seq),
    {
        proof {
            ledgers_keep_fitting(self@);
        }
        if seq <= MAX_STORED {
            self.players.insert(*peer, PlayerRow { username: username.to_owned(), rating, seq });
        }
        assert(self@ == upserted(old(self)@, *peer, username@, rating, seq));
    }

    /// Stores a new match.
    pub fn insert_match(&mut self, id: u64, row: MatchRow)
        requires
            old(self).wf(),
        ensures
            final(self).wf(),
            final(self)@ == with_match(old(self)@, id, row@),
    {
        proof {
            ledgers_keep_fitting(self@);
        }
        if id <= MAX_STORED && !self.matches.contains(&id) {
            self.matches.insert(id, row);
        }
        assert(self@ == with_match(old(self)@, id, row@));
    }

    /// Replaces the row of a stored match.
    pub fn replace_match(&mut self, id: u64, row: MatchRow)
        requires
            old(self).wf(),
            old(self)@.matches.contains_key(id),
        ensures
            final(self).wf(),
            final(self)@ == with_row(old(self)@, id, row@),
    {
        proof {
            ledgers_keep_fitting(self@);
        }
        self.matches.insert(id, row);
        assert(self@ == with_row(old(self)@, id, row@));
    }

    /// Whether a match with this number is stored.
    pub fn rated_match_exists(&self, id: u64) -> (r: bool)
        requires
            self.wf(),
        ensures
            r == self@.matches.contains_key(id),
    {
        self.matches.contains(&id)
    }

    /// The highest match number, or zero.
    pub fn max_id(&self) -> (r: u64)
        requires
            self.wf(),
        ensures
            r == max_id_of(self@.matches),
            is_max_id(self@.matches, r),
            r <= MAX_STORED,
    {
        let mut n: u64 = 0;
        let mut i: usize = 0;
        while i < self.matches.keys.len()
            invariant
                0 <= i <= self.matches.keys.len(),
                self.matches.wf(),
                forall|j: int| 0 <= j < i ==> #[trigger] self.matches.keys@[j] <= n,
                n == 0 || self.matches@.contains_key(n),
            decreases self.matches.keys.len() - i,
        {
            let id: u64 = self.matches.keys[i];
            proof {
                self.matches.lemma_at(i as int);
            }
            if id > n {
                n = id;
            }
            i += 1;
        }
        proof {
            assert forall|id: u64| self@.matches.contains_key(id) implies id <= n by {
                let j = self.matches.index_of(id);
                assert(self.matches.has_at(id, j));
                assert(self.matches.keys@[j] <= n);
            }
            assert(is_max_id(self@.matches, n));
            lemma_one_max(self@.matches, n, max_id_of(self@.matches));
        }
        n
    }
}

/// Storing a player sets what is kept of that player, and nothing else; a
/// sequence number that does not fit is not stored.
pub proof fn storing_concerns_one_player(
    g: LedgerView,
    p: PeerId,
    other: PeerId,
    username: Seq<char>,
    rating: i32,
    seq: u64,
)
    requires
        other != p,
    ensures
        ({
            let h = upserted(g, p, username, rating, seq);
            &&& h.matches == g.matches
            &&& h.players.contains_key(other) == g.players.contains_key(other)
            &&& g.players.contains_key(other) ==> h.players[other] == g.players[other]
            &&& seq <= 0x7fff_ffff_ffff_ffff ==> {
                &&& h.players.contains_key(p)
                &&& h.players[p].username == username
                &&& h.players[p].rating == rating
                &&& h.players[p].seq == seq
            }
            &&& seq > 0x7fff_ffff_ffff_ffff ==> h == g
        }),
{
}

/// A match is stored under its number, once; what is stored already stays.
pub proof fn matches_are_stored_once(g: LedgerView, id: u64, other: u64, row: MatchRowView)
    requires
        other != id,
    ensures
        ({
            let h = with_match(g, id, row);
            let k = with_row(g, id, row);
            &&& h.players == g.players && k.players == g.players
            &&& h.matches.contains_key(other) == g.matches.contains_key(other)
            &&& k.matches.contains_key(other) == g.matches.contains_key(other)
            &&& g.matches.contains_key(other) ==> h.matches[other] == g.matches[other]
                && k.matches[other] == g.matches[other]
            &&& g.matches.contains_key(id) ==> h == g
            &&& !g.matches.contains_key(id) && id <= 0x7fff_ffff_ffff_ffff
                ==> h.matches.contains_key(id) && h.matches[id] == row
            &&& k.matches.contains_key(id) && k.matches[id] == row
        }),
{
}

/// The largest number is that of a match, and no match has a larger one; it is
/// nothing where there are no matches.
pub proof fn the_largest_number_is_found(matches: Map<u64, MatchRowView>, n: u64, id: u64)
    requires
        matches.contains_key(n) || n == 0,
        forall|k: u64| #[trigger] matches.contains_key(k) ==> k <= n,
    ensures
        max_id_of(matches) == n,
        matches.contains_key(id) ==> id <= max_id_of(matches),
{
    assert(is_max_id(matches, n));
    lemma_one_max(matches, max_id_of(matches), n);
}

/// The states of a match have the names by which they are stored.
pub proof fn states_have_names()
    ensures
        MatchStatus::Pending.name() == "pending"@,
        MatchStatus::Played.name() == "played"@,
        MatchStatus::Revoked.name() == "revoked"@,
{
}

} // verus!
