//! The player's own record of matches, and the settings kept beside it.
//!
//! Everything that is stored is held here in memory; rows and settings are
//! read from the database when it is opened and written back when they change.
use vstd::prelude::*;
use vstd::utf8::encode_utf8;

use crate::hex::{decode_hex, encode_hex, hex_of, hex_reads_back, unhex_of};
use crate::ledger::{copy_opt, opt_text};
use crate::peer::{base58, PeerId};
use crate::protocol::{GameSnapshot, GatewayRequest, GatewayRequestView, DEFAULT_RATING};
use crate::table::Table;
use crate::text::{
    chars_of, parse_i32, parse_signed_of, signed_decimal, signed_decimal_of,
    signed_decimal_reads_back,
};

verus! {

/// How many past matches are shown.
pub const HISTORY_LIMIT: usize = 10;

/// A match as it is shown.
#[derive(Debug)]
pub struct MatchRecord {
    pub id: i64,
    pub happened_at: String,
    /// The opponent's name when the match was recorded.
    pub rival: String,
    /// The opponent's identity in base 58.
    pub rival_peer: Option<String>,
    pub my_score: i32,
    pub opp_score: i32,
    pub was_host: bool,
    /// The gateway's number of the match, zero where it has none.
    pub gateway_match_id: i64,
    /// A match that was taken back no longer counts.
    pub revoked: bool,
}

/// A match as it is stored.
pub struct HistoryRow {
    pub id: i64,
    pub happened_at: String,
    pub rival: String,
    pub rival_peer: Option<String>,
    pub my_score: i64,
    pub opp_score: i64,
    pub was_host: bool,
    pub gateway_match_id: i64,
    pub revoked: bool,
}

/// What is known of a match.
pub struct RowView {
    pub id: i64,
    pub happened_at: Seq<char>,
    pub rival: Seq<char>,
    pub rival_peer: Option<Seq<char>>,
    pub my_score: int,
    pub opp_score: int,
    pub was_host: bool,
    pub gateway_match_id: i64,
    pub revoked: bool,
}

impl View for MatchRecord {
    type V = RowView;

    open spec fn view(&self) -> RowView {
        RowView {
            id: self.id,
            happened_at: self.happened_at@,
            rival: self.rival@,
            rival_peer: opt_text(self.rival_peer),
            my_score: self.my_score as int,
            opp_score: self.opp_score as int,
            was_host: self.was_host,
            gateway_match_id: self.gateway_match_id,
            revoked: self.revoked,
        }
    }
}

impl View for HistoryRow {
    type V = RowView;

    open spec fn view(&self) -> RowView {
        RowView {
            id: self.id,
            happened_at: self.happened_at@,
            rival: self.rival@,
            rival_peer: opt_text(self.rival_peer),
            my_score: self.my_score as int,
            opp_score: self.opp_score as int,
            was_host: self.was_host,
            gateway_match_id: self.gateway_match_id,
            revoked: self.revoked,
        }
    }
}

pub open spec fn row_views(v: Seq<HistoryRow>) -> Seq<RowView> {
    Seq::new(v.len(), |i: int| v[i]@)
}

pub open spec fn record_views(v: Seq<MatchRecord>) -> Seq<RowView> {
    Seq::new(v.len(), |i: int| v[i]@)
}

/// The stored matches and what is shown of them.
pub struct MatchHistory {
    /// Whether the database is open; while it is not, nothing is stored.
    pub open: bool,
    /// All matches, the oldest first.
    pub rows: Vec<HistoryRow>,
    pub settings: Table<String, String>,
    /// The latest matches, the newest first.
    pub records: Vec<MatchRecord>,
    /// Grows with every change.
    pub rev: u32,
    /// Set between the start of a match and its recording.
    pub armed: bool,
}

pub struct HistoryView {
    pub open: bool,
    pub rows: Seq<RowView>,
    pub settings: Map<Seq<char>, Seq<char>>,
    pub records: Seq<RowView>,
    pub rev: u32,
    pub armed: bool,
}

impl View for MatchHistory {
    type V = HistoryView;

    open spec fn view(&self) -> HistoryView {
        HistoryView {
            open: self.open,
            rows: row_views(self.rows@),
            settings: self.settings@,
            records: record_views(self.records@),
            rev: self.rev,
            armed: self.armed,
        }
    }
}

/// Whether the points of a match are ordinary numbers.
pub open spec fn shows(r: RowView) -> bool {
    i32::MIN <= r.my_score <= i32::MAX && i32::MIN <= r.opp_score <= i32::MAX
}

/// Of the last `n` matches, the newest first, those that can be shown.
pub open spec fn newest(rows: Seq<RowView>, n: nat) -> Seq<RowView>
    decreases n,
{
    if n == 0 || rows.len() == 0 {
        Seq::empty()
    } else {
        let rest = newest(rows.drop_last(), (n - 1) as nat);
        if shows(rows.last()) {
            seq![rows.last()] + rest
        } else {
            rest
        }
    }
}

/// Whether the rows stand in the order of their numbers, each number once.
pub open spec fn in_order(rows: Seq<RowView>) -> bool {
    forall|i: int, j: int| 0 <= i < j < rows.len() ==> #[trigger] rows[i].id < #[trigger] rows[j].id
}

/// What is shown of the stored matches.
pub open spec fn shown(h: HistoryView) -> Seq<RowView> {
    if h.open {
        newest(h.rows, HISTORY_LIMIT as nat)
    } else {
        Seq::empty()
    }
}

/// How many of the records count as won, lost or drawn.
pub open spec fn count_results(rs: Seq<RowView>, sign: int) -> nat
    decreases rs.len(),
{
    if rs.len() == 0 {
        0
    } else {
        let r = rs.last();
        let here: nat = if !r.revoked && result_sign(r) == sign {
            1
        } else {
            0
        };
        count_results(rs.drop_last(), sign) + here
    }
}

/// One for a win, minus one for a loss, zero for a draw.
pub open spec fn result_sign(r: RowView) -> int {
    if r.my_score > r.opp_score {
        1
    } else if r.my_score < r.opp_score {
        -1
    } else {
        0
    }
}

/// How many of the records were taken back.
pub open spec fn count_revoked(rs: Seq<RowView>) -> nat
    decreases rs.len(),
{
    if rs.len() == 0 {
        0
    } else {
        count_revoked(rs.drop_last()) + if rs.last().revoked {
            1nat
        } else {
            0nat
        }
    }
}

/// The rows with those of a gateway match changed.
pub open spec fn with_revoked(rows: Seq<RowView>, id: i64) -> Seq<RowView> {
    Seq::new(
        rows.len(),
        |i: int|
            if rows[i].gateway_match_id == id {
                RowView { revoked: true, ..rows[i] }
            } else {
                rows[i]
            },
    )
}

pub open spec fn with_score(rows: Seq<RowView>, id: i64, mine: int, theirs: int) -> Seq<RowView> {
    Seq::new(
        rows.len(),
        |i: int|
            if rows[i].gateway_match_id == id {
                RowView { my_score: mine, opp_score: theirs, ..rows[i] }
            } else {
                rows[i]
            },
    )
}

/// Whether a gateway match is among the rows.
pub open spec fn has_match(rows: Seq<RowView>, id: i64) -> bool {
    exists|i: int| 0 <= i < rows.len() && (#[trigger] rows[i]).gateway_match_id == id
}

/// The history after its rows have changed: shown afresh, as a new revision.
pub open spec fn with_rows(h: HistoryView, rows: Seq<RowView>) -> HistoryView {
    HistoryView {
        rows,
        records: shown(HistoryView { rows, ..h }),
        rev: (h.rev + 1) as u32,
        ..h
    }
}

/// The history after a match was taken back.
pub open spec fn after_revocation(h: HistoryView, id: u64) -> HistoryView {
    if h.open && has_match(h.rows, id as i64) {
        with_rows(h, with_revoked(h.rows, id as i64))
    } else {
        h
    }
}

/// The history after a score was corrected.
pub open spec fn after_correction(h: HistoryView, id: u64, mine: u32, theirs: u32) -> HistoryView {
    if h.open && has_match(h.rows, id as i64) {
        with_rows(h, with_score(h.rows, id as i64, mine as int, theirs as int))
    } else {
        h
    }
}

/// The history with a setting stored, if the database is open.
pub open spec fn with_setting(h: HistoryView, key: Seq<char>, value: Seq<char>) -> HistoryView {
    if h.open {
        HistoryView { settings: h.settings.insert(key, value), ..h }
    } else {
        h
    }
}

/// A stored setting.
pub open spec fn setting(h: HistoryView, key: Seq<char>) -> Option<Seq<char>> {
    if h.open && h.settings.contains_key(key) {
        Some(h.settings[key])
    } else {
        None
    }
}

/// The rating that is stored, or that of a new player.
pub open spec fn stored_rating(h: HistoryView) -> int {
    match setting(h, "rating"@) {
        Some(t) => match parse_signed_of(t, i32::MIN as int, i32::MAX as int) {
            Some(n) => n,
            None => DEFAULT_RATING as int,
        },
        None => DEFAULT_RATING as int,
    }
}

/// The bytes of the certificate that is stored.
pub open spec fn stored_proof(h: HistoryView) -> Option<Seq<u8>> {
    match setting(h, "rating_proof"@) {
        Some(t) => unhex_of(encode_utf8(t)),
        None => None,
    }
}

proof fn lemma_newest(rows: Seq<RowView>, n: nat)
    requires
        in_order(rows),
    ensures
        forall|i: int, j: int|
            0 <= i < j < newest(rows, n).len() ==> (#[trigger] newest(rows, n)[i]).id > (
            #[trigger] newest(rows, n)[j]).id,
        forall|i: int|
            0 <= i < newest(rows, n).len() ==> rows.contains(#[trigger] newest(rows, n)[i]),
        forall|i: int|
            0 <= i < rows.len() ==> (newest(rows, n).contains(#[trigger] rows[i]) <==> i
                >= rows.len() - n && shows(rows[i])),
    decreases n,
{
    let all = newest(rows, n);
    if n > 0 && rows.len() > 0 {
        let before = rows.drop_last();
        let rest = newest(before, (n - 1) as nat);
        let last = rows.last();
        lemma_newest(before, (n - 1) as nat);
        let skip: int = if shows(last) {
            1
        } else {
            0
        };
        assert(all =~= (if shows(last) {
            seq![last]
        } else {
            Seq::empty()
        }) + rest);
        assert forall|i: int| 0 <= i < rest.len() implies rows.contains(#[trigger] rest[i])
            && rest[i].id < last.id by {
            assert(before.contains(rest[i]));
            let k = choose|k: int| 0 <= k < before.len() && before[k] == rest[i];
            assert(rows[k] == rest[i]);
        }
        assert(rows.contains(last)) by {
            assert(rows[rows.len() - 1] == last);
        }
        assert forall|i: int| 0 <= i < rows.len() implies (all.contains(#[trigger] rows[i]) <==> i
            >= rows.len() - n && shows(rows[i])) by {
            let r = rows[i];
            if all.contains(r) {
                let k = choose|k: int| 0 <= k < all.len() && all[k] == r;
                if k >= skip {
                    assert(rest[k - skip] == r);
                    assert(rest.contains(r));
                    assert(r.id < last.id);
                    assert(before[i] == r);
                }
            }
            if i >= rows.len() - n && shows(r) {
                if i == rows.len() - 1 {
                    assert(all[0] == r);
                } else {
                    assert(before[i] == r);
                    assert(rest.contains(r));
                    let k = choose|k: int| 0 <= k < rest.len() && rest[k] == r;
                    assert(all[k + skip] == r);
                }
            }
        }
    }
}

/// An open history shows its latest matches, the highest number first: a
/// stored match is shown if it is one of the last ten and its points are
/// ordinary numbers.
pub proof fn latest_matches_are_shown(h: HistoryView)
    requires
        h.open,
        in_order(h.rows),
    ensures
        forall|i: int, j: int|
            0 <= i < j < shown(h).len() ==> (#[trigger] shown(h)[i]).id > (#[trigger] shown(
                h,
            )[j]).id,
        forall|i: int| 0 <= i < shown(h).len() ==> h.rows.contains(#[trigger] shown(h)[i]),
        forall|i: int|
            0 <= i < h.rows.len() ==> (shown(h).contains(#[trigger] h.rows[i]) <==> i
                >= h.rows.len() - HISTORY_LIMIT && shows(h.rows[i])),
{
    lemma_newest(h.rows, HISTORY_LIMIT as nat);
}

impl MatchHistory {
    /// The settings are a table, and the matches are in the order of their
    /// numbers.
    pub open spec fn wf(&self) -> bool {
        self.settings.wf() && in_order(self@.rows)
    }

    /// A history whose database is not open.
    pub fn new() -> (r: MatchHistory)
        ensures
            r.wf(),
            r@ == (HistoryView {
                open: false,
                rows: Seq::empty(),
                settings: Map::empty(),
                records: Seq::empty(),
                rev: 0,
                armed: false,
            }),
    {
        let r = MatchHistory {
            open: false,
            rows: Vec::new(),
            settings: Table::new(),
            records: Vec::new(),
            rev: 0,
            armed: false,
        };
        assert(r@.rows =~= Seq::empty());
        assert(r@.records =~= Seq::empty());
        r
    }

    /// Opens the history with what the database holds, unless it is open.
    pub fn ensure_open(&mut self, rows: Vec<HistoryRow>, settings: Table<String, String>)
        requires
            old(self).wf(),
            settings.wf(),
            in_order(row_views(rows@)),
        ensures
            final(self).wf(),
            ({
                let h = HistoryView {
                    open: true,
                    rows: row_views(rows@),
                    settings: settings@,
                    ..old(self)@
                };
                final(self)@ == if old(self)@.open {
                    old(self)@
                } else {
                    HistoryView { records: shown(h), ..h }
                }
            }),
    {
        if self.open {
            return ;
        }
        self.open = true;
        self.rows = rows;
        self.settings = settings;
        self.reload();
    }

    /// Shows the latest matches afresh.
    pub fn reload(&mut self)
        requires
            old(self).wf(),
        ensures
            final(self).wf(),
            final(self)@ == (HistoryView { records: shown(old(self)@), ..old(self)@ }),
    {
        let mut records: Vec<MatchRecord> = Vec::new();
        assert(record_views(records@) =~= Seq::empty());
        if self.open {
            let ghost all = row_views(self.rows@);
            let ghost total = newest(all, HISTORY_LIMIT as nat);
            let mut left: usize = HISTORY_LIMIT;
            let mut i: usize = self.rows.len();
            assert(all.take(i as int) =~= all);
            assert(record_views(records@) + newest(all, left as nat) =~= total);
            while i > 0 && left > 0
                invariant
                    0 <= i <= self.rows.len(),
                    all == row_views(self.rows@),
                    record_views(records@) + newest(all.take(i as int), left as nat) == total,
                decreases i,
            {
                let ghost before = record_views(records@);
                let ghost rows = all.take(i as int);
                assert(rows.last() == self.rows@[i - 1]@);
                assert(rows.drop_last() =~= all.take(i - 1));
                let ghost rest = newest(all.take(i - 1), (left - 1) as nat);
                let row = &self.rows[i - 1];
                let low: i64 = i32::MIN as i64;
                let high: i64 = i32::MAX as i64;
                if low <= row.my_score && row.my_score <= high && low <= row.opp_score
                    && row.opp_score <= high {
                    let rec = MatchRecord {
                        id: row.id,
                        happened_at: row.happened_at.clone(),
                        rival: row.rival.clone(),
                        rival_peer: copy_opt(&row.rival_peer),
                        my_score: row.my_score as i32,
                        opp_score: row.opp_score as i32,
                        was_host: row.was_host,
                        gateway_match_id: row.gateway_match_id,
                        revoked: row.revoked,
                    };
                    records.push(rec);
                    assert(record_views(records@) =~= before.push(rec@));
                    assert(before.push(rec@) + rest =~= before + (seq![rec@] + rest));
                }
                i -= 1;
                left -= 1;
            }
            assert(newest(all.take(i as int), left as nat) =~= Seq::empty());
            assert(record_views(records@) =~= total);
        }
        self.records = records;
    }

    /// Wins, losses and draws of the matches shown; those taken back do not
    /// count.
    pub fn wins_losses(&self) -> (r: (u32, u32, u32))
        requires
            self.records@.len() <= u32::MAX,
        ensures
            r.0 == count_results(self@.records, 1),
            r.1 == count_results(self@.records, -1),
            r.2 == count_results(self@.records, 0),
    {
        let mut w: u32 = 0;
        let mut l: u32 = 0;
        let mut d: u32 = 0;
        let mut i: usize = 0;
        let ghost rs = record_views(self.records@);
        assert(rs.take(0) =~= Seq::empty());
        while i < self.records.len()
            invariant
                0 <= i <= self.records.len() <= u32::MAX,
                rs == record_views(self.records@),
                w == count_results(rs.take(i as int), 1),
                l == count_results(rs.take(i as int), -1),
                d == count_results(rs.take(i as int), 0),
                w + l + d <= i,
            decreases self.records.len() - i,
        {
            let rec = &self.records[i];
            assert(rs.take(i + 1).drop_last() =~= rs.take(i as int));
            assert(rs.take(i + 1).last() == rec@);
            if !rec.revoked {
                if rec.my_score > rec.opp_score {
                    w += 1;
                } else if rec.my_score < rec.opp_score {
                    l += 1;
                } else {
                    d += 1;
                }
            }
            i += 1;
        }
        assert(rs.take(rs.len() as int) =~= rs);
        (w, l, d)
    }

    /// How many of the matches shown were taken back.
    pub fn revoked_count(&self) -> (r: u32)
        requires
            self.records@.len() <= u32::MAX,
        ensures
            r == count_revoked(self@.records),
    {
        let mut n: u32 = 0;
        let mut i: usize = 0;
        let ghost rs = record_views(self.records@);
        assert(rs.take(0) =~= Seq::empty());
        while i < self.records.len()
            invariant
                0 <= i <= self.records.len() <= u32::MAX,
                rs == record_views(self.records@),
                n == count_revoked(rs.take(i as int)),
                n <= i,
            decreases self.records.len() - i,
        {
            assert(rs.take(i + 1).drop_last() =~= rs.take(i as int));
            assert(rs.take(i + 1).last() == self.records@[i as int]@);
            if self.records[i].revoked {
                n += 1;
            }
            i += 1;
        }
        assert(rs.take(rs.len() as int) =~= rs);
        n
    }

    /// Marks every record of a gateway match as taken back.
    pub fn mark_match_revoked(&mut self, gateway_match_id: u64)
        requires
            old(self).wf(),
            old(self)@.rev < u32::MAX,
        ensures
            final(self).wf(),
            final(self)@ == after_revocation(old(self)@, gateway_match_id),
    {
        if !self.open {
            return ;
        }
        let id: i64 = gateway_match_id as i64;
        let ghost all = row_views(self.rows@);
        let mut rows: Vec<HistoryRow> = Vec::new();
        let mut changed = false;
        let mut i: usize = 0;
        while i < self.rows.len()
            invariant
                0 <= i <= self.rows.len(),
                all == row_views(self.rows@),
                rows@.len() == i,
                forall|j: int|
                    0 <= j < i ==> (#[trigger] rows@[j])@ == with_revoked(all, id)[j],
                changed <==> exists|j: int|
                    0 <= j < i && (#[trigger] all[j]).gateway_match_id == id,
            decreases self.rows.len() - i,
        {
            let row = &self.rows[i];
            assert(all[i as int] == row@);
            let hit = row.gateway_match_id == id;
            changed = changed || hit;
            rows.push(row.with_mark(row.revoked || hit));
            i += 1;
        }
        if changed {
            assert(row_views(rows@) =~= with_revoked(all, id));
            self.rows = rows;
            self.rev += 1;
            self.reload();
        }
    }

    /// Overwrites the score of every record of a gateway match.
    pub fn correct_score(&mut self, gateway_match_id: u64, my_score: u32, opp_score: u32)
        requires
            old(self).wf(),
            old(self)@.rev < u32::MAX,
        ensures
            final(self).wf(),
            final(self)@ == after_correction(old(self)@, gateway_match_id, my_score, opp_score),
    {
        if !self.open {
            return ;
        }
        let id: i64 = gateway_match_id as i64;
        let ghost all = row_views(self.rows@);
        let mut rows: Vec<HistoryRow> = Vec::new();
        let mut changed = false;
        let mut i: usize = 0;
        while i < self.rows.len()
            invariant
                0 <= i <= self.rows.len(),
                all == row_views(self.rows@),
                rows@.len() == i,
                forall|j: int|
                    0 <= j < i ==> (#[trigger] rows@[j])@ == with_score(
                        all,
                        id,
                        my_score as int,
                        opp_score as int,
                    )[j],
                changed <==> exists|j: int|
                    0 <= j < i && (#[trigger] all[j]).gateway_match_id == id,
            decreases self.rows.len() - i,
        {
            let row = &self.rows[i];
            assert(all[i as int] == row@);
            let mut copy = row.with_mark(row.revoked);
            if row.gateway_match_id == id {
                changed = true;
                copy.my_score = my_score as i64;
                copy.opp_score = opp_score as i64;
            }
            rows.push(copy);
            i += 1;
        }
        if changed {
            assert(row_views(rows@) =~= with_score(
                all,
                id,
                my_score as int,
                opp_score as int,
            ));
            self.rows = rows;
            self.rev += 1;
            self.reload();
        }
    }

    fn settings_value(&self, key: &str) -> (r: Option<String>)
        requires
            self.wf(),
        ensures
            opt_text(r) == setting(self@, key@),
    {
        if !self.open {
            return None;
        }
        let k = key.to_owned();
        match self.settings.get(&k) {
            Some(v) => Some(v.clone()),
            None => None,
        }
    }

    fn write_setting(&mut self, key: &str, value: &str)
        requires
            old(self).wf(),
        ensures
            final(self).wf(),
            final(self)@ == with_setting(old(self)@, key@, value@),
    {
        if self.open {
            self.settings.insert(key.to_owned(), value.to_owned());
        }
    }

    /// The stored name, if there is one.
    pub fn load_username(&self) -> (r: Option<String>)
        requires
            self.wf(),
        ensures
            opt_text(r) == setting(self@, "username"@),
    {
        self.settings_value("username")
    }

    /// Stores the name.
    pub fn save_username(&mut self, name: &str)
        requires
            old(self).wf(),
        ensures
            final(self).wf(),
            final(self)@ == with_setting(old(self)@, "username"@, name@),
    {
        self.write_setting("username", name);
    }

    /// The stored rating, or that of a new player.
    pub fn load_rating(&self) -> (r: i32)
        requires
            self.wf(),
        ensures
            r == stored_rating(self@),
    {
        match self.settings_value("rating") {
            Some(t) => {
                let v = chars_of(t.as_str());
                match parse_i32(&v) {
                    Some(n) => n,
                    None => DEFAULT_RATING,
                }
            },
            None => DEFAULT_RATING,
        }
    }

    /// Stores the rating.
    pub fn save_rating(&mut self, rating: i32)
        requires
            old(self).wf(),
        ensures
            final(self).wf(),
            final(self)@ == with_setting(old(self)@, "rating"@, signed_decimal_of(rating as int)),
    {
        self.write_setting("rating", signed_decimal(rating as i64).as_str());
    }

    /// The bytes of the newest certificate, if one is stored.
    pub fn load_rating_proof(&self) -> (r: Option<Vec<u8>>)
        requires
            self.wf(),
        ensures
            match r {
                Some(b) => stored_proof(self@) == Some(b@),
                None => stored_proof(self@) is None,
            },
    {
        match self.settings_value("rating_proof") {
            Some(t) => decode_hex(t.as_str()),
            None => None,
        }
    }

    /// Stores the bytes of a certificate.
    pub fn save_rating_proof(&mut self, bytes: &[u8])
        requires
            old(self).wf(),
        ensures
            final(self).wf(),
            final(self)@ == with_setting(old(self)@, "rating_proof"@, hex_of(bytes@)),
    {
        self.write_setting("rating_proof", encode_hex(bytes).as_str());
    }
}

impl HistoryRow {
    /// A copy, taken back or not.
    pub fn with_mark(&self, revoked: bool) -> (r: HistoryRow)
        ensures
            r@ == (RowView { revoked, ..self@ }),
    {
        HistoryRow {
            id: self.id,
            happened_at: self.happened_at.clone(),
            rival: self.rival.clone(),
            rival_peer: copy_opt(&self.rival_peer),
            my_score: self.my_score,
            opp_score: self.opp_score,
            was_host: self.was_host,
            gateway_match_id: self.gateway_match_id,
            revoked,
        }
    }
}

/// The next match that ends will be recorded.
pub fn arm_record(history: &mut MatchHistory)
    requires
        old(history).wf(),
    ensures
        final(history).wf(),
        final(history)@ == (HistoryView { armed: true, ..old(history)@ }),
{
    history.armed = true;
}

/// Shows the history afresh when the menu opens.
pub fn refresh_on_menu(history: &mut MatchHistory)
    requires
        old(history).wf(),
    ensures
        final(history).wf(),
        final(history)@ == (HistoryView { records: shown(old(history)@), ..old(history)@ }),
{
    history.reload();
}

/// How a match ended.
pub struct MatchEnd<'a> {
    pub is_host: bool,
    pub player_score: u32,
    pub opponent_score: u32,
    /// The last state that the host sent.
    pub world: Option<GameSnapshot>,
    pub opponent: Option<PeerId>,
    /// The opponent's name, if it is known.
    pub rival_name: Option<&'a str>,
    /// The gateway, if there is one to report to.
    pub gateway: Option<PeerId>,
    /// The gateway's number of the match, or zero.
    pub match_id: u64,
    pub match_over: bool,
}

/// The points of the two players and whether we were the host; unknown where
/// the host never sent any.
pub open spec fn final_score(e: MatchEnd) -> Option<(u32, u32, bool)> {
    if e.is_host {
        Some((e.player_score, e.opponent_score, true))
    } else {
        match e.world {
            Some(s) => Some((s.opponent_score, s.player_score, false)),
            None => None,
        }
    }
}

/// Whether a match that ended is recorded and reported.
pub open spec fn counts(h: HistoryView, e: MatchEnd) -> bool {
    h.armed && h.open && e.opponent is Some && e.match_over && final_score(e) is Some
}

pub open spec fn rival_label(e: MatchEnd) -> Seq<char> {
    match e.rival_name {
        Some(n) => n@,
        None => "Jugador"@,
    }
}

/// The number of the next row.
pub open spec fn next_row_id(rows: Seq<RowView>) -> int {
    if rows.len() == 0 {
        1
    } else {
        rows.last().id + 1
    }
}

/// The row of a match that ended.
pub open spec fn new_row(h: HistoryView, e: MatchEnd, now: Seq<char>) -> RowView {
    let (mine, theirs, was_host) = final_score(e)->0;
    RowView {
        id: next_row_id(h.rows) as i64,
        happened_at: now,
        rival: rival_label(e),
        rival_peer: Some(base58(e.opponent->0)),
        my_score: mine as int,
        opp_score: theirs as int,
        was_host,
        gateway_match_id: e.match_id as i64,
        revoked: false,
    }
}

/// The history after a match ended.
pub open spec fn after_match(h: HistoryView, e: MatchEnd, now: Seq<char>) -> HistoryView {
    let h1 = HistoryView { armed: false, ..h };
    if counts(h, e) && next_row_id(h.rows) <= i64::MAX {
        with_rows(h1, h.rows.push(new_row(h, e, now)))
    } else {
        h1
    }
}

/// What the gateway is told of a match that ended.
pub open spec fn report_of(h: HistoryView, e: MatchEnd) -> Option<(PeerId, GatewayRequestView)> {
    if counts(h, e) && e.gateway is Some {
        let (mine, theirs, was_host) = final_score(e)->0;
        Some(
            (
                e.gateway->0,
                GatewayRequestView::ReportResult {
                    match_id: e.match_id,
                    opponent: base58(e.opponent->0),
                    my_score: mine,
                    opponent_score: theirs,
                },
            ),
        )
    } else {
        None
    }
}

/// Records the match that has ended, if it counts, and returns what the
/// gateway is told of it. A match without a winner does not count.
pub fn record_match(history: &mut MatchHistory, end: &MatchEnd, now: &str) -> (r: Option<
    (PeerId, GatewayRequest),
>)
    requires
        old(history).wf(),
        old(history)@.rev < u32::MAX,
        end.opponent matches Some(p) ==> p.wf(),
    ensures
        final(history).wf(),
        final(history)@ == after_match(old(history)@, *end, now@),
        match r {
            Some((p, m)) => report_of(old(history)@, *end) == Some((p, m@)),
            None => report_of(old(history)@, *end) is None,
        },
{
    if !history.armed {
        return None;
    }
    history.armed = false;
    if !history.open {
        return None;
    }
    let rival = match end.opponent {
        Some(p) => p,
        None => {
            return None;
        },
    };
    if !end.match_over {
        return None;
    }
    let (mine, theirs, was_host) = if end.is_host {
        (end.player_score, end.opponent_score, true)
    } else {
        match end.world {
            Some(s) => (s.opponent_score, s.player_score, false),
            None => {
                return None;
            },
        }
    };
    let name = match end.rival_name {
        Some(n) => n.to_owned(),
        None => "Jugador".to_owned(),
    };
    let n: usize = history.rows.len();
    let last: i64 = if n == 0 {
        0
    } else {
        assert(row_views(history.rows@).last() == history.rows@[n - 1]@);
        history.rows[n - 1].id
    };
    if last < i64::MAX {
        let row = HistoryRow {
            id: last + 1,
            happened_at: now.to_owned(),
            rival: name,
            rival_peer: Some(rival.to_base58()),
            my_score: mine as i64,
            opp_score: theirs as i64,
            was_host,
            gateway_match_id: end.match_id as i64,
            revoked: false,
        };
        let ghost before = row_views(history.rows@);
        history.rows.push(row);
        assert(row_views(history.rows@) =~= before.push(row@));
        history.rev += 1;
        history.reload();
    }
    match end.gateway {
        Some(gateway) => Some(
            (
                gateway,
                GatewayRequest::ReportResult {
                    match_id: end.match_id,
                    opponent: rival.to_base58(),
                    my_score: mine,
                    opponent_score: theirs,
                },
            ),
        ),
        None => None,
    }
}

// ---------------------------------------------------------------------------
// Laws
// ---------------------------------------------------------------------------

/// While the database is open, name, rating and certificate are read back as
/// they were stored, and storing one leaves the others alone.
pub proof fn settings_read_back(h: HistoryView, name: Seq<char>, rating: i32, bytes: Seq<u8>)
    requires
        h.open,
    ensures
        ({
            let h1 = with_setting(h, "username"@, name);
            let h2 = with_setting(h1, "rating"@, signed_decimal_of(rating as int));
            let h3 = with_setting(h2, "rating_proof"@, hex_of(bytes));
            &&& setting(h3, "username"@) == Some(name)
            &&& stored_rating(h3) == rating
            &&& stored_proof(h3) == Some(bytes)
        }),
{
    reveal_strlit("username");
    reveal_strlit("rating");
    reveal_strlit("rating_proof");
    assert("username"@.len() == 8 && "rating"@.len() == 6 && "rating_proof"@.len() == 12);
    signed_decimal_reads_back(rating as int, i32::MIN as int, i32::MAX as int);
    hex_reads_back(bytes);
}

proof fn lemma_newest_len(rows: Seq<RowView>, n: nat)
    ensures
        newest(rows, n).len() <= n,
    decreases n,
{
    if n > 0 && rows.len() > 0 {
        lemma_newest_len(rows.drop_last(), (n - 1) as nat);
    }
}

/// At most [`HISTORY_LIMIT`] matches are shown, and a match that has just been
/// recorded is the first of them.
pub proof fn newest_match_comes_first(h: HistoryView, e: MatchEnd, now: Seq<char>)
    requires
        counts(h, e),
        next_row_id(h.rows) <= i64::MAX,
        shows(new_row(h, e, now)),
    ensures
        after_match(h, e, now).records.len() <= HISTORY_LIMIT,
        after_match(h, e, now).records.len() > 0,
        after_match(h, e, now).records[0] == new_row(h, e, now),
{
    let rows = h.rows.push(new_row(h, e, now));
    lemma_newest_len(rows, HISTORY_LIMIT as nat);
    assert(rows.last() == new_row(h, e, now));
}

/// A match that was taken back counts neither as won nor lost nor drawn.
pub proof fn revoked_matches_do_not_count(rs: Seq<RowView>, r: RowView, sign: int)
    requires
        r.revoked,
    ensures
        count_results(rs.push(r), sign) == count_results(rs, sign),
        count_revoked(rs.push(r)) == count_revoked(rs) + 1,
{
    assert(rs.push(r).drop_last() =~= rs);
}

/// Taking back a match that is not there changes nothing.
pub proof fn unknown_revocations_change_nothing(h: HistoryView, id: u64)
    requires
        !has_match(h.rows, id as i64),
    ensures
        after_revocation(h, id) == h,
{
}

/// A match without a winner is neither recorded nor reported.
pub proof fn unfinished_matches_do_not_count(h: HistoryView, e: MatchEnd, now: Seq<char>)
    requires
        !e.match_over,
    ensures
        after_match(h, e, now).rows == h.rows,
        report_of(h, e) is None,
{
}

/// Taking a match back marks every stored record of it, whose other parts stay,
/// and leaves the record of every other match exactly as it was. Settings stay,
/// and what is shown is the new state.
pub proof fn revoking_marks_one_match(h: HistoryView, id: u64, i: int)
    requires
        h.open,
        0 <= i < h.rows.len(),
    ensures
        ({
            let after = after_revocation(h, id);
            let was = h.rows[i];
            let got = after.rows[i];
            &&& after.rows.len() == h.rows.len()
            &&& was.gateway_match_id != id as i64 ==> got == was
            &&& was.gateway_match_id == id as i64 ==> got.revoked && got == (RowView {
                revoked: got.revoked,
                ..was
            })
            &&& after.settings == h.settings && after.open && after.armed == h.armed
            &&& was.gateway_match_id == id as i64 ==> after.rev == (h.rev + 1) as u32
                && after.records == shown(after)
        }),
{
}

/// Correcting a score gives every stored record of the match the points told,
/// the own ones first, and leaves everything else of it, and the record of
/// every other match, exactly as it was.
pub proof fn correcting_rescores_one_match(
    h: HistoryView,
    id: u64,
    mine: u32,
    theirs: u32,
    i: int,
)
    requires
        h.open,
        0 <= i < h.rows.len(),
    ensures
        ({
            let after = after_correction(h, id, mine, theirs);
            let was = h.rows[i];
            let got = after.rows[i];
            &&& after.rows.len() == h.rows.len()
            &&& was.gateway_match_id != id as i64 ==> got == was
            &&& was.gateway_match_id == id as i64 ==> got.my_score == mine && got.opp_score == theirs && got
                == (RowView { my_score: got.my_score, opp_score: got.opp_score, ..was })
            &&& after.settings == h.settings && after.open && after.armed == h.armed
            &&& was.gateway_match_id == id as i64 ==> after.rev == (h.rev + 1) as u32
                && after.records == shown(after)
        }),
{
}

/// What a gateway says of a match that is not stored here changes nothing, nor
/// does anything that it says while the database is closed.
pub proof fn news_of_other_matches_change_nothing(h: HistoryView, id: u64, mine: u32, theirs: u32)
    requires
        !h.open || forall|i: int|
            0 <= i < h.rows.len() ==> (#[trigger] h.rows[i]).gateway_match_id != id as i64,
    ensures
        after_revocation(h, id) == h,
        after_correction(h, id, mine, theirs) == h,
{
}

/// The last word of the gateway on a score counts, and taking a match back
/// takes its points into account as little as the order of the two.
pub proof fn the_last_score_counts(
    h: HistoryView,
    id: u64,
    wrong: u32,
    wrong_too: u32,
    mine: u32,
    theirs: u32,
)
    requires
        h.open,
    ensures
        after_correction(after_correction(h, id, wrong, wrong_too), id, mine, theirs).rows
            == after_correction(h, id, mine, theirs).rows,
        after_revocation(after_correction(h, id, mine, theirs), id).rows == after_correction(
            after_revocation(h, id),
            id,
            mine,
            theirs,
        ).rows,
        after_revocation(after_revocation(h, id), id).rows == after_revocation(h, id).rows,
{
    let one = after_correction(h, id, wrong, wrong_too);
    let two = after_revocation(h, id);
    let three = after_correction(h, id, mine, theirs);
    if has_match(h.rows, id as i64) {
        let k = choose|k: int|
            0 <= k < h.rows.len() && (#[trigger] h.rows[k]).gateway_match_id == id as i64;
        assert(one.rows[k].gateway_match_id == id as i64);
        assert(two.rows[k].gateway_match_id == id as i64);
        assert(three.rows[k].gateway_match_id == id as i64);
    }
    assert(after_correction(one, id, mine, theirs).rows =~= three.rows);
    assert(after_revocation(three, id).rows =~= after_correction(two, id, mine, theirs).rows);
    assert(after_revocation(two, id).rows =~= two.rows);
}

/// A match more counts once: as won with more points than the other, as lost
/// with fewer, as drawn with as many, or as taken back.
pub proof fn every_match_counts_once(rs: Seq<RowView>, r: RowView)
    ensures
        ({
            let more = rs.push(r);
            let won = if !r.revoked && r.my_score > r.opp_score {
                1int
            } else {
                0
            };
            let lost = if !r.revoked && r.my_score < r.opp_score {
                1int
            } else {
                0
            };
            let drawn = if !r.revoked && r.my_score == r.opp_score {
                1int
            } else {
                0
            };
            let gone = if r.revoked {
                1int
            } else {
                0
            };
            &&& count_results(more, 1) == count_results(rs, 1) + won
            &&& count_results(more, -1) == count_results(rs, -1) + lost
            &&& count_results(more, 0) == count_results(rs, 0) + drawn
            &&& count_revoked(more) == count_revoked(rs) + gone
            &&& count_results(Seq::<RowView>::empty(), 1) == 0
            &&& count_results(Seq::<RowView>::empty(), -1) == 0
            &&& count_results(Seq::<RowView>::empty(), 0) == 0
            &&& count_revoked(Seq::<RowView>::empty()) == 0
        }),
{
    assert(rs.push(r).drop_last() =~= rs);
}

/// The tally leaves no match out.
pub proof fn the_tally_is_complete(rs: Seq<RowView>)
    ensures
        count_results(rs, 1) + count_results(rs, -1) + count_results(rs, 0) + count_revoked(rs)
            == rs.len(),
    decreases rs.len(),
{
    if rs.len() > 0 {
        the_tally_is_complete(rs.drop_last());
        every_match_counts_once(rs.drop_last(), rs.last());
        assert(rs =~= rs.drop_last().push(rs.last()));
    }
}

/// A match that ended is recorded once, behind all the others, with the points
/// as we saw them, the rival and the gateway's number; the rest of the history
/// stays. Without an armed record, an open database, a rival or a winner nothing
/// is recorded, and either way the next end is not recorded again.
pub proof fn ended_matches_are_recorded(h: HistoryView, e: MatchEnd, now: Seq<char>)
    requires
        in_order(h.rows),
        h.rows.len() > 0 ==> h.rows.last().id < i64::MAX,
    ensures
        ({
            let after = after_match(h, e, now);
            let counted = h.armed && h.open && e.opponent is Some && e.match_over && (e.is_host
                || e.world is Some);
            let row = after.rows.last();
            &&& !after.armed
            &&& after.settings == h.settings && after.open == h.open
            &&& !counted ==> after.rows == h.rows && after.records == h.records && after.rev
                == h.rev
            &&& counted ==> after.rows.len() == h.rows.len() + 1 && after.rows.drop_last()
                == h.rows && after.records == shown(after) && after.rev == (h.rev + 1) as u32
            &&& counted ==> in_order(after.rows)
            &&& counted ==> row.happened_at == now && !row.revoked && row.rival_peer == Some(
                base58(e.opponent->0),
            ) && row.was_host == e.is_host
            &&& counted && e.match_id <= i64::MAX ==> row.gateway_match_id == e.match_id
            &&& counted && e.is_host ==> row.my_score == e.player_score && row.opp_score
                == e.opponent_score
            &&& counted && !e.is_host ==> row.my_score == e.world->0.opponent_score
                && row.opp_score == e.world->0.player_score
            &&& counted && e.rival_name is Some ==> row.rival == e.rival_name->0@
            &&& counted && e.rival_name is None ==> row.rival == "Jugador"@
        }),
{
    let after = after_match(h, e, now);
    if counts(h, e) {
        assert(after.rows.drop_last() =~= h.rows);
        assert forall|i: int, j: int| 0 <= i < j < after.rows.len() implies #[trigger] after.rows[i].id
            < #[trigger] after.rows[j].id by {
            if j == h.rows.len() && i < h.rows.len() - 1 {
                assert(h.rows[i].id < h.rows[h.rows.len() - 1].id);
            }
        }
    }
}

/// The gateway is told of a match that was recorded, with the opponent, the
/// match's number and the points, the own ones first; both players tell it the
/// same points.
pub proof fn recorded_matches_are_reported(h: HistoryView, e: MatchEnd)
    requires
        h.armed,
        h.open,
        e.match_over,
        e.opponent is Some,
        e.is_host || e.world is Some,
    ensures
        e.gateway is None ==> report_of(h, e) is None,
        e.gateway is Some ==> report_of(h, e) is Some && (report_of(h, e)->0).0 == e.gateway->0,
        e.gateway is Some ==> (report_of(h, e)->0).1 == (GatewayRequestView::ReportResult {
            match_id: e.match_id,
            opponent: base58(e.opponent->0),
            my_score: if e.is_host {
                e.player_score
            } else {
                e.world->0.opponent_score
            },
            opponent_score: if e.is_host {
                e.opponent_score
            } else {
                e.world->0.player_score
            },
        }),
{
}

/// Nothing is stored while the database is closed, and nothing that was stored
/// before is lost but what it replaces.
pub proof fn settings_are_kept_apart(
    h: HistoryView,
    key: Seq<char>,
    value: Seq<char>,
    other: Seq<char>,
)
    ensures
        h.open ==> setting(with_setting(h, key, value), key) == Some(value),
        other != key ==> setting(with_setting(h, key, value), other) == setting(h, other),
        !h.open ==> with_setting(h, key, value) == h && setting(h, key) is None,
        h.open && !h.settings.contains_key(key) ==> setting(h, key) is None,
        with_setting(h, key, value).rows == h.rows,
        with_setting(h, key, value).records == h.records,
{
}

/// Who has no rating stored, or one that is no number, has 800.
pub proof fn missing_ratings_are_those_of_newcomers(h: HistoryView)
    ensures
        setting(h, "rating"@) is None ==> stored_rating(h) == 800,
        setting(h, "rating"@) matches Some(t) ==> (parse_signed_of(
            t,
            i32::MIN as int,
            i32::MAX as int,
        ) is None ==> stored_rating(h) == 800),
        setting(h, "rating_proof"@) is None ==> stored_proof(h) is None,
{
}

} // verus!
