//! The gateways that a client knows, sorted by latency.
use vstd::prelude::*;

use crate::client::GATEWAY_DEFAULT_ADDR;
use crate::text::{chars_of, split, split_of, text_of, trim, trim_chars, trim_of, views};

verus! {

/// How often the latencies are measured.
pub const SERVER_PING_NANOS: u64 = 30_000_000_000;

/// A gateway and the latency measured to it.
#[derive(Debug)]
pub struct ServerEntry {
    pub address: String,
    pub ping_ms: Option<u64>,
}

pub struct ServerView {
    pub address: Seq<char>,
    pub ping_ms: Option<u64>,
}

impl View for ServerEntry {
    type V = ServerView;

    open spec fn view(&self) -> ServerView {
        ServerView { address: self.address@, ping_ms: self.ping_ms }
    }
}

pub open spec fn server_views(v: Seq<ServerEntry>) -> Seq<ServerView> {
    Seq::new(v.len(), |i: int| v[i]@)
}

/// The latency that servers are sorted by; one that is not known is last.
pub open spec fn ping_key(s: ServerView) -> u64 {
    match s.ping_ms {
        Some(ms) => ms,
        None => u64::MAX,
    }
}

/// A sorted list with one more server, behind all of the same latency.
pub open spec fn insert_by_ping(s: Seq<ServerView>, e: ServerView) -> Seq<ServerView>
    decreases s.len(),
{
    if s.len() == 0 || ping_key(s.last()) <= ping_key(e) {
        s.push(e)
    } else {
        insert_by_ping(s.drop_last(), e).push(s.last())
    }
}

/// The servers sorted by latency; those of the same latency keep their order.
pub open spec fn sort_by_ping(s: Seq<ServerView>) -> Seq<ServerView>
    decreases s.len(),
{
    if s.len() == 0 {
        s
    } else {
        insert_by_ping(sort_by_ping(s.drop_last()), s.last())
    }
}

fn ping_of(s: &ServerEntry) -> (r: u64)
    ensures
        r == ping_key(s@),
{
    match s.ping_ms {
        Some(ms) => ms,
        None => u64::MAX,
    }
}

fn insert_sorted(s: &mut Vec<ServerEntry>, e: ServerEntry)
    ensures
        server_views(final(s)@) == insert_by_ping(server_views(old(s)@), e@),
{
    let mut i: usize = s.len();
    let key: u64 = ping_of(&e);
    let ghost v = server_views(s@);
    assert(v.take(i as int) =~= v);
    assert(insert_by_ping(v.take(i as int), e@) + v.skip(i as int) =~= insert_by_ping(v, e@));
    while i > 0 && ping_of(&s[i - 1]) > key
        invariant
            0 <= i <= s.len(),
            s@ == old(s)@,
            v == server_views(s@),
            key == ping_key(e@),
            insert_by_ping(v.take(i as int), e@) + v.skip(i as int) == insert_by_ping(v, e@),
        decreases i,
    {
        let ghost t = v.take(i as int);
        assert(t.last() == s@[i - 1]@);
        assert(t.drop_last() =~= v.take(i - 1));
        assert(insert_by_ping(t.drop_last(), e@).push(t.last()) + v.skip(i as int)
            =~= insert_by_ping(t.drop_last(), e@) + v.skip(i - 1));
        i -= 1;
    }
    assert(i > 0 ==> v.take(i as int).last() == s@[i - 1]@);
    assert(v.insert(i as int, e@) =~= v.take(i as int).push(e@) + v.skip(i as int));
    s.insert(i, e);
    assert(server_views(s@) =~= v.insert(i as int, e@));
}

/// Sorts servers by the latencies measured to them.
pub fn sort_servers_by_ping(servers: Vec<ServerEntry>) -> (r: Vec<ServerEntry>)
    ensures
        server_views(r@) == sort_by_ping(server_views(servers@)),
{
    let mut out: Vec<ServerEntry> = Vec::new();
    let ghost v = server_views(servers@);
    let mut i: usize = 0;
    assert(v.take(0) =~= Seq::empty());
    assert(server_views(out@) =~= Seq::empty());
    while i < servers.len()
        invariant
            0 <= i <= servers.len(),
            v == server_views(servers@),
            server_views(out@) == sort_by_ping(v.take(i as int)),
        decreases servers.len() - i,
    {
        assert(v.take(i + 1).drop_last() =~= v.take(i as int));
        let e = ServerEntry {
            address: servers[i].address.clone(),
            ping_ms: servers[i].ping_ms,
        };
        assert(v.take(i + 1).last() == e@);
        insert_sorted(&mut out, e);
        i += 1;
    }
    assert(v.take(v.len() as int) =~= v);
    out
}

/// The servers named in a list with commas between them.
pub open spec fn listed_servers(pieces: Seq<Seq<char>>) -> Seq<ServerView>
    decreases pieces.len(),
{
    if pieces.len() == 0 {
        Seq::empty()
    } else {
        let front = listed_servers(pieces.drop_last());
        let address = trim_of(pieces.last());
        if address.len() == 0 {
            front
        } else {
            front.push(ServerView { address, ping_ms: None })
        }
    }
}

/// The servers that a client knows: those of the file, measured, if there are
/// any; else those of the environment, if it names any; else the default.
pub open spec fn known_servers(
    file: Option<Seq<ServerView>>,
    environment: Option<Seq<char>>,
) -> Seq<ServerView> {
    match file {
        Some(servers) if servers.len() > 0 => sort_by_ping(servers),
        _ => match environment {
            Some(text) if trim_of(text).len() > 0 => listed_servers(split_of(text, ',')),
            _ => seq![ServerView { address: GATEWAY_DEFAULT_ADDR@, ping_ms: None }],
        },
    }
}

pub open spec fn opt_servers(file: Option<Vec<ServerEntry>>) -> Option<Seq<ServerView>> {
    match file {
        Some(v) => Some(server_views(v@)),
        None => None,
    }
}

fn servers_in_list(text: &str) -> (r: Vec<ServerEntry>)
    ensures
        server_views(r@) == listed_servers(split_of(text@, ',')),
{
    let mut out: Vec<ServerEntry> = Vec::new();
    let v = chars_of(text);
    let pieces = split(&v, ',');
    let ghost ps = views(pieces@);
    let mut i: usize = 0;
    assert(ps.take(0) =~= Seq::empty());
    assert(server_views(out@) =~= Seq::empty());
    while i < pieces.len()
        invariant
            0 <= i <= pieces.len(),
            ps == views(pieces@),
            server_views(out@) == listed_servers(ps.take(i as int)),
        decreases pieces.len() - i,
    {
        assert(ps.take(i + 1).drop_last() =~= ps.take(i as int));
        assert(ps.take(i + 1).last() == pieces@[i as int]@);
        let t = trim_chars(&pieces[i]);
        let ghost before = server_views(out@);
        if t.len() > 0 {
            let e = ServerEntry { address: text_of(&t), ping_ms: None };
            out.push(e);
            assert(server_views(out@) =~= before.push(e@));
        }
        i += 1;
    }
    assert(ps.take(ps.len() as int) =~= ps);
    out
}

/// The servers that a client knows, given those that the file names, with
/// their latencies, and what the environment says.
pub fn load_gateway_addresses(file: Option<Vec<ServerEntry>>, environment: Option<&str>) -> (r: Vec<
    ServerEntry,
>)
    ensures
        server_views(r@) == known_servers(
            opt_servers(file),
            match environment {
                Some(t) => Some(t@),
                None => None,
            },
        ),
{
    if let Some(servers) = file {
        if servers.len() > 0 {
            return sort_servers_by_ping(servers);
        }
    }
    if let Some(text) = environment {
        if !trim(text).as_str().is_empty() {
            return servers_in_list(text);
        }
    }
    let mut out: Vec<ServerEntry> = Vec::new();
    let e = ServerEntry { address: GATEWAY_DEFAULT_ADDR.to_owned(), ping_ms: None };
    out.push(e);
    assert(server_views(out@) =~= seq![
        ServerView { address: GATEWAY_DEFAULT_ADDR@, ping_ms: None },
    ]);
    out
}

// ---------------------------------------------------------------------------
// Laws
// ---------------------------------------------------------------------------

proof fn lemma_insert_by_ping(s: Seq<ServerView>, e: ServerView)
    requires
        forall|i: int, j: int| 0 <= i <= j < s.len() ==> ping_key(s[i]) <= ping_key(s[j]),
    ensures
        insert_by_ping(s, e).len() == s.len() + 1,
        insert_by_ping(s, e).to_multiset() == s.to_multiset().insert(e),
        forall|i: int, j: int|
            0 <= i <= j < s.len() + 1 ==> ping_key(insert_by_ping(s, e)[i]) <= ping_key(
                insert_by_ping(s, e)[j],
            ),
        forall|i: int| #![trigger insert_by_ping(s, e)[i]]
            0 <= i < s.len() + 1 ==> ping_key(insert_by_ping(s, e)[i]) <= ping_key(e) || (s.len()
                > 0 && ping_key(insert_by_ping(s, e)[i]) <= ping_key(s.last())),
    decreases s.len(),
{
    broadcast use vstd::seq_lib::group_to_multiset_ensures;

    let r = insert_by_ping(s, e);
    if s.len() > 0 && ping_key(s.last()) > ping_key(e) {
        let t = s.drop_last();
        let w = insert_by_ping(t, e);
        lemma_insert_by_ping(t, e);
        assert(s =~= t.push(s.last()));
        assert(r.to_multiset() =~= s.to_multiset().insert(e));
        assert forall|i: int, j: int| 0 <= i <= j < r.len() implies ping_key(r[i]) <= ping_key(
            r[j],
        ) by {
            if j == w.len() && i < j {
                assert(w[i] == r[i]);
                if t.len() > 0 {
                    assert(ping_key(s[s.len() - 2]) <= ping_key(s[s.len() - 1]));
                }
            }
        }
    }
}

/// Sorting keeps the servers and brings the lowest latency to the front.
pub proof fn fastest_servers_come_first(s: Seq<ServerView>)
    ensures
        sort_by_ping(s).len() == s.len(),
        sort_by_ping(s).to_multiset() == s.to_multiset(),
        forall|i: int, j: int|
            0 <= i <= j < s.len() ==> ping_key(sort_by_ping(s)[i]) <= ping_key(sort_by_ping(s)[j]),
    decreases s.len(),
{
    broadcast use vstd::seq_lib::group_to_multiset_ensures;

    if s.len() > 0 {
        fastest_servers_come_first(s.drop_last());
        lemma_insert_by_ping(sort_by_ping(s.drop_last()), s.last());
        assert(s =~= s.drop_last().push(s.last()));
    }
}

/// A server whose latency is known comes before one whose latency is not, and
/// of two known ones the faster.
pub proof fn known_latencies_come_first(s: Seq<ServerView>, i: int, j: int)
    requires
        0 <= i < j < s.len(),
        forall|k: int| 0 <= k < s.len() ==> (#[trigger] s[k]).ping_ms != Some(u64::MAX),
    ensures
        sort_by_ping(s)[j].ping_ms matches Some(b) ==> (sort_by_ping(s)[i].ping_ms matches Some(a)
            && a <= b),
        sort_by_ping(s)[i].ping_ms is None ==> sort_by_ping(s)[j].ping_ms is None,
{
    broadcast use vstd::seq_lib::group_to_multiset_ensures;

    let r = sort_by_ping(s);
    fastest_servers_come_first(s);
    assert(ping_key(r[i]) <= ping_key(r[j]));
    assert(r.contains(r[i]) && r.contains(r[j]));
    assert(r.to_multiset().count(r[j]) > 0 && r.to_multiset().count(r[i]) > 0);
    assert(s.contains(r[i]) && s.contains(r[j]));
    let x = choose|x: int| 0 <= x < s.len() && s[x] == r[i];
    let y = choose|y: int| 0 <= y < s.len() && s[y] == r[j];
    assert(s[x].ping_ms != Some(u64::MAX) && s[y].ping_ms != Some(u64::MAX));
}

/// Whether a server has a latency.
pub open spec fn measured_as(ping: Option<u64>) -> spec_fn(ServerView) -> bool {
    |s: ServerView| s.ping_ms == ping
}

proof fn lemma_filter_server(s: Seq<ServerView>, e: ServerView, f: spec_fn(ServerView) -> bool)
    ensures
        s.push(e).filter(f) == if f(e) {
            s.filter(f).push(e)
        } else {
            s.filter(f)
        },
{
    reveal(Seq::filter);
    assert(s.push(e).drop_last() =~= s);
}

proof fn lemma_insert_same(s: Seq<ServerView>, e: ServerView, ping: Option<u64>)
    ensures
        insert_by_ping(s, e).filter(measured_as(ping)) == s.push(e).filter(measured_as(ping)),
    decreases s.len(),
{
    let f = measured_as(ping);
    if s.len() > 0 && ping_key(s.last()) > ping_key(e) {
        let t = s.drop_last();
        lemma_insert_same(t, e, ping);
        assert(s =~= t.push(s.last()));
        lemma_filter_server(insert_by_ping(t, e), s.last(), f);
        lemma_filter_server(t, e, f);
        lemma_filter_server(t, s.last(), f);
        lemma_filter_server(s, e, f);
    }
}

/// Servers of one latency keep the order of the list.
pub proof fn equally_fast_servers_keep_their_order(s: Seq<ServerView>, ping: Option<u64>)
    ensures
        sort_by_ping(s).filter(measured_as(ping)) == s.filter(measured_as(ping)),
    decreases s.len(),
{
    let f = measured_as(ping);
    if s.len() > 0 {
        let t = s.drop_last();
        equally_fast_servers_keep_their_order(t, ping);
        lemma_insert_same(sort_by_ping(t), s.last(), ping);
        lemma_filter_server(sort_by_ping(t), s.last(), f);
        lemma_filter_server(t, s.last(), f);
        assert(s =~= t.push(s.last()));
    }
}

/// Every piece of a list that is not blank names a server, without the blanks
/// around it, in order.
pub proof fn lists_name_servers(a: Seq<Seq<char>>, piece: Seq<char>)
    ensures
        listed_servers(Seq::empty()).len() == 0,
        trim_of(piece).len() == 0 ==> listed_servers(a.push(piece)) == listed_servers(a),
        trim_of(piece).len() > 0 ==> ({
            let l = listed_servers(a.push(piece));
            &&& l.len() == listed_servers(a).len() + 1
            &&& l.drop_last() == listed_servers(a)
            &&& l.last().address == trim_of(piece)
            &&& l.last().ping_ms is None
        }),
{
    assert(a.push(piece).drop_last() =~= a);
    if trim_of(piece).len() > 0 {
        assert(listed_servers(a.push(piece)).drop_last() =~= listed_servers(a));
    }
}

/// The file comes before the environment, and the environment before the
/// gateway on this machine; an empty file or a blank environment is none.
pub proof fn the_file_comes_first(file: Seq<ServerView>, text: Seq<char>)
    ensures
        file.len() > 0 ==> known_servers(Some(file), Some(text)) == sort_by_ping(file)
            && known_servers(Some(file), None) == sort_by_ping(file),
        file.len() == 0 ==> known_servers(Some(file), Some(text)) == known_servers(
            None,
            Some(text),
        ),
        trim_of(text).len() > 0 ==> known_servers(None, Some(text)) == listed_servers(
            split_of(text, ','),
        ),
        trim_of(text).len() == 0 ==> known_servers(None, Some(text)) == known_servers(None, None),
        known_servers(None, None).len() == 1,
        known_servers(None, None)[0].address == "/ip4/127.0.0.1/tcp/4001"@,
        known_servers(None, None)[0].ping_ms is None,
{
}

} // verus!
