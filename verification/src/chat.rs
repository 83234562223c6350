//! Chat between players, and the history of measured latencies.
use vstd::prelude::*;

use crate::client::to_player;
use crate::net::{command_views, no_commands, send, NetCommand, NetCommandView};
use crate::peer::{base58, short_peer, short_text, PeerId};
use crate::protocol::Request;
use crate::servers::ServerEntry;
use crate::table::Table;
use crate::text::{trim, trim_of};

verus! {

/// How many messages are kept.
pub const MAX_MESSAGES: usize = 50;

/// How many latencies are kept of a server.
pub const MAX_PINGS: usize = 60;

/// A message.
pub struct ChatMessage {
    pub from_name: String,
    pub text: String,
    pub is_local: bool,
}

pub struct ChatView {
    pub from_name: Seq<char>,
    pub text: Seq<char>,
    pub is_local: bool,
}

impl View for ChatMessage {
    type V = ChatView;

    open spec fn view(&self) -> ChatView {
        ChatView { from_name: self.from_name@, text: self.text@, is_local: self.is_local }
    }
}

/// The latest messages.
pub struct ChatBuffer {
    pub messages: Vec<ChatMessage>,
}

impl View for ChatBuffer {
    type V = Seq<ChatView>;

    open spec fn view(&self) -> Seq<ChatView> {
        Seq::new(self.messages@.len(), |i: int| self.messages@[i]@)
    }
}

/// The messages with one more; the oldest goes where there are too many.
pub open spec fn with_message(b: Seq<ChatView>, m: ChatView) -> Seq<ChatView> {
    if b.len() >= MAX_MESSAGES {
        b.skip(1).push(m)
    } else {
        b.push(m)
    }
}

impl ChatBuffer {
    pub fn new() -> (r: ChatBuffer)
        ensures
            r@ == Seq::<ChatView>::empty(),
    {
        let r = ChatBuffer { messages: Vec::new() };
        assert(r@ =~= Seq::empty());
        r
    }

    /// Adds a message.
    pub fn push(&mut self, msg: ChatMessage)
        ensures
            final(self)@ == with_message(old(self)@, msg@),
    {
        if self.messages.len() >= MAX_MESSAGES {
            self.messages.remove(0);
        }
        self.messages.push(msg);
        assert(self@ =~= with_message(old(self)@, msg@));
    }
}

/// A buffer that is not too full never gets too full, and the newest message
/// is its last.
pub proof fn buffers_stay_small(b: Seq<ChatView>, m: ChatView)
    requires
        b.len() <= MAX_MESSAGES,
    ensures
        with_message(b, m).len() <= MAX_MESSAGES,
        with_message(b, m).last() == m,
{
}

/// The message sent to each player, unless it is blank.
pub open spec fn chat_commands(text: String, peers: Seq<PeerId>) -> Seq<NetCommandView> {
    if trim_of(text@).len() == 0 {
        Seq::empty()
    } else {
        Seq::new(peers.len(), |i: int| to_player(peers[i], Request::Chat { text }))
    }
}

/// Sends a message to every player.
pub fn send_chat_message(text: &String, peers: &Vec<PeerId>) -> (r: Vec<NetCommand>)
    ensures
        command_views(r@) == chat_commands(*text, peers@),
{
    let mut out = no_commands();
    if trim(text.as_str()).as_str().is_empty() {
        return out;
    }
    let ghost all = chat_commands(*text, peers@);
    let mut i: usize = 0;
    assert(all.take(0) =~= Seq::empty());
    while i < peers.len()
        invariant
            0 <= i <= peers.len(),
            trim_of(text@).len() != 0,
            all == chat_commands(*text, peers@),
            command_views(out@) == all.take(i as int),
        decreases peers.len() - i,
    {
        send(
            &mut out,
            NetCommand::SendRequest {
                peer: peers[i],
                request: Request::Chat { text: text.clone() },
            },
        );
        assert(command_views(out@) =~= all.take(i + 1));
        i += 1;
    }
    assert(all.take(all.len() as int) =~= all);
    out
}

/// The player sends what stands in the input; tells whether it was sent, so
/// that the input is to be emptied.
pub fn submit_chat(
    buffer: &mut ChatBuffer,
    username: &String,
    input: &str,
    peers: &Vec<PeerId>,
) -> (r: (bool, Vec<NetCommand>))
    ensures
        r.0 == (trim_of(input@).len() > 0),
        final(buffer)@ == if r.0 {
            with_message(
                old(buffer)@,
                ChatView { from_name: username@, text: trim_of(input@), is_local: true },
            )
        } else {
            old(buffer)@
        },
        exists|t: String| t@ == trim_of(input@) && command_views(r.1@) == #[trigger] chat_commands(
            t,
            peers@,
        ),
{
    let text = trim(input);
    if text.as_str().is_empty() {
        assert(trim_of(text@).len() == 0) by {
            assert(text@ =~= Seq::empty());
        }
        let out = no_commands();
        assert(command_views(out@) =~= chat_commands(text, peers@));
        return (false, out);
    }
    buffer.push(ChatMessage { from_name: username.clone(), text: text.clone(), is_local: true });
    let out = send_chat_message(&text, peers);
    (true, out)
}

/// The name of a player in the chat: the one learned, or a short identity.
pub open spec fn chat_name(names: Map<PeerId, Seq<char>>, peer: PeerId) -> Seq<char> {
    if names.contains_key(peer) {
        names[peer]
    } else {
        short_text(base58(peer))
    }
}

pub fn name_in_chat(names: &Table<PeerId, String>, peer: &PeerId) -> (r: String)
    requires
        names.wf(),
        peer.wf(),
    ensures
        r@ == chat_name(names@, *peer),
{
    match names.get(peer) {
        Some(n) => n.clone(),
        None => short_peer(peer),
    }
}

/// A player has sent a message.
pub fn on_chat_message(
    buffer: &mut ChatBuffer,
    names: &Table<PeerId, String>,
    peer: &PeerId,
    text: &String,
)
    requires
        names.wf(),
        peer.wf(),
    ensures
        final(buffer)@ == with_message(
            old(buffer)@,
            ChatView { from_name: chat_name(names@, *peer), text: text@, is_local: false },
        ),
{
    let from_name = name_in_chat(names, peer);
    buffer.push(ChatMessage { from_name, text: text.clone(), is_local: false });
}

/// A message as a line.
pub fn chat_line(msg: &ChatMessage) -> (r: String)
    ensures
        r@ == msg.from_name@ + ": "@ + msg.text@,
{
    let mut out = msg.from_name.clone();
    out.append(": ");
    out.append(msg.text.as_str());
    out
}

// ---------------------------------------------------------------------------
// Latencies
// ---------------------------------------------------------------------------

/// A latency and when it was measured, as the bits of the seconds since 1970.
#[derive(Clone, Copy, PartialEq, Eq, Structural, Debug)]
pub struct PingEntry {
    pub timestamp: u64,
    pub latency_ms: u64,
}

/// The latencies of a server, the oldest first.
pub struct PingList {
    pub entries: Vec<PingEntry>,
}

impl View for PingList {
    type V = Seq<PingEntry>;

    open spec fn view(&self) -> Seq<PingEntry> {
        self.entries@
    }
}

/// The latencies by address.
pub struct PingHistory {
    pub entries: Table<String, PingList>,
}

/// The latencies with one more; the oldest goes where there are too many.
pub open spec fn with_ping(s: Seq<PingEntry>, e: PingEntry) -> Seq<PingEntry> {
    let t = s.push(e);
    if t.len() > MAX_PINGS {
        t.skip(1)
    } else {
        t
    }
}

/// The latencies of the first `n` servers noted.
pub open spec fn pings_noted(
    m: Map<Seq<char>, Seq<PingEntry>>,
    servers: Seq<ServerEntry>,
    now: u64,
    n: nat,
) -> Map<Seq<char>, Seq<PingEntry>>
    decreases n,
{
    if n == 0 {
        m
    } else {
        let before = pings_noted(m, servers, now, (n - 1) as nat);
        let s = servers[n - 1];
        let list = if before.contains_key(s.address@) {
            before[s.address@]
        } else {
            Seq::empty()
        };
        let e = PingEntry {
            timestamp: now,
            latency_ms: match s.ping_ms {
                Some(ms) => ms,
                None => 0,
            },
        };
        before.insert(s.address@, with_ping(list, e))
    }
}

/// Notes the latency of every server.
pub fn record_ping(history: &mut PingHistory, servers: &Vec<ServerEntry>, now: u64)
    requires
        old(history).entries.wf(),
    ensures
        final(history).entries.wf(),
        final(history).entries@ == pings_noted(
            old(history).entries@,
            servers@,
            now,
            servers@.len(),
        ),
{
    let ghost m = history.entries@;
    let mut i: usize = 0;
    while i < servers.len()
        invariant
            0 <= i <= servers.len(),
            history.entries.wf(),
            history.entries@ == pings_noted(m, servers@, now, i as nat),
        decreases servers.len() - i,
    {
        let s = &servers[i];
        let mut list: Vec<PingEntry> = Vec::new();
        if let Some(old_list) = history.entries.get(&s.address) {
            list.extend_from_slice(old_list.entries.as_slice());
            assert(list@ =~= old_list@);
        }
        let latency_ms: u64 = match s.ping_ms {
            Some(ms) => ms,
            None => 0,
        };
        let ghost before = list@;
        list.push(PingEntry { timestamp: now, latency_ms });
        if list.len() > MAX_PINGS {
            let ghost t = list@;
            list.remove(0);
            assert(list@ =~= t.skip(1));
        }
        assert(list@ == with_ping(before, PingEntry { timestamp: now, latency_ms }));
        history.entries.insert(s.address.clone(), PingList { entries: list });
        i += 1;
    }
}

// ---------------------------------------------------------------------------
// Laws
// ---------------------------------------------------------------------------

/// The messages after all of these have come.
pub open spec fn after_messages(sent: Seq<ChatView>) -> Seq<ChatView>
    decreases sent.len(),
{
    if sent.len() == 0 {
        Seq::empty()
    } else {
        with_message(after_messages(sent.drop_last()), sent.last())
    }
}

/// The last fifty messages are kept, as they came and in order.
pub proof fn the_last_fifty_messages_are_kept(sent: Seq<ChatView>)
    ensures
        sent.len() <= 50 ==> after_messages(sent) == sent,
        sent.len() > 50 ==> after_messages(sent) == sent.skip(sent.len() - 50),
    decreases sent.len(),
{
    if sent.len() > 0 {
        let before = sent.drop_last();
        the_last_fifty_messages_are_kept(before);
        if sent.len() <= 50 {
            assert(after_messages(sent) =~= sent);
        } else if sent.len() == 51 {
            assert(after_messages(sent) =~= sent.skip(1));
        } else {
            assert(before.skip(before.len() - 50).skip(1).push(sent.last()) =~= sent.skip(
                sent.len() - 50,
            ));
        }
    }
}

/// A message goes to every player once, as it was written; a blank one goes to
/// nobody.
pub proof fn messages_go_to_everybody(text: String, peers: Seq<PeerId>, i: int)
    ensures
        trim_of(text@).len() == 0 ==> chat_commands(text, peers).len() == 0,
        trim_of(text@).len() > 0 ==> chat_commands(text, peers).len() == peers.len(),
        trim_of(text@).len() > 0 && 0 <= i < peers.len() ==> chat_commands(text, peers)[i] == (
        NetCommandView::SendRequest { peer: peers[i], request: Request::Chat { text } }),
{
}

/// A player is called by the name that they told, or else by their identity.
pub proof fn players_are_called_by_their_names(names: Map<PeerId, Seq<char>>, peer: PeerId)
    ensures
        names.contains_key(peer) ==> chat_name(names, peer) == names[peer],
        !names.contains_key(peer) ==> chat_name(names, peer) == short_text(base58(peer)),
{
}

/// A latency is noted behind the others, of which the last fifty-nine stay.
pub proof fn latencies_are_noted_last(s: Seq<PingEntry>, e: PingEntry)
    requires
        s.len() <= 60,
    ensures
        with_ping(s, e).last() == e,
        s.len() < 60 ==> with_ping(s, e).drop_last() == s,
        s.len() == 60 ==> with_ping(s, e).drop_last() == s.skip(1),
{
    if s.len() < 60 {
        assert(with_ping(s, e).drop_last() =~= s);
    } else {
        assert(with_ping(s, e).drop_last() =~= s.skip(1));
    }
}

/// Noting a server more notes its latency, or nothing where none was measured,
/// under its address and leaves all other addresses alone.
pub proof fn servers_are_noted_one_by_one(
    m: Map<Seq<char>, Seq<PingEntry>>,
    servers: Seq<ServerEntry>,
    now: u64,
    n: nat,
    other: Seq<char>,
)
    requires
        n < servers.len(),
    ensures
        ({
            let before = pings_noted(m, servers, now, n);
            let after = pings_noted(m, servers, now, n + 1);
            let s = servers[n as int];
            &&& after.contains_key(s.address@)
            &&& after[s.address@].len() > 0
            &&& after[s.address@].last().timestamp == now
            &&& s.ping_ms matches Some(ms) ==> after[s.address@].last().latency_ms == ms
            &&& s.ping_ms is None ==> after[s.address@].last().latency_ms == 0
            &&& before.contains_key(s.address@) && before[s.address@].len() < 60
                ==> after[s.address@].drop_last() == before[s.address@]
            &&& !before.contains_key(s.address@) ==> after[s.address@].len() == 1
            &&& other != s.address@ ==> after.contains_key(other) == before.contains_key(other)
                && after[other] == before[other]
            &&& pings_noted(m, servers, now, 0) == m
        }),
{
    let before = pings_noted(m, servers, now, n);
    let after = pings_noted(m, servers, now, n + 1);
    let s = servers[n as int];
    if before.contains_key(s.address@) && before[s.address@].len() < 60 {
        assert(after[s.address@].drop_last() =~= before[s.address@]);
    }
}

} // verus!
