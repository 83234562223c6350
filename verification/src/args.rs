//! The gateway's command line.
use vstd::prelude::*;

use crate::addr::{port_of, tcp_port, text_addr_parts, Multiaddr, PartView};
use crate::auth::ModRole;
use crate::ledger::opt_text;
use crate::text::{
    chars_of, decimal, decimal_of, decimal_reads_back, parse_u16, parse_unsigned_of, same_text,
};

verus! {

pub const DEFAULT_LISTEN: &'static str = "/ip4/0.0.0.0/tcp/4001";

pub const DEFAULT_HOST_FALLBACK: &'static str = "127.0.0.1";

pub const DEFAULT_DB: &'static str = "gateway.sqlite";

pub const DEFAULT_KEY: &'static str = "gateway.key";

/// The port of the moderation page; zero switches it off.
pub const DEFAULT_HTTP_PORT: u16 = 8080;

pub const USAGE: &'static str = "ponged-gateway — matchmaking + relay gateway for the P2P pong game

USAGE:
    ponged-gateway [OPTIONS]
    ponged-gateway --add-moderator <user> [--role <role>]
    ponged-gateway --remove-moderator <user>

OPTIONS:
    --listen <multiaddr>   Address to listen on   [default: /ip4/0.0.0.0/tcp/4001]
    --public <host>        Host/ip advertised in relay addresses (needed when
                           the gateway is behind a NAT / not on localhost)
    --db <path>            SQLite rating database [default: gateway.sqlite]
    --key <path>           Ed25519 private key, created if missing [default: gateway.key]
    --http <port>          HTTP monitor + moderation page port (0 disables)
                           [default: 8080]
    --add-moderator <user> Create (or reset the password of) a moderator
                           account; the password is read from stdin, then exits
    --role <role>          Role of that account, admin or user [default: user]
    --remove-moderator <user>  Delete a moderator account, then exits
    --help                 Print this help
";

/// What the command line says.
pub struct GatewayArgs {
    pub listen: Multiaddr,
    pub public_host: String,
    pub db_path: String,
    pub key_path: String,
    pub http_port: u16,
    pub add_moderator: Option<String>,
    pub role: ModRole,
    pub remove_moderator: Option<String>,
}

pub struct ArgsView {
    pub listen: Seq<PartView>,
    pub public_host: Seq<char>,
    pub db_path: Seq<char>,
    pub key_path: Seq<char>,
    pub http_port: u16,
    pub add_moderator: Option<Seq<char>>,
    pub role: ModRole,
    pub remove_moderator: Option<Seq<char>>,
}

impl View for GatewayArgs {
    type V = ArgsView;

    open spec fn view(&self) -> ArgsView {
        ArgsView {
            listen: self.listen@,
            public_host: self.public_host@,
            db_path: self.db_path@,
            key_path: self.key_path@,
            http_port: self.http_port,
            add_moderator: opt_text(self.add_moderator),
            role: self.role,
            remove_moderator: opt_text(self.remove_moderator),
        }
    }
}

/// Why the gateway does not start.
pub enum Stop {
    /// Help was asked for.
    Help,
    /// This option needs a value.
    NeedsValue(String),
    /// This is no address to listen on.
    BadListen(String),
    /// This is no port.
    BadPort(String),
    /// This is no role.
    BadRole(String),
    /// This option is not known.
    Unknown(String),
}

pub enum StopView {
    Help,
    NeedsValue(Seq<char>),
    BadListen(Seq<char>),
    BadPort(Seq<char>),
    BadRole(Seq<char>),
    Unknown(Seq<char>),
}

impl View for Stop {
    type V = StopView;

    open spec fn view(&self) -> StopView {
        match *self {
            Stop::Help => StopView::Help,
            Stop::NeedsValue(t) => StopView::NeedsValue(t@),
            Stop::BadListen(t) => StopView::BadListen(t@),
            Stop::BadPort(t) => StopView::BadPort(t@),
            Stop::BadRole(t) => StopView::BadRole(t@),
            Stop::Unknown(t) => StopView::Unknown(t@),
        }
    }
}

/// Whether an option takes a value.
pub open spec fn takes_value(flag: Seq<char>) -> bool {
    ||| flag == "--listen"@
    ||| flag == "--public"@
    ||| flag == "--db"@
    ||| flag == "--key"@
    ||| flag == "--http"@
    ||| flag == "--add-moderator"@
    ||| flag == "--role"@
    ||| flag == "--remove-moderator"@
}

/// The settings after an option with its value.
pub open spec fn with_option(a: ArgsView, flag: Seq<char>, value: Seq<char>) -> Result<
    ArgsView,
    StopView,
> {
    if flag == "--listen"@ {
        match text_addr_parts(value) {
            Some(parts) => Ok(ArgsView { listen: parts, ..a }),
            None => Err(StopView::BadListen(value)),
        }
    } else if flag == "--public"@ {
        Ok(ArgsView { public_host: value, ..a })
    } else if flag == "--db"@ {
        Ok(ArgsView { db_path: value, ..a })
    } else if flag == "--key"@ {
        Ok(ArgsView { key_path: value, ..a })
    } else if flag == "--http"@ {
        match parse_unsigned_of(value, u16::MAX as int) {
            Some(port) => Ok(ArgsView { http_port: port as u16, ..a }),
            None => Err(StopView::BadPort(value)),
        }
    } else if flag == "--add-moderator"@ {
        Ok(ArgsView { add_moderator: Some(value), ..a })
    } else if flag == "--role"@ {
        if value == ModRole::Admin.name() {
            Ok(ArgsView { role: ModRole::Admin, ..a })
        } else if value == ModRole::User.name() {
            Ok(ArgsView { role: ModRole::User, ..a })
        } else {
            Err(StopView::BadRole(value))
        }
    } else {
        Ok(ArgsView { remove_moderator: Some(value), ..a })
    }
}

/// The settings after the arguments from index `i` on.
pub open spec fn args_from(args: Seq<Seq<char>>, i: int, a: ArgsView) -> Result<ArgsView, StopView>
    decreases args.len() - i,
{
    if i < 0 || i >= args.len() {
        Ok(a)
    } else if takes_value(args[i]) {
        if i + 1 < args.len() {
            match with_option(a, args[i], args[i + 1]) {
                Ok(b) => args_from(args, i + 2, b),
                Err(stop) => Err(stop),
            }
        } else {
            Err(StopView::NeedsValue(args[i]))
        }
    } else if args[i] == "--help"@ {
        Err(StopView::Help)
    } else {
        Err(StopView::Unknown(args[i]))
    }
}

/// The settings without any argument.
pub open spec fn default_args(listen: Seq<PartView>) -> ArgsView {
    ArgsView {
        listen,
        public_host: DEFAULT_HOST_FALLBACK@,
        db_path: DEFAULT_DB@,
        key_path: DEFAULT_KEY@,
        http_port: DEFAULT_HTTP_PORT,
        add_moderator: None,
        role: ModRole::User,
        remove_moderator: None,
    }
}

/// What a command line says.
pub open spec fn args_of(args: Seq<Seq<char>>) -> Result<ArgsView, StopView> {
    match text_addr_parts(DEFAULT_LISTEN@) {
        Some(listen) => args_from(args, 0, default_args(listen)),
        None => Err(StopView::BadListen(DEFAULT_LISTEN@)),
    }
}

pub open spec fn outcome_view(r: Result<GatewayArgs, Stop>) -> Result<ArgsView, StopView> {
    match r {
        Ok(a) => Ok(a@),
        Err(s) => Err(s@),
    }
}

fn needs_value(flag: &str) -> (r: bool)
    ensures
        r == takes_value(flag@),
{
    same_text(flag, "--listen") || same_text(flag, "--public") || same_text(flag, "--db")
        || same_text(flag, "--key") || same_text(flag, "--http") || same_text(
        flag,
        "--add-moderator",
    ) || same_text(flag, "--role") || same_text(flag, "--remove-moderator")
}

fn apply_option(args: GatewayArgs, flag: &str, value: &str) -> (r: Result<GatewayArgs, Stop>)
    requires
        takes_value(flag@),
    ensures
        outcome_view(r) == with_option(args@, flag@, value@),
{
    let mut a = args;
    if same_text(flag, "--listen") {
        match Multiaddr::parse(value) {
            Some(addr) => {
                a.listen = addr;
            },
            None => {
                return Err(Stop::BadListen(value.to_owned()));
            },
        }
    } else if same_text(flag, "--public") {
        a.public_host = value.to_owned();
    } else if same_text(flag, "--db") {
        a.db_path = value.to_owned();
    } else if same_text(flag, "--key") {
        a.key_path = value.to_owned();
    } else if same_text(flag, "--http") {
        let v = chars_of(value);
        match parse_u16(&v) {
            Some(port) => {
                a.http_port = port;
            },
            None => {
                return Err(Stop::BadPort(value.to_owned()));
            },
        }
    } else if same_text(flag, "--add-moderator") {
        a.add_moderator = Some(value.to_owned());
    } else if same_text(flag, "--role") {
        match ModRole::parse(value) {
            Some(role) => {
                proof {
                    crate::auth::roles_read_back(role, role);
                    if value@ == ModRole::Admin.name() {
                        crate::auth::roles_read_back(role, ModRole::Admin);
                    }
                }
                a.role = role;
            },
            None => {
                return Err(Stop::BadRole(value.to_owned()));
            },
        }
    } else {
        a.remove_moderator = Some(value.to_owned());
    }
    Ok(a)
}

/// Reads the command line, without the program's name.
pub fn parse_args(args: &Vec<String>) -> (r: Result<GatewayArgs, Stop>)
    ensures
        outcome_view(r) == args_of(crate::protocol::texts(args@)),
{
    let listen = match Multiaddr::parse(DEFAULT_LISTEN) {
        Some(addr) => addr,
        None => {
            return Err(Stop::BadListen(DEFAULT_LISTEN.to_owned()));
        },
    };
    let ghost all = crate::protocol::texts(args@);
    let ghost start = listen@;
    let mut a = GatewayArgs {
        listen,
        public_host: DEFAULT_HOST_FALLBACK.to_owned(),
        db_path: DEFAULT_DB.to_owned(),
        key_path: DEFAULT_KEY.to_owned(),
        http_port: DEFAULT_HTTP_PORT,
        add_moderator: None,
        role: ModRole::User,
        remove_moderator: None,
    };
    let mut i: usize = 0;
    while i < args.len()
        invariant
            0 <= i <= args.len(),
            all == crate::protocol::texts(args@),
            args_from(all, 0, default_args(start)) == args_from(all, i as int, a@),
            text_addr_parts(DEFAULT_LISTEN@) == Some(start),
        decreases args.len() - i,
    {
        assert(all[i as int] == args@[i as int]@);
        let flag = args[i].as_str();
        if needs_value(flag) {
            if args.len() - i < 2 {
                return Err(Stop::NeedsValue(flag.to_owned()));
            }
            assert(all[i + 1] == args@[i + 1]@);
            match apply_option(a, flag, args[i + 1].as_str()) {
                Ok(b) => {
                    a = b;
                },
                Err(stop) => {
                    return Err(stop);
                },
            }
            i += 2;
        } else if same_text(flag, "--help") {
            return Err(Stop::Help);
        } else {
            return Err(Stop::Unknown(flag.to_owned()));
        }
    }
    Ok(a)
}

/// The message for an option that lacks its value.
pub fn needs_value_text(flag: &str) -> (r: String)
    ensures
        r@ == flag@ + " needs a value"@,
{
    let mut out = flag.to_owned();
    out.append(" needs a value");
    out
}

/// The message for an option that is not known.
pub fn unknown_text(flag: &str) -> (r: String)
    ensures
        r@ == "unknown argument '"@ + flag@ + "'\n\n"@ + USAGE@,
{
    let mut out = "unknown argument '".to_owned();
    out.append(flag);
    out.append("'\n\n");
    out.append(USAGE);
    out
}

/// Why the gateway has no address to advertise.
#[derive(Clone, Copy, PartialEq, Eq, Structural, Debug)]
pub enum NoBase {
    /// The address to listen on has no port.
    NoPort,
    /// Host and port make no address.
    BadHost,
}

/// The text of the advertised address.
pub open spec fn base_text(public_host: Seq<char>, port: u16) -> Seq<char> {
    "/ip4/"@ + public_host + "/tcp/"@ + decimal_of(port as nat)
}

/// The address that the gateway advertises: the public host, and the port
/// that it listens on.
pub fn default_base(public_host: &str, listen: &Multiaddr) -> (r: Result<Multiaddr, NoBase>)
    ensures
        match (r, tcp_port(listen@)) {
            (Ok(a), Some(port)) => text_addr_parts(base_text(public_host@, port)) == Some(a@),
            (Err(NoBase::BadHost), Some(port)) => text_addr_parts(
                base_text(public_host@, port),
            ) is None,
            (Err(NoBase::NoPort), None) => true,
            _ => false,
        },
{
    match port_of(listen) {
        None => Err(NoBase::NoPort),
        Some(port) => {
            let mut text = "/ip4/".to_owned();
            text.append(public_host);
            text.append("/tcp/");
            text.append(decimal(port as u64).as_str());
            match Multiaddr::parse(text.as_str()) {
                Some(a) => Ok(a),
                None => Err(NoBase::BadHost),
            }
        },
    }
}

proof fn lemma_options_differ()
    ensures
        "--listen"@[2] == 'l' && "--listen"@.len() == 8,
        "--public"@[2] == 'p' && "--public"@.len() == 8,
        "--db"@[2] == 'd' && "--db"@.len() == 4,
        "--key"@[2] == 'k' && "--key"@.len() == 5,
        "--http"@[2] == 'h' && "--http"@.len() == 6,
        "--add-moderator"@[2] == 'a' && "--add-moderator"@.len() == 15,
        "--role"@[2] == 'r' && "--role"@.len() == 6,
        "--remove-moderator"@[2] == 'r' && "--remove-moderator"@.len() == 18,
{
    reveal_strlit("--listen");
    reveal_strlit("--public");
    reveal_strlit("--db");
    reveal_strlit("--key");
    reveal_strlit("--http");
    reveal_strlit("--add-moderator");
    reveal_strlit("--role");
    reveal_strlit("--remove-moderator");
}

/// Every option sets what it is for, and leaves the others as they were.
pub proof fn options_set_one_thing(a: ArgsView, value: Seq<char>)
    ensures
        with_option(a, "--public"@, value) == Ok::<ArgsView, StopView>(
            ArgsView { public_host: value, ..a },
        ),
        with_option(a, "--db"@, value) == Ok::<ArgsView, StopView>(
            ArgsView { db_path: value, ..a },
        ),
        with_option(a, "--key"@, value) == Ok::<ArgsView, StopView>(
            ArgsView { key_path: value, ..a },
        ),
        with_option(a, "--add-moderator"@, value) == Ok::<ArgsView, StopView>(
            ArgsView { add_moderator: Some(value), ..a },
        ),
        with_option(a, "--remove-moderator"@, value) == Ok::<ArgsView, StopView>(
            ArgsView { remove_moderator: Some(value), ..a },
        ),
        text_addr_parts(value) matches Some(parts) ==> with_option(a, "--listen"@, value) == Ok::<
            ArgsView,
            StopView,
        >(ArgsView { listen: parts, ..a }),
        text_addr_parts(value) is None ==> with_option(a, "--listen"@, value) == Err::<
            ArgsView,
            StopView,
        >(StopView::BadListen(value)),
        value == "admin"@ ==> with_option(a, "--role"@, value) == Ok::<ArgsView, StopView>(
            ArgsView { role: ModRole::Admin, ..a },
        ),
        value == "user"@ ==> with_option(a, "--role"@, value) == Ok::<ArgsView, StopView>(
            ArgsView { role: ModRole::User, ..a },
        ),
        value != "admin"@ && value != "user"@ ==> with_option(a, "--role"@, value) == Err::<
            ArgsView,
            StopView,
        >(StopView::BadRole(value)),
{
    lemma_options_differ();
    reveal_strlit("admin");
    reveal_strlit("user");
    assert("admin"@.len() != "user"@.len());
}

/// The port of the moderation page is a number of sixteen bits.
pub proof fn ports_are_numbers(a: ArgsView, port: u16, value: Seq<char>)
    ensures
        with_option(a, "--http"@, decimal_of(port as nat)) == Ok::<ArgsView, StopView>(
            ArgsView { http_port: port, ..a },
        ),
        parse_unsigned_of(value, 65_535) is None ==> with_option(a, "--http"@, value) == Err::<
            ArgsView,
            StopView,
        >(StopView::BadPort(value)),
{
    lemma_options_differ();
    decimal_reads_back(port as nat, u16::MAX as int);
}

proof fn lemma_args_shift(x: Seq<char>, args: Seq<Seq<char>>, i: int, a: ArgsView)
    requires
        0 <= i,
    ensures
        args_from(seq![x] + args, i + 1, a) == args_from(args, i, a),
    decreases args.len() - i,
{
    let all = seq![x] + args;
    if i < args.len() {
        assert(all[i + 1] == args[i]);
        if i + 1 < args.len() {
            assert(all[i + 2] == args[i + 1]);
        }
        if takes_value(args[i]) && i + 1 < args.len() {
            if let Ok(b) = with_option(a, args[i], args[i + 1]) {
                lemma_args_shift(x, args, i + 2, b);
            }
        }
    }
}

/// The command line is read from its front, option by option, each with the
/// value behind it; the later of two options of one name counts. The first that
/// is wrong ends the reading.
pub proof fn options_are_read_in_order(
    flag: Seq<char>,
    value: Seq<char>,
    rest: Seq<Seq<char>>,
    a: ArgsView,
)
    ensures
        args_from(Seq::empty(), 0, a) == Ok::<ArgsView, StopView>(a),
        takes_value(flag) ==> {
            &&& with_option(a, flag, value) matches Ok(b) ==> args_from(
                seq![flag] + (seq![value] + rest),
                0,
                a,
            ) == args_from(rest, 0, b)
            &&& with_option(a, flag, value) matches Err(stop) ==> args_from(
                seq![flag] + (seq![value] + rest),
                0,
                a,
            ) == Err::<ArgsView, StopView>(stop)
            &&& args_from(seq![flag], 0, a) == Err::<ArgsView, StopView>(
                StopView::NeedsValue(flag),
            )
        },
        flag == "--help"@ && !takes_value(flag) ==> args_from(seq![flag] + rest, 0, a) == Err::<
            ArgsView,
            StopView,
        >(StopView::Help),
        flag != "--help"@ && !takes_value(flag) ==> args_from(seq![flag] + rest, 0, a) == Err::<
            ArgsView,
            StopView,
        >(StopView::Unknown(flag)),
{
    let tail = seq![value] + rest;
    let all = seq![flag] + tail;
    assert(all[0] == flag);
    assert(all[1] == value);
    assert((seq![flag] + rest)[0] == flag);
    assert(seq![flag][0] == flag);
    if let Ok(b) = with_option(a, flag, value) {
        lemma_args_shift(flag, tail, 1, b);
        lemma_args_shift(value, rest, 0, b);
    }
}

/// The options that take a value are these; help does not.
pub proof fn eight_options_take_a_value(flag: Seq<char>)
    ensures
        takes_value(flag) <==> (flag == "--listen"@ || flag == "--public"@ || flag == "--db"@
            || flag == "--key"@ || flag == "--http"@ || flag == "--add-moderator"@ || flag
            == "--role"@ || flag == "--remove-moderator"@),
        !takes_value("--help"@),
{
    reveal_strlit("--listen");
    reveal_strlit("--public");
    reveal_strlit("--db");
    reveal_strlit("--key");
    reveal_strlit("--http");
    reveal_strlit("--add-moderator");
    reveal_strlit("--role");
    reveal_strlit("--remove-moderator");
    reveal_strlit("--help");
    assert("--help"@[3] == 'e' && "--http"@[3] == 't');
    assert("--help"@[2] == 'h' && "--role"@[2] == 'r');
}

/// Without options the gateway listens on port 4001, keeps its files beside it
/// and shows its page on port 8080; new moderators are no administrators.
pub proof fn options_have_defaults(listen: Seq<PartView>)
    requires
        text_addr_parts("/ip4/0.0.0.0/tcp/4001"@) == Some(listen),
    ensures
        args_of(Seq::empty()) matches Ok(a) && {
            &&& a.listen == listen
            &&& a.public_host == "127.0.0.1"@
            &&& a.db_path == "gateway.sqlite"@
            &&& a.key_path == "gateway.key"@
            &&& a.http_port == 8080
            &&& a.role == ModRole::User
            &&& a.add_moderator is None
            &&& a.remove_moderator is None
        },
{
}

} // verus!
