//! The player's configuration. Speeds and scales are carried as the bits of
//! 32-bit floating-point numbers.
use vstd::prelude::*;

use crate::protocol::ONE_BITS;
use crate::text::same_text;

verus! {

/// The bits of the number five.
pub const FIVE_BITS: u32 = 0x40a0_0000;

/// The keys that can be bound; every other key is one that cannot.
#[derive(Clone, Copy, PartialEq, Eq, Structural, Debug)]
pub enum KeyCode {
    ArrowUp,
    ArrowDown,
    KeyW,
    KeyS,
    Other,
}

/// The configuration.
#[derive(Clone, Copy, PartialEq, Eq, Structural, Debug)]
pub struct Config {
    pub key_up: KeyCode,
    pub key_down: KeyCode,
    pub paddle_speed: u32,
    pub window_scale: u32,
    pub vsync: bool,
}

pub open spec fn default_config() -> Config {
    Config {
        key_up: KeyCode::ArrowUp,
        key_down: KeyCode::ArrowDown,
        paddle_speed: FIVE_BITS,
        window_scale: ONE_BITS,
        vsync: true,
    }
}

impl Default for Config {
    fn default() -> (r: Self)
        ensures
            r == default_config(),
    {
        Config {
            key_up: KeyCode::ArrowUp,
            key_down: KeyCode::ArrowDown,
            paddle_speed: FIVE_BITS,
            window_scale: ONE_BITS,
            vsync: true,
        }
    }
}

/// The name of a key.
pub open spec fn key_name(k: KeyCode) -> Seq<char> {
    match k {
        KeyCode::ArrowUp => "ArrowUp"@,
        KeyCode::ArrowDown => "ArrowDown"@,
        KeyCode::KeyW => "KeyW"@,
        KeyCode::KeyS => "KeyS"@,
        KeyCode::Other => "ArrowUp"@,
    }
}

/// The key with a name; the arrow up where no key has it.
pub open spec fn key_named(s: Seq<char>) -> KeyCode {
    if s == "ArrowUp"@ {
        KeyCode::ArrowUp
    } else if s == "ArrowDown"@ {
        KeyCode::ArrowDown
    } else if s == "KeyW"@ {
        KeyCode::KeyW
    } else if s == "KeyS"@ {
        KeyCode::KeyS
    } else {
        KeyCode::ArrowUp
    }
}

pub fn key_code_from_str(s: &str) -> (r: KeyCode)
    ensures
        r == key_named(s@),
{
    if same_text(s, "ArrowUp") {
        KeyCode::ArrowUp
    } else if same_text(s, "ArrowDown") {
        KeyCode::ArrowDown
    } else if same_text(s, "KeyW") {
        KeyCode::KeyW
    } else if same_text(s, "KeyS") {
        KeyCode::KeyS
    } else {
        KeyCode::ArrowUp
    }
}

pub fn key_code_to_str(kc: KeyCode) -> (r: &'static str)
    ensures
        r@ == key_name(kc),
{
    match kc {
        KeyCode::ArrowUp => "ArrowUp",
        KeyCode::ArrowDown => "ArrowDown",
        KeyCode::KeyW => "KeyW",
        KeyCode::KeyS => "KeyS",
        KeyCode::Other => "ArrowUp",
    }
}

/// The label of a key on its button.
pub open spec fn key_short(k: KeyCode) -> Seq<char> {
    match k {
        KeyCode::ArrowUp => "ArrowUp"@,
        KeyCode::ArrowDown => "ArrowDown"@,
        KeyCode::KeyW => "W"@,
        KeyCode::KeyS => "S"@,
        KeyCode::Other => "?"@,
    }
}

/// The key that a button moves on to.
pub open spec fn key_after(k: KeyCode) -> KeyCode {
    match k {
        KeyCode::ArrowUp => KeyCode::KeyW,
        KeyCode::KeyW => KeyCode::ArrowUp,
        KeyCode::ArrowDown => KeyCode::KeyS,
        KeyCode::KeyS => KeyCode::ArrowDown,
        KeyCode::Other => KeyCode::ArrowUp,
    }
}

pub fn cycle_keycode(current: KeyCode) -> (r: KeyCode)
    ensures
        r == key_after(current),
{
    match current {
        KeyCode::ArrowUp => KeyCode::KeyW,
        KeyCode::KeyW => KeyCode::ArrowUp,
        KeyCode::ArrowDown => KeyCode::KeyS,
        KeyCode::KeyS => KeyCode::ArrowDown,
        KeyCode::Other => KeyCode::ArrowUp,
    }
}

pub fn key_code_to_short(kc: KeyCode) -> (r: &'static str)
    ensures
        r@ == key_short(kc),
{
    match kc {
        KeyCode::ArrowUp => "ArrowUp",
        KeyCode::ArrowDown => "ArrowDown",
        KeyCode::KeyW => "W",
        KeyCode::KeyS => "S",
        KeyCode::Other => "?",
    }
}

/// The label of the vertical-sync button.
pub fn vsync_label(vsync: bool) -> (r: &'static str)
    ensures
        r@ == (if vsync { "ON"@ } else { "OFF"@ }),
{
    if vsync {
        "ON"
    } else {
        "OFF"
    }
}

/// The buttons of the options that change no number.
#[derive(Clone, Copy, PartialEq, Eq, Structural, Debug)]
pub enum SettingsPress {
    KeyUp,
    KeyDown,
    Vsync,
}

/// The configuration after a button was pressed.
pub open spec fn pressed(c: Config, press: SettingsPress) -> Config {
    match press {
        SettingsPress::KeyUp => Config { key_up: key_after(c.key_up), ..c },
        SettingsPress::KeyDown => Config { key_down: key_after(c.key_down), ..c },
        SettingsPress::Vsync => Config { vsync: !c.vsync, ..c },
    }
}

/// Reacts to a button of the options.
pub fn update_settings_controls(config: &mut Config, press: SettingsPress)
    ensures
        *final(config) == pressed(*old(config), press),
{
    match press {
        SettingsPress::KeyUp => {
            config.key_up = cycle_keycode(config.key_up);
        },
        SettingsPress::KeyDown => {
            config.key_down = cycle_keycode(config.key_down);
        },
        SettingsPress::Vsync => {
            config.vsync = !config.vsync;
        },
    }
}

/// What the database holds; numbers have been read, and are missing where
/// they are none.
pub struct Stored<'a> {
    pub key_up: Option<&'a str>,
    pub key_down: Option<&'a str>,
    pub paddle_speed: Option<u32>,
    pub window_scale: Option<u32>,
    pub vsync: Option<&'a str>,
}

pub open spec fn stored_key(s: Option<&str>, fallback: KeyCode) -> KeyCode {
    match s {
        Some(t) => key_named(t@),
        None => fallback,
    }
}

/// The configuration that the database holds, with defaults for what is
/// missing.
pub open spec fn loaded(s: Stored) -> Config {
    let d = default_config();
    Config {
        key_up: stored_key(s.key_up, d.key_up),
        key_down: stored_key(s.key_down, d.key_down),
        paddle_speed: match s.paddle_speed {
            Some(v) => v,
            None => d.paddle_speed,
        },
        window_scale: match s.window_scale {
            Some(v) => v,
            None => d.window_scale,
        },
        vsync: match s.vsync {
            Some(t) => t@ == "true"@,
            None => d.vsync,
        },
    }
}

impl Config {
    /// The configuration that the database holds.
    pub fn load(stored: &Stored) -> (r: Config)
        ensures
            r == loaded(*stored),
    {
        Config {
            key_up: match stored.key_up {
                Some(t) => key_code_from_str(t),
                None => KeyCode::ArrowUp,
            },
            key_down: match stored.key_down {
                Some(t) => key_code_from_str(t),
                None => KeyCode::ArrowDown,
            },
            paddle_speed: match stored.paddle_speed {
                Some(v) => v,
                None => FIVE_BITS,
            },
            window_scale: match stored.window_scale {
                Some(v) => v,
                None => ONE_BITS,
            },
            vsync: match stored.vsync {
                Some(t) => same_text(t, "true"),
                None => true,
            },
        }
    }

    /// What the database is to hold; numbers are still to be written as text.
    pub fn save(&self) -> (r: Stored<'static>)
        ensures
            r.key_up matches Some(t) && t@ == key_name(self.key_up),
            r.key_down matches Some(t) && t@ == key_name(self.key_down),
            r.paddle_speed == Some(self.paddle_speed),
            r.window_scale == Some(self.window_scale),
            r.vsync matches Some(t) && t@ == (if self.vsync { "true"@ } else { "false"@ }),
    {
        Stored {
            key_up: Some(key_code_to_str(self.key_up)),
            key_down: Some(key_code_to_str(self.key_down)),
            paddle_speed: Some(self.paddle_speed),
            window_scale: Some(self.window_scale),
            vsync: Some(
                if self.vsync {
                    "true"
                } else {
                    "false"
                },
            ),
        }
    }
}

proof fn lemma_key_names()
    ensures
        "ArrowUp"@ != "ArrowDown"@,
        "ArrowUp"@ != "KeyW"@,
        "ArrowUp"@ != "KeyS"@,
        "ArrowDown"@ != "KeyW"@,
        "ArrowDown"@ != "KeyS"@,
        "KeyW"@ != "KeyS"@,
        "true"@ != "false"@,
{
    reveal_strlit("ArrowUp");
    reveal_strlit("ArrowDown");
    reveal_strlit("KeyW");
    reveal_strlit("KeyS");
    reveal_strlit("true");
    reveal_strlit("false");
    assert("ArrowUp"@.len() == 7 && "ArrowDown"@.len() == 9);
    assert("KeyW"@.len() == 4 && "KeyS"@.len() == 4 && "KeyW"@[3] == 'W' && "KeyS"@[3] == 'S');
    assert("true"@.len() == 4 && "false"@.len() == 5);
}

/// Every key that can be bound is read back from its name.
pub proof fn keys_read_back(k: KeyCode)
    requires
        !(k is Other),
    ensures
        key_named(key_name(k)) == k,
{
    lemma_key_names();
}

/// Pressing a button twice changes nothing where the keys can be bound.
pub proof fn pressing_twice_undoes(c: Config, press: SettingsPress)
    requires
        !(c.key_up is Other),
        !(c.key_down is Other),
    ensures
        pressed(pressed(c, press), press) == c,
{
}

/// A configuration whose keys can be bound is loaded as it was saved.
pub proof fn configs_read_back(c: Config, s: Stored)
    requires
        !(c.key_up is Other),
        !(c.key_down is Other),
        s.key_up matches Some(t) && t@ == key_name(c.key_up),
        s.key_down matches Some(t) && t@ == key_name(c.key_down),
        s.paddle_speed == Some(c.paddle_speed),
        s.window_scale == Some(c.window_scale),
        s.vsync matches Some(t) && t@ == (if c.vsync { "true"@ } else { "false"@ }),
    ensures
        loaded(s) == c,
{
    lemma_key_names();
    keys_read_back(c.key_up);
    keys_read_back(c.key_down);
}

/// A button changes what it is for and nothing else: each of the two keys has a
/// letter beside its arrow, and the sync is on or off.
pub proof fn buttons_change_one_thing(c: Config)
    ensures
        ({
            let up = pressed(c, SettingsPress::KeyUp);
            let down = pressed(c, SettingsPress::KeyDown);
            let sync = pressed(c, SettingsPress::Vsync);
            &&& up == (Config { key_up: up.key_up, ..c })
            &&& down == (Config { key_down: down.key_down, ..c })
            &&& sync == (Config { vsync: sync.vsync, ..c })
            &&& c.key_up is ArrowUp <==> up.key_up is KeyW
            &&& c.key_up is ArrowDown <==> up.key_up is KeyS
            &&& c.key_up is KeyS <==> up.key_up is ArrowDown
            &&& c.key_up is KeyW ==> up.key_up is ArrowUp
            &&& c.key_down is ArrowDown <==> down.key_down is KeyS
            &&& c.key_down is KeyS <==> down.key_down is ArrowDown
            &&& sync.vsync == !c.vsync
        }),
{
}

/// What is missing in the database is as it was delivered: the arrows, normal
/// size, a speed of five and sync. What is there is taken, and only the word
/// for it switches the sync on.
pub proof fn missing_options_are_the_delivered_ones(s: Stored)
    ensures
        s.key_up is None ==> loaded(s).key_up is ArrowUp,
        s.key_down is None ==> loaded(s).key_down is ArrowDown,
        s.paddle_speed is None ==> loaded(s).paddle_speed == 0x40a0_0000,
        s.window_scale is None ==> loaded(s).window_scale == 0x3f80_0000,
        s.vsync is None ==> loaded(s).vsync,
        s.paddle_speed matches Some(v) ==> loaded(s).paddle_speed == v,
        s.window_scale matches Some(v) ==> loaded(s).window_scale == v,
        s.vsync matches Some(t) ==> (loaded(s).vsync <==> t@ == "true"@),
        s.key_up matches Some(t) ==> (t@ == "KeyW"@ ==> loaded(s).key_up is KeyW),
        s.key_down matches Some(t) ==> (t@ == "KeyS"@ ==> loaded(s).key_down is KeyS),
{
    lemma_key_names();
}

/// A name that is no key's stands for the arrow up; no two keys that can be
/// bound have one name.
pub proof fn names_tell_keys_apart(s: Seq<char>, a: KeyCode, b: KeyCode)
    ensures
        s != "ArrowUp"@ && s != "ArrowDown"@ && s != "KeyW"@ && s != "KeyS"@ ==> key_named(s)
            is ArrowUp,
        !(a is Other) && !(b is Other) && a != b ==> key_name(a) != key_name(b) && key_short(a)
            != key_short(b),
{
    lemma_key_names();
    reveal_strlit("W");
    reveal_strlit("S");
    reveal_strlit("ArrowUp");
    reveal_strlit("ArrowDown");
    assert("W"@[0] == 'W' && "S"@[0] == 'S');
    assert("W"@.len() == 1 && "S"@.len() == 1 && "ArrowUp"@.len() == 7 && "ArrowDown"@.len() == 9);
}

} // verus!
