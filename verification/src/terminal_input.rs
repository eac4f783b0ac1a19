//! Terminal events: keys that come in pieces, the mouse, and what the terminal can do.

use crate::app::App;
use crate::config::ConfigKey;
use crate::editor::{Input, Key};
use crate::surface::scrolled;
use crate::text::{eq_ignore_case, has_prefix, same_ignoring_case, starts_with};
use vstd::prelude::*;

verus! {

/// Whether focus and title of the terminal are ours to manage: inside a multiplexer they
/// are not. `tmux` says whether the multiplexer announces itself.
pub open spec fn captures(
    tmux: bool,
    term: Option<Seq<char>>,
    term_program: Option<Seq<char>>,
) -> bool {
    &&& !tmux
    &&& term matches Some(name) ==> !starts_with(name, "tmux"@) && !starts_with(name, "screen"@)
    &&& term_program matches Some(name) ==> !same_ignoring_case(name, "tmux"@)
}

/// Whether focus and title of the terminal are ours to manage.
pub fn terminal_capture_enabled_for(
    tmux: bool,
    term: Option<&str>,
    term_program: Option<&str>,
) -> (enabled: bool)
    ensures
        enabled == captures(
            tmux,
            match term {
                Some(name) => Some(name@),
                None => None,
            },
            match term_program {
                Some(name) => Some(name@),
                None => None,
            },
        ),
{
    if tmux {
        return false;
    }
    let plain = match term {
        Some(name) => !has_prefix(name, "tmux") && !has_prefix(name, "screen"),
        None => true,
    };
    let own = match term_program {
        Some(name) => !eq_ignore_case(name, "tmux"),
        None => true,
    };
    plain && own
}

/// What the mouse did.
#[derive(Clone, Copy, Debug, Eq, PartialEq, Structural)]
pub enum MouseKind {
    ScrollUp,
    ScrollDown,
    LeftDown,
    Other,
}

/// The rows that the mouse scrolls.
pub open spec fn wheel_rows(kind: MouseKind) -> Option<isize> {
    match kind {
        MouseKind::ScrollUp => Some(-3isize),
        MouseKind::ScrollDown => Some(3isize),
        _ => None,
    }
}

/// The rows that the mouse scrolls.
pub fn mouse_scroll_delta(kind: MouseKind) -> (delta: Option<isize>)
    ensures
        delta == wheel_rows(kind),
{
    match kind {
        MouseKind::ScrollUp => Some(-3),
        MouseKind::ScrollDown => Some(3),
        _ => None,
    }
}

/// Scrolls by the mouse wheel; says whether it was the wheel.
pub fn apply_mouse_scroll(app: &mut App, kind: MouseKind, width: usize, height: usize) -> (done:
    bool)
    requires
        old(app).wf(),
    ensures
        final(app).wf(),
        done == wheel_rows(kind) is Some,
        final(app)@ == (match wheel_rows(kind) {
            Some(delta) => scrolled(old(app)@, delta as int, width as int, height as int),
            None => old(app)@,
        }),
{
    match mouse_scroll_delta(kind) {
        Some(delta) => {
            app.scroll_by(delta, width, height);
            true
        },
        None => false,
    }
}

/// The rows that an arrow key scrolls.
pub open spec fn arrow_rows(key: Key) -> Option<isize> {
    match key {
        Key::Up => Some(-1isize),
        Key::Down => Some(1isize),
        _ => None,
    }
}

/// Scrolls by an arrow key; says whether it was one.
pub fn apply_navigation_scroll(app: &mut App, key: Key, width: usize, height: usize) -> (done:
    bool)
    requires
        old(app).wf(),
    ensures
        final(app).wf(),
        done == arrow_rows(key) is Some,
        final(app)@ == (match arrow_rows(key) {
            Some(delta) => scrolled(old(app)@, delta as int, width as int, height as int),
            None => old(app)@,
        }),
{
    let delta: isize = match key {
        Key::Up => -1,
        Key::Down => 1,
        _ => {
            return false;
        },
    };
    app.scroll_by(delta, width, height);
    true
}

/// Whether the time for selecting text is over: then the mouse scrolls again.
pub fn selection_window_over(deadline: &mut Option<u64>, now: u64) -> (over: bool)
    ensures
        over == (*old(deadline) matches Some(end) && now >= end),
        *final(deadline) == (if over {
            None
        } else {
            *old(deadline)
        }),
{
    let over = match *deadline {
        Some(end) => now >= end,
        None => false,
    };
    if over {
        *deadline = None;
    }
    over
}

/// Reads the keys of the configuration panel. Some terminals send Alt and an arrow as Esc
/// and the arrow; so an Esc only counts once nothing has followed it for a while.
#[derive(Clone, Copy, Debug, Eq, PartialEq, Structural)]
pub struct ConfigInputDecoder {
    /// When an Esc came that may still be the start of something, in nanoseconds.
    pub escape_at: Option<u64>,
    /// How long it may be, in nanoseconds.
    pub escape_window: u64,
}

/// Whether a moment is within the time that an Esc waits.
pub open spec fn within_window(decoder: ConfigInputDecoder, now: u64) -> bool {
    decoder.escape_at matches Some(at) && (now <= at || now - at <= decoder.escape_window)
}

/// The key that an input stands for by itself.
pub open spec fn plain_config_key(input: Input) -> Option<ConfigKey> {
    let modified = input.alt || input.shift || input.ctrl;
    match input.key {
        Key::Char('s') => if input.ctrl {
            Some(ConfigKey::Save)
        } else {
            None
        },
        Key::Up => Some(
            if modified {
                ConfigKey::MoveUp
            } else {
                ConfigKey::Up
            },
        ),
        Key::Down => Some(
            if modified {
                ConfigKey::MoveDown
            } else {
                ConfigKey::Down
            },
        ),
        Key::Char('[') => Some(ConfigKey::MoveUp),
        Key::Char(']') => Some(ConfigKey::MoveDown),
        Key::Left => Some(ConfigKey::PreviousValue),
        Key::Right => Some(ConfigKey::NextValue),
        Key::Char(' ') => Some(ConfigKey::ToggleSlot),
        Key::Enter => Some(ConfigKey::Confirm),
        _ => None,
    }
}

/// The key that an input behind an Esc stands for.
pub open spec fn escaped_config_key(input: Input) -> ConfigKey {
    match input.key {
        Key::Up => ConfigKey::MoveUp,
        Key::Down => ConfigKey::MoveDown,
        _ => ConfigKey::Cancel,
    }
}

/// The key that an input stands for, and the decoder afterwards.
pub open spec fn decoded(decoder: ConfigInputDecoder, input: Input, now: u64) -> (
    Option<ConfigKey>,
    ConfigInputDecoder,
) {
    let cleared = ConfigInputDecoder { escape_at: None, ..decoder };
    if within_window(decoder, now) {
        (Some(escaped_config_key(input)), cleared)
    } else if input.key == Key::Esc {
        (None, ConfigInputDecoder { escape_at: Some(now), ..decoder })
    } else {
        (plain_config_key(input), cleared)
    }
}

fn read_config_key(input: Input) -> (key: Option<ConfigKey>)
    ensures
        key == plain_config_key(input),
{
    let modified = input.alt || input.shift || input.ctrl;
    match input.key {
        Key::Char('s') => {
            if input.ctrl {
                Some(ConfigKey::Save)
            } else {
                None
            }
        },
        Key::Up => {
            if modified {
                Some(ConfigKey::MoveUp)
            } else {
                Some(ConfigKey::Up)
            }
        },
        Key::Down => {
            if modified {
                Some(ConfigKey::MoveDown)
            } else {
                Some(ConfigKey::Down)
            }
        },
        Key::Char('[') => Some(ConfigKey::MoveUp),
        Key::Char(']') => Some(ConfigKey::MoveDown),
        Key::Left => Some(ConfigKey::PreviousValue),
        Key::Right => Some(ConfigKey::NextValue),
        Key::Char(' ') => Some(ConfigKey::ToggleSlot),
        Key::Enter => Some(ConfigKey::Confirm),
        _ => None,
    }
}

impl Default for ConfigInputDecoder {
    fn default() -> (decoder: Self)
        ensures
            decoder == (ConfigInputDecoder { escape_at: None, escape_window: 150_000_000 }),
    {
        ConfigInputDecoder::new(150_000_000)
    }
}

impl ConfigInputDecoder {
    pub fn new(escape_window: u64) -> (decoder: Self)
        ensures
            decoder == (ConfigInputDecoder { escape_at: None, escape_window }),
    {
        ConfigInputDecoder { escape_at: None, escape_window }
    }

    /// The key that an input stands for.
    pub fn decode(&mut self, input: Input, now: u64) -> (key: Option<ConfigKey>)
        ensures
            (key, *final(self)) == decoded(*old(self), input, now),
    {
        let waiting = match self.escape_at {
            Some(at) => now <= at || now - at <= self.escape_window,
            None => false,
        };
        self.escape_at = None;
        if waiting {
            let key = match input.key {
                Key::Up => ConfigKey::MoveUp,
                Key::Down => ConfigKey::MoveDown,
                _ => ConfigKey::Cancel,
            };
            return Some(key);
        }
        match input.key {
            Key::Esc => {
                self.escape_at = Some(now);
                None
            },
            _ => read_config_key(input),
        }
    }

    /// Whether an Esc has waited long enough to count by itself; it counts once.
    pub fn take_expired_escape(&mut self, now: u64) -> (expired: bool)
        ensures
            expired == (old(self).escape_at is Some && !within_window(*old(self), now)),
            *final(self) == (if expired {
                ConfigInputDecoder { escape_at: None, ..*old(self) }
            } else {
                *old(self)
            }),
    {
        let expired = match self.escape_at {
            Some(at) => now > at && now - at > self.escape_window,
            None => false,
        };
        if expired {
            self.escape_at = None;
        }
        expired
    }

    pub fn reset(&mut self)
        ensures
            *final(self) == (ConfigInputDecoder { escape_at: None, ..*old(self) }),
    {
        self.escape_at = None;
    }
}

/// An Esc is never lost: within its time the next key decides whether it cancels, and
/// after it the Esc counts by itself.
pub proof fn law_escapes_are_not_lost(decoder: ConfigInputDecoder, pressed: u64, input: Input, now: u64)
    requires
        decoder.escape_at is None,
        pressed <= now,
    ensures
        ({
            let esc = Input { key: Key::Esc, ctrl: false, alt: false, shift: false };
            let (first, waiting) = decoded(decoder, esc, pressed);
            &&& first is None
            &&& now - pressed <= decoder.escape_window ==> decoded(waiting, input, now).0 == Some(
                escaped_config_key(input),
            )
            &&& now - pressed > decoder.escape_window ==> waiting.escape_at is Some
                && !within_window(waiting, now)
        }),
{
}

} // verus!
