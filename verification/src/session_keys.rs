//! A running conversation: what the keys do to it.

use crate::app::{App, AppView};
use crate::commands::{saying, typed, LocalCommand, LocalView};
use crate::controls::{
    collaboration_strategy, consume_one_shot_route, control_for_permission, permission_control,
    route_after, strategy_of, AdapterControl, ControlView,
};
use crate::editor::{heard, numbered, ActionView, Input, Key, PromptAction, PromptEditor};
use crate::history::person_shown;
use crate::layout::BlockView;
use crate::notice::silent_agent;
use crate::order::item_contents;
use crate::permission::PermissionKey;
use crate::picker::is_open;
use crate::queue::{can_queue, moved_selection, place_of, queued, without, QueueView};
use crate::roster::{active_slots, failed_slot, name_of, RosterView};
use crate::roster_sync::first_live;
use crate::session::{
    asking_for, calmed, no_effects, one_effect, quiet, send_if_linked, sent, Effect, EffectView,
    Link, Session, SessionView, Step,
};
use crate::surface::{
    following, input_taken, permission_handled, picker_response, prompt_shown, rows_left, scrolled,
    synced,
};
use crate::text::{
    append_decimal, append_text, begins_with, blank, decimal, is_blank, is_digit, split_words,
    to_chars, to_text, trim, trimmed, words,
};
use vstd::prelude::*;

verus! {

/// What a key means in a conversation.
#[derive(Clone, Copy, Debug, Eq, PartialEq, Structural)]
pub enum KeyMeaning {
    Quit,
    /// A key of the path picker.
    Picker(Key),
    HideHelp,
    ClearStatus,
    /// A key of the permission request.
    Permission(PermissionKey),
    CancelQueued,
    ToggleDetail,
    MoveQueue(isize),
    Scroll(isize),
    PageUp,
    PageDown,
    /// A key of the prompt that scrolls where the prompt has no use for it.
    EditOrScroll(isize),
    Follow,
    Complete,
    ToggleHelp,
    /// A digit that selects an agent, counted from one.
    SelectAgent(u8),
    /// The prompt goes to the selected agent alone.
    Direct,
    Submit,
    Interrupt,
    Edit,
}

/// What an arrow upwards or downwards means.
pub open spec fn arrow_meaning(
    session: SessionView,
    app: AppView,
    input: Input,
    down: bool,
) -> KeyMeaning {
    let step: isize = if down {
        1isize
    } else {
        -1isize
    };
    if session.pending_permission {
        KeyMeaning::Permission(
            if down {
                PermissionKey::Down
            } else {
                PermissionKey::Up
            },
        )
    } else if is_open(app.picker) {
        KeyMeaning::Picker(input.key)
    } else if input.alt {
        KeyMeaning::MoveQueue(step)
    } else if input.ctrl {
        KeyMeaning::Scroll(
            if down {
                3isize
            } else {
                -3isize
            },
        )
    } else if app.prompt.len() == 0 {
        KeyMeaning::Scroll(step)
    } else {
        KeyMeaning::EditOrScroll(step)
    }
}

/// What a character means.
pub open spec fn char_meaning(
    session: SessionView,
    app: AppView,
    input: Input,
    c: char,
    link: Link,
) -> KeyMeaning {
    if c == 'q' && link == Link::Absent && app.prompt.len() == 0 {
        KeyMeaning::Quit
    } else if c == 'k' && input.ctrl {
        KeyMeaning::CancelQueued
    } else if c == 'o' && input.ctrl {
        KeyMeaning::ToggleDetail
    } else if c == '?' && app.prompt.len() == 0 {
        KeyMeaning::ToggleHelp
    } else if session.selected_slot is Some && is_digit(c) && input.alt {
        KeyMeaning::SelectAgent((c as u32 - 48) as u8)
    } else if c == 'c' && input.ctrl {
        KeyMeaning::Interrupt
    } else {
        KeyMeaning::Edit
    }
}

/// What a key means in a conversation.
pub open spec fn key_meaning(
    session: SessionView,
    app: AppView,
    input: Input,
    link: Link,
) -> KeyMeaning {
    match input.key {
        Key::Char(c) => char_meaning(session, app, input, c, link),
        Key::Esc => if session.pending_permission {
            KeyMeaning::Permission(PermissionKey::Cancel)
        } else if is_open(app.picker) {
            KeyMeaning::Picker(Key::Esc)
        } else if app.keyboard_help {
            KeyMeaning::HideHelp
        } else {
            KeyMeaning::ClearStatus
        },
        Key::Up => arrow_meaning(session, app, input, false),
        Key::Down => arrow_meaning(session, app, input, true),
        Key::Enter => if session.pending_permission {
            KeyMeaning::Permission(PermissionKey::Confirm)
        } else if is_open(app.picker) {
            KeyMeaning::Picker(Key::Enter)
        } else if session.selected_slot is Some && input.ctrl && !is_blank(app.prompt) {
            KeyMeaning::Direct
        } else {
            KeyMeaning::Submit
        },
        Key::PageUp => KeyMeaning::PageUp,
        Key::PageDown => KeyMeaning::PageDown,
        Key::End => KeyMeaning::Follow,
        Key::Tab => KeyMeaning::Complete,
        Key::F(n) => if n == 1 {
            KeyMeaning::ToggleHelp
        } else {
            KeyMeaning::Edit
        },
        _ => KeyMeaning::Edit,
    }
}

/// While a permission request waits, the keys that answer it reach nothing else.
pub proof fn law_permission_requests_come_first(
    session: SessionView,
    app: AppView,
    input: Input,
    link: Link,
)
    requires
        session.pending_permission,
        input.key == Key::Up || input.key == Key::Down || input.key == Key::Enter || input.key
            == Key::Esc,
    ensures
        key_meaning(session, app, input, link) is Permission,
{
}

fn empty(text: &str) -> (yes: bool)
    ensures
        yes == (text@.len() == 0),
{
    text.unicode_len() == 0
}

impl Session {
    fn arrow(&self, app: &App, input: Input, down: bool) -> (meaning: KeyMeaning)
        ensures
            meaning == arrow_meaning(self@, app@, input, down),
    {
        let step: isize = if down {
            1
        } else {
            -1
        };
        if self.pending_permission {
            let key = if down {
                PermissionKey::Down
            } else {
                PermissionKey::Up
            };
            KeyMeaning::Permission(key)
        } else if app.path_picker_visible() {
            KeyMeaning::Picker(input.key)
        } else if input.alt {
            KeyMeaning::MoveQueue(step)
        } else if input.ctrl {
            let rows: isize = if down {
                3
            } else {
                -3
            };
            KeyMeaning::Scroll(rows)
        } else if empty(app.prompt.as_str()) {
            KeyMeaning::Scroll(step)
        } else {
            KeyMeaning::EditOrScroll(step)
        }
    }

    fn character(&self, app: &App, input: Input, c: char, link: Link) -> (meaning: KeyMeaning)
        ensures
            meaning == char_meaning(self@, app@, input, c, link),
    {
        let no_prompt = empty(app.prompt.as_str());
        if c == 'q' && link == Link::Absent && no_prompt {
            KeyMeaning::Quit
        } else if c == 'k' && input.ctrl {
            KeyMeaning::CancelQueued
        } else if c == 'o' && input.ctrl {
            KeyMeaning::ToggleDetail
        } else if c == '?' && no_prompt {
            KeyMeaning::ToggleHelp
        } else if self.selected_slot.is_some() && crate::text::digit(c) && input.alt {
            KeyMeaning::SelectAgent((c as u32 - 48) as u8)
        } else if c == 'c' && input.ctrl {
            KeyMeaning::Interrupt
        } else {
            KeyMeaning::Edit
        }
    }

    /// What a key means.
    pub fn meaning(&self, app: &App, input: Input, link: Link) -> (meaning: KeyMeaning)
        ensures
            meaning == key_meaning(self@, app@, input, link),
    {
        match input.key {
            Key::Char(c) => self.character(app, input, c, link),
            Key::Esc => {
                if self.pending_permission {
                    KeyMeaning::Permission(PermissionKey::Cancel)
                } else if app.path_picker_visible() {
                    KeyMeaning::Picker(Key::Esc)
                } else if app.keyboard_help_visible() {
                    KeyMeaning::HideHelp
                } else {
                    KeyMeaning::ClearStatus
                }
            },
            Key::Up => self.arrow(app, input, false),
            Key::Down => self.arrow(app, input, true),
            Key::Enter => {
                if self.pending_permission {
                    KeyMeaning::Permission(PermissionKey::Confirm)
                } else if app.path_picker_visible() {
                    KeyMeaning::Picker(Key::Enter)
                } else if self.selected_slot.is_some() && input.ctrl && !blank(
                    app.prompt.as_str(),
                ) {
                    KeyMeaning::Direct
                } else {
                    KeyMeaning::Submit
                }
            },
            Key::PageUp => KeyMeaning::PageUp,
            Key::PageDown => KeyMeaning::PageDown,
            Key::End => KeyMeaning::Follow,
            Key::Tab => KeyMeaning::Complete,
            Key::F(n) => {
                if n == 1 {
                    KeyMeaning::ToggleHelp
                } else {
                    KeyMeaning::Edit
                }
            },
            _ => KeyMeaning::Edit,
        }
    }
}

/// The conversation after a key of the permission request. A decision that reaches the
/// agent ends the person's attention.
#[verifier::opaque]
pub open spec fn permission_decided(
    session: SessionView,
    app: AppView,
    key: PermissionKey,
    link: Link,
) -> Step {
    let (after, action) = permission_handled(app, key);
    match permission_control(action) {
        Some(control) => if link == Link::Open {
            asking_for(
                SessionView { pending_permission: false, ..session },
                calmed(after),
                EffectView::Send(control),
            )
        } else {
            quiet(session, after)
        },
        None => quiet(session, after),
    }
}

/// The surface after the selected waiting prompt was taken back.
#[verifier::opaque]
pub open spec fn queued_cancelled(app: AppView) -> AppView {
    let at = match app.queue.selected {
        Some(k) => place_of(app.queue.prompts, app.queue.prompts[k as int].id),
        None => None,
    };
    match at {
        Some(k) => saying(
            AppView { queue: without(app.queue, k), ..app },
            "queued prompt cancelled"@,
        ),
        None => saying(app, "queue empty"@),
    }
}

/// The surface after the detail in focus was opened or closed.
#[verifier::opaque]
pub open spec fn detail_toggled(app: AppView) -> AppView {
    let place = match app.focused_detail {
        Some(id) => crate::transcript::place_of(app.transcript, id),
        None => None,
    };
    match place {
        Some(k) => {
            let block = app.transcript[k];
            saying(
                AppView {
                    transcript: app.transcript.update(
                        k,
                        BlockView { collapsed: !block.collapsed, ..block },
                    ),
                    ..app
                },
                if block.collapsed {
                    "detail opened"@
                } else {
                    "detail closed"@
                },
            )
        },
        None => saying(app, "no detail to open"@),
    }
}

/// The surface after the selection in the queue moved.
#[verifier::opaque]
pub open spec fn queue_moved(app: AppView, delta: isize) -> AppView {
    match moved_selection(app.queue, delta as int) {
        Some(k) => saying(
            AppView { queue: QueueView { selected: Some(k), ..app.queue }, ..app },
            if delta < 0 {
                "selected previous queued prompt"@
            } else {
                "selected next queued prompt"@
            },
        ),
        None => app,
    }
}

/// The surface after the keyboard help was shown or hidden.
pub open spec fn help_toggled(app: AppView) -> AppView {
    saying(
        AppView { keyboard_help: !app.keyboard_help, ..app },
        if app.keyboard_help {
            "keyboard help hidden"@
        } else {
            "keyboard help shown"@
        },
    )
}

/// The surface scrolled on a screen of a size.
pub open spec fn scrolled_on(app: AppView, delta: int, width: u16, height: u16) -> AppView {
    scrolled(app, delta, width as int, rows_left(app, height as int))
}

/// A page of a screen, in rows.
pub open spec fn page(height: u16) -> int {
    if height > 0 {
        height - 1
    } else {
        0
    }
}

/// The conversation after an agent was selected by a digit.
pub open spec fn agent_picked(session: SessionView, app: AppView, digit: u8) -> Step {
    if digit > 0 {
        quiet(
            SessionView { selected_slot: Some((digit - 1) as usize), ..session },
            saying(app, "selected agent "@ + decimal((digit - 1) as nat)),
        )
    } else {
        quiet(session, app)
    }
}

/// The prompt taken out of the surface.
pub open spec fn prompt_taken(app: AppView) -> AppView {
    AppView {
        prompt: Seq::empty(),
        editor: crate::editor::with_text(synced(app).editor, Seq::empty()),
        ..app
    }
}

/// The conversation after the prompt was sent to the selected agent alone. While a turn
/// runs, it waits.
#[verifier::opaque]
pub open spec fn directed(session: SessionView, app: AppView, slot: usize, link: Link) -> Step {
    if link == Link::Absent {
        quiet(session, app)
    } else {
        let prompt = app.prompt;
        let said = person_shown(app, prompt, true);
        if session.turn_active {
            if can_queue(said.queue, prompt) {
                let waiting = prompt_taken(
                    AppView { queue: queued(said.queue, prompt, Some(slot), true), ..said },
                );
                quiet(
                    SessionView {
                        selected_slot: route_after(waiting, session.selected_slot),
                        ..session
                    },
                    saying(waiting, "direct prompt queued"@),
                )
            } else {
                quiet(session, saying(said, "queue full or prompt empty"@))
            }
        } else {
            let free = prompt_taken(said);
            if link == Link::Open {
                asking_for(
                    SessionView {
                        turn_active: true,
                        selected_slot: route_after(free, session.selected_slot),
                        ..session
                    },
                    saying(free, "direct turn queued"@),
                    EffectView::Send(ControlView::Direct { slot, prompt }),
                )
            } else {
                quiet(session, free)
            }
        }
    }
}

/// How long a second interrupt ends the conversation, in nanoseconds.
pub const INTERRUPT_WINDOW: u64 = 3_000_000_000;

/// The conversation after an interrupt: a running turn is cancelled, and without one, or
/// at the second interrupt in a row, the conversation ends.
#[verifier::opaque]
pub open spec fn interrupted(session: SessionView, app: AppView, now: u64, link: Link) -> Step {
    let again = session.cancel_requested_at matches Some(at) && (now <= at || now - at
        <= INTERRUPT_WINDOW);
    if !session.turn_active || again {
        Step {
            session,
            app,
            effects: sent(link, ControlView::Stop).push(EffectView::Quit),
        }
    } else {
        Step {
            session: SessionView { cancel_requested_at: Some(now), ..session },
            app: saying(
                AppView { cancelling: app.cancelling || link != Link::Absent, ..app },
                "cancelling · press Ctrl+C again to quit"@,
            ),
            effects: sent(link, ControlView::Cancel),
        }
    }
}

/// How long text can be selected with the mouse, in nanoseconds.
pub const SELECTION_WINDOW: u64 = 15_000_000_000;

/// What asking for a reload comes to: a silent agent is cancelled and restarted, and else the
/// agent that failed last.
pub open spec fn reload_asked(session: SessionView, app: AppView, now: u64, link: Link) -> Step {
    if link == Link::Absent {
        quiet(session, saying(app, "no crashed agent to reload"@))
    } else {
        match silent_agent(app.roster.agents, now) {
            Some((slot, silence)) => Step {
                session,
                app: saying(AppView { cancelling: true, ..app }, "reloading silent agent"@),
                effects: seq![
                    EffectView::Send(ControlView::Cancel),
                    EffectView::Send(ControlView::Reload(slot)),
                ],
            },
            None => match failed_slot(app.roster) {
                Some(slot) => asking_for(
                    session,
                    app,
                    EffectView::Send(ControlView::Reload(slot)),
                ),
                None => quiet(session, saying(app, "no crashed agent to reload"@)),
            },
        }
    }
}

/// What a typed command does to a conversation.
#[verifier::opaque]
pub open spec fn command_done(
    session: SessionView,
    app: AppView,
    command: LocalView,
    now: u64,
    link: Link,
) -> Step {
    match command {
        LocalView::Close => Step {
            session,
            app,
            effects: sent(link, ControlView::Stop).push(EffectView::Quit),
        },
        LocalView::Cancel => if session.turn_active {
            Step {
                session,
                app: saying(AppView { cancelling: true, ..app }, "cancelling"@),
                effects: sent(link, ControlView::Cancel),
            }
        } else {
            asking_for(session, saying(app, "nothing to cancel"@), EffectView::EndLoop)
        },
        LocalView::Reload => reload_asked(session, app, now, link),
        LocalView::Drop => match failed_slot(app.roster) {
            Some(slot) => if link != Link::Absent {
                asking_for(session, app, EffectView::Send(ControlView::Drop(slot)))
            } else {
                quiet(session, saying(app, "no crashed agent to drop"@))
            },
            None => quiet(session, saying(app, "no crashed agent to drop"@)),
        },
        LocalView::DropSlot(slot) => Step {
            session,
            app,
            effects: sent(link, ControlView::Drop(slot)),
        },
        LocalView::Promote(slot) => Step {
            session,
            app,
            effects: sent(
                link,
                ControlView::Swap(first_live(active_slots(app.roster.agents)), slot),
            ),
        },
        LocalView::Swap(first, second) => Step {
            session,
            app,
            effects: sent(link, ControlView::Swap(first, second)),
        },
        LocalView::SelectAgent(slot) => if active_slots(app.roster.agents).contains(slot) {
            quiet(
                SessionView { selected_slot: Some(slot), ..session },
                saying(
                    AppView {
                        roster: RosterView { selected_agent: Some(slot), ..app.roster },
                        ..app
                    },
                    "next message → "@ + name_of(app.roster.agents, slot),
                ),
            )
        } else {
            quiet(
                session,
                saying(app, "agent "@ + decimal(slot as nat) + " is unavailable"@),
            )
        },
        LocalView::SelectText => asking_for(
            SessionView {
                selection_until: Some(
                    if now <= u64::MAX - SELECTION_WINDOW {
                        (now + SELECTION_WINDOW) as u64
                    } else {
                        u64::MAX
                    },
                ),
                ..session
            },
            saying(
                AppView { mouse_selection_mode: true, ..app },
                "text selection enabled for 15 seconds"@,
            ),
            EffectView::DisableMouse,
        ),
        LocalView::Mode => Step {
            session,
            app: AppView { requested_mode: None, ..app },
            effects: match app.requested_mode {
                Some(mode) => sent(link, ControlView::SetMode(mode)),
                None => Seq::empty(),
            },
        },
        LocalView::Collaboration => Step {
            session,
            app,
            effects: sent(
                link,
                ControlView::SetStrategy(strategy_of(app.settings.collaboration)),
            ),
        },
        LocalView::Export => asking_for(session, app, EffectView::Export),
        LocalView::Add(name) => asking_for(session, app, EffectView::AddAgent(name)),
        LocalView::Diff => asking_for(session, app, EffectView::ShowDiff),
        LocalView::Loop(text) => asking_for(session, app, EffectView::Loop(text)),
        LocalView::Goal(text) => asking_for(session, app, EffectView::Goal(text)),
        LocalView::Status => asking_for(session, app, EffectView::Status),
        LocalView::Summary => asking_for(session, app, EffectView::Summary),
        LocalView::Sessions => asking_for(session, app, EffectView::Sessions),
        LocalView::Resume => asking_for(session, app, EffectView::Resume),
        LocalView::Handled => quiet(session, app),
    }
}

/// The conversation after a prompt for the agents. While a turn runs, it waits.
#[verifier::opaque]
pub open spec fn prompted(
    session: SessionView,
    app: AppView,
    prompt: Seq<char>,
    link: Link,
) -> Step {
    if link == Link::Absent {
        quiet(session, app)
    } else {
        let said = person_shown(app, prompt, false);
        let routed = route_after(said, session.selected_slot);
        if session.turn_active {
            if can_queue(said.queue, prompt) {
                quiet(
                    SessionView { selected_slot: routed, ..session },
                    saying(
                        AppView {
                            queue: queued(said.queue, prompt, session.selected_slot, false),
                            ..said
                        },
                        "prompt queued"@,
                    ),
                )
            } else {
                quiet(session, saying(said, "queue full or prompt empty"@))
            }
        } else if link == Link::Open {
            asking_for(
                SessionView { turn_active: true, selected_slot: routed, ..session },
                saying(said, "queued"@),
                EffectView::Send(
                    match session.selected_slot {
                        Some(slot) => ControlView::Queue { slot, prompt },
                        None => ControlView::Prompt(prompt),
                    },
                ),
            )
        } else {
            quiet(session, said)
        }
    }
}

/// The conversation after a submission: a command of the surface is done, and everything
/// else is a prompt for the agents. Each submission is kept for the next conversation.
pub open spec fn submitted(
    session: SessionView,
    app: AppView,
    prompt: Seq<char>,
    now: u64,
    link: Link,
) -> Step {
    let step = if begins_with(trim(prompt), '!') {
        quiet(session, saying(app, "local shell commands are not supported"@))
    } else {
        match typed(app, prompt) {
            Some((after, command)) => command_done(session, after, command, now, link),
            None => prompted(session, app, prompt, link),
        }
    };
    Step { effects: seq![EffectView::Remember(prompt)] + step.effects, ..step }
}

/// The surface after the prompt completed a word.
pub open spec fn completion_shown(app: AppView, action: ActionView) -> AppView {
    match action {
        ActionView::Completion { value, index, total } => saying(
            app,
            "command completion "@ + decimal((index + 1) as nat) + "/"@ + decimal(total as nat),
        ),
        _ => app,
    }
}

/// Whether the last word of a prompt can be completed.
pub open spec fn completable(prompt: Seq<char>) -> bool {
    let all = words(prompt);
    all.len() > 0 && (begins_with(all.last(), '/') || begins_with(all.last(), '@'))
}

/// What a conversation does with what the prompt made of a key.
pub open spec fn input_handled(
    session: SessionView,
    app: AppView,
    meaning: KeyMeaning,
    action: ActionView,
    width: u16,
    height: u16,
    now: u64,
    link: Link,
) -> Step {
    match meaning {
        KeyMeaning::EditOrScroll(delta) => quiet(
            session,
            if action == ActionView::Ignored {
                scrolled_on(app, delta as int, width, height)
            } else {
                app
            },
        ),
        KeyMeaning::Submit => match action {
            ActionView::Submit(prompt) => submitted(session, app, prompt, now, link),
            _ => quiet(session, app),
        },
        _ => quiet(session, completion_shown(app, action)),
    }
}

/// Whether a key with a meaning goes to the prompt.
pub open spec fn goes_to_prompt(meaning: KeyMeaning, app: AppView) -> bool {
    match meaning {
        KeyMeaning::EditOrScroll(delta) => true,
        KeyMeaning::Submit => true,
        KeyMeaning::Edit => true,
        KeyMeaning::Complete => completable(app.prompt),
        _ => false,
    }
}

/// What a key that does not go to the prompt does to a conversation.
pub open spec fn command_key_handled(
    session: SessionView,
    app: AppView,
    meaning: KeyMeaning,
    width: u16,
    height: u16,
    now: u64,
    link: Link,
) -> Step {
    match meaning {
        KeyMeaning::Quit => asking_for(session, app, EffectView::Quit),
        KeyMeaning::Picker(key) => quiet(session, picker_response(app, key).0),
        KeyMeaning::HideHelp => quiet(session, AppView { keyboard_help: !app.keyboard_help, ..app }),
        KeyMeaning::ClearStatus => quiet(session, saying(app, Seq::empty())),
        KeyMeaning::Permission(key) => permission_decided(session, app, key, link),
        KeyMeaning::CancelQueued => quiet(session, queued_cancelled(app)),
        KeyMeaning::ToggleDetail => quiet(session, detail_toggled(app)),
        KeyMeaning::MoveQueue(delta) => quiet(session, queue_moved(app, delta)),
        KeyMeaning::Scroll(delta) => quiet(
            session,
            scrolled_on(app, delta as int, width, height),
        ),
        KeyMeaning::PageUp => quiet(session, scrolled_on(app, -page(height), width, height)),
        KeyMeaning::PageDown => quiet(session, scrolled_on(app, page(height), width, height)),
        KeyMeaning::Follow => quiet(
            session,
            following(app, width as int, rows_left(app, height as int)),
        ),
        KeyMeaning::ToggleHelp => quiet(session, help_toggled(app)),
        KeyMeaning::SelectAgent(digit) => agent_picked(session, app, digit),
        KeyMeaning::Direct => match session.selected_slot {
            Some(slot) => directed(session, app, slot, link),
            None => quiet(session, app),
        },
        KeyMeaning::Interrupt => interrupted(session, app, now, link),
        _ => quiet(session, app),
    }
}

/// What a key does to a conversation on a screen of a size. A key for the prompt goes to
/// an editor that shows it.
pub open spec fn key_handled(
    session: SessionView,
    app: App,
    input: Input,
    width: u16,
    height: u16,
    now: u64,
    link: Link,
    step: Step,
) -> bool {
    let meaning = key_meaning(session, app@, input, link);
    if goes_to_prompt(meaning, app@) {
        exists|editor: PromptEditor| #[trigger]
            prompt_shown(app, editor) && heard(editor, input) && step == input_handled(
                session,
                input_taken(app@, editor, input).0,
                meaning,
                input_taken(app@, editor, input).1,
                width,
                height,
                now,
                link,
            )
    } else {
        step == command_key_handled(session, app@, meaning, width, height, now, link)
    }
}

/// What is asked first when the conversation ends: the agents are stopped before it.
pub proof fn law_agents_stop_before_the_end(
    session: SessionView,
    app: AppView,
    now: u64,
)
    requires
        !session.turn_active,
    ensures
        interrupted(session, app, now, Link::Open).effects == seq![
            EffectView::Send(ControlView::Stop),
            EffectView::Quit,
        ],
{
    reveal(interrupted);
    assert(interrupted(session, app, now, Link::Open).effects =~= seq![
        EffectView::Send(ControlView::Stop),
        EffectView::Quit,
    ]);
}

/// A prompt is never sent to the agents while a turn runs: it waits, or is refused.
pub proof fn law_prompts_wait_for_the_turn(
    session: SessionView,
    app: AppView,
    prompt: Seq<char>,
    slot: usize,
    link: Link,
)
    requires
        session.turn_active,
    ensures
        prompted(session, app, prompt, link).effects.len() == 0,
        directed(session, app, slot, link).effects.len() == 0,
        link != Link::Absent && can_queue(app.queue, prompt) ==> prompted(
            session,
            app,
            prompt,
            link,
        ).app.queue.prompts.len() == app.queue.prompts.len() + 1,
{
    reveal(prompted);
    reveal(directed);
}

impl App {
    fn scroll_on(&mut self, delta: isize, width: u16, height: u16)
        requires
            old(self).wf(),
        ensures
            final(self).wf(),
            final(self)@ == scrolled_on(old(self)@, delta as int, width, height),
    {
        let rows: usize = self.content_height(height as usize);
        self.scroll_by(delta, width as usize, rows);
    }

    fn cancel_queued(&mut self)
        requires
            old(self).wf(),
        ensures
            final(self).wf(),
            final(self)@ == queued_cancelled(old(self)@),
    {
        proof {
            reveal(queued_cancelled);
        }
        if self.cancel_selected_queued().is_some() {
            self.show_status("queued prompt cancelled");
        } else {
            self.show_status("queue empty");
        }
    }

    fn toggle_detail(&mut self)
        requires
            old(self).wf(),
        ensures
            final(self).wf(),
            final(self)@ == detail_toggled(old(self)@),
    {
        proof {
            reveal(detail_toggled);
        }
        match self.toggle_focused_detail() {
            Some(true) => self.show_status("detail closed"),
            Some(false) => self.show_status("detail opened"),
            None => self.show_status("no detail to open"),
        }
    }

    fn move_in_queue(&mut self, delta: isize)
        requires
            old(self).wf(),
        ensures
            final(self).wf(),
            final(self)@ == queue_moved(old(self)@, delta),
    {
        proof {
            reveal(queue_moved);
        }
        if self.move_queue_selection(delta).is_some() {
            if delta < 0 {
                self.show_status("selected previous queued prompt");
            } else {
                self.show_status("selected next queued prompt");
            }
        }
    }

    fn toggle_help(&mut self)
        requires
            old(self).wf(),
        ensures
            final(self).wf(),
            final(self)@ == help_toggled(old(self)@),
    {
        if self.toggle_keyboard_help() {
            self.show_status("keyboard help shown");
        } else {
            self.show_status("keyboard help hidden");
        }
    }

    fn show_completion(&mut self, action: &PromptAction)
        requires
            old(self).wf(),
            numbered(action@),
        ensures
            final(self).wf(),
            final(self)@ == completion_shown(old(self)@, action@),
    {
        match action {
            PromptAction::Completion { value, index, total } => {
                let mut status = to_chars("command completion ");
                append_decimal(&mut status, (*index + 1) as u64);
                append_text(&mut status, "/");
                append_decimal(&mut status, *total as u64);
                self.show_status(to_text(&status).as_str());
            },
            _ => {},
        }
    }
}

fn can_complete(prompt: &str) -> (yes: bool)
    ensures
        yes == completable(prompt@),
{
    let all = split_words(&to_chars(prompt));
    if all.len() == 0 {
        return false;
    }
    let last = &all[all.len() - 1];
    assert(words(prompt@).last() == last@);
    last.len() > 0 && (last[0] == '/' || last[0] == '@')
}

impl Session {
    fn decide_permission(&mut self, app: &mut App, key: PermissionKey, link: Link) -> (effects: Vec<
        Effect,
    >)
        requires
            old(app).wf(),
        ensures
            final(app).wf(),
            (Step {
                session: final(self)@,
                app: final(app)@,
                effects: item_contents(effects@),
            }) == permission_decided(old(self)@, old(app)@, key, link),
    {
        proof {
            reveal(permission_decided);
        }
        let action = app.handle_permission_key(key);
        match control_for_permission(action) {
            Some(control) => {
                if link == Link::Open {
                    app.clear_terminal_alerts();
                    self.pending_permission = false;
                    one_effect(Effect::Send(control))
                } else {
                    no_effects()
                }
            },
            None => no_effects(),
        }
    }

    fn pick_agent(&mut self, app: &mut App, digit: u8)
        requires
            old(app).wf(),
        ensures
            final(app).wf(),
            quiet(final(self)@, final(app)@) == agent_picked(old(self)@, old(app)@, digit),
    {
        if digit > 0 {
            let mut status = to_chars("selected agent ");
            append_decimal(&mut status, (digit - 1) as u64);
            self.selected_slot = Some((digit - 1) as usize);
            app.show_status(to_text(&status).as_str());
        }
    }

    fn direct_prompt(&mut self, app: &mut App, slot: usize, link: Link) -> (effects: Vec<Effect>)
        requires
            old(app).wf(),
        ensures
            final(app).wf(),
            (Step {
                session: final(self)@,
                app: final(app)@,
                effects: item_contents(effects@),
            }) == directed(old(self)@, old(app)@, slot, link),
    {
        proof {
            reveal(directed);
        }
        if link == Link::Absent {
            return no_effects();
        }
        let prompt = app.prompt.clone();
        app.record_human_message(prompt.as_str(), true);
        if self.turn_active {
            if app.queue_prompt(prompt.as_str(), Some(slot), true).is_some() {
                let _ = app.take_prompt();
                consume_one_shot_route(app, &mut self.selected_slot);
                app.show_status("direct prompt queued");
            } else {
                app.show_status("queue full or prompt empty");
            }
            return no_effects();
        }
        let taken = app.take_prompt();
        if link == Link::Open {
            self.turn_active = true;
            consume_one_shot_route(app, &mut self.selected_slot);
            app.show_status("direct turn queued");
            return one_effect(Effect::Send(AdapterControl::Direct { slot, prompt: taken }));
        }
        no_effects()
    }

    fn stop_and_quit(&self, link: Link) -> (effects: Vec<Effect>)
        ensures
            item_contents(effects@) == sent(link, ControlView::Stop).push(EffectView::Quit),
    {
        let mut effects = send_if_linked(link, AdapterControl::Stop);
        let ghost before = effects@;
        effects.push(Effect::Quit);
        assert(item_contents(effects@) =~= item_contents(before).push(EffectView::Quit));
        effects
    }

    fn interrupt(&mut self, app: &mut App, now: u64, link: Link) -> (effects: Vec<Effect>)
        requires
            old(app).wf(),
        ensures
            final(app).wf(),
            (Step {
                session: final(self)@,
                app: final(app)@,
                effects: item_contents(effects@),
            }) == interrupted(old(self)@, old(app)@, now, link),
    {
        proof {
            reveal(interrupted);
        }
        let again = match self.cancel_requested_at {
            Some(at) => now <= at || now - at <= INTERRUPT_WINDOW,
            None => false,
        };
        if !self.turn_active || again {
            return self.stop_and_quit(link);
        }
        if link != Link::Absent {
            app.request_turn_cancellation();
        }
        self.cancel_requested_at = Some(now);
        app.show_status("cancelling · press Ctrl+C again to quit");
        send_if_linked(link, AdapterControl::Cancel)
    }

    fn reload(&self, app: &mut App, now: u64, link: Link) -> (effects: Vec<Effect>)
        requires
            old(app).wf(),
        ensures
            final(app).wf(),
            (Step { session: self@, app: final(app)@, effects: item_contents(effects@) })
                == command_done(self@, old(app)@, LocalView::Reload, now, link),
    {
        proof {
            reveal(command_done);
        }
        if link != Link::Absent {
            if let Some((slot, silence)) = app.inactive_agent(now) {
                app.request_turn_cancellation();
                app.show_status("reloading silent agent");
                let mut effects = one_effect(Effect::Send(AdapterControl::Cancel));
                effects.push(Effect::Send(AdapterControl::Reload(slot)));
                proof {
                    broadcast use crate::order::lemma_item_contents_push;

                    assert(item_contents(effects@) =~= seq![
                        EffectView::Send(ControlView::Cancel),
                        EffectView::Send(ControlView::Reload(slot)),
                    ]);
                }
                return effects;
            }
            if let Some(slot) = app.failed_agent() {
                return one_effect(Effect::Send(AdapterControl::Reload(slot)));
            }
        }
        app.show_status("no crashed agent to reload");
        no_effects()
    }

    fn drop_failed(&self, app: &mut App, link: Link) -> (effects: Vec<Effect>)
        requires
            old(app).wf(),
        ensures
            final(app).wf(),
            (Step { session: self@, app: final(app)@, effects: item_contents(effects@) })
                == command_done(self@, old(app)@, LocalView::Drop, 0, link),
    {
        proof {
            reveal(command_done);
        }
        if link != Link::Absent {
            if let Some(slot) = app.failed_agent() {
                return one_effect(Effect::Send(AdapterControl::Drop(slot)));
            }
        }
        app.show_status("no crashed agent to drop");
        no_effects()
    }

    fn select_agent(&mut self, app: &mut App, slot: usize)
        requires
            old(app).wf(),
        ensures
            final(app).wf(),
            quiet(final(self)@, final(app)@) == command_done(
                old(self)@,
                old(app)@,
                LocalView::SelectAgent(slot),
                0,
                Link::Absent,
            ),
    {
        proof {
            reveal(command_done);
        }
        let slots = app.active_roster_slots();
        if has_slot(&slots, slot) {
            let mut status = to_chars("next message → ");
            append_text(&mut status, app.agent_name(slot).as_str());
            self.selected_slot = Some(slot);
            app.set_selected_agent(Some(slot));
            app.show_status(to_text(&status).as_str());
        } else {
            let mut status = to_chars("agent ");
            append_decimal(&mut status, slot as u64);
            append_text(&mut status, " is unavailable");
            app.show_status(to_text(&status).as_str());
        }
    }

    fn select_text(&mut self, app: &mut App, now: u64) -> (effects: Vec<Effect>)
        requires
            old(app).wf(),
        ensures
            final(app).wf(),
            (Step {
                session: final(self)@,
                app: final(app)@,
                effects: item_contents(effects@),
            }) == command_done(old(self)@, old(app)@, LocalView::SelectText, now, Link::Absent),
    {
        proof {
            reveal(command_done);
        }
        let end: u64 = if now <= u64::MAX - SELECTION_WINDOW {
            now + SELECTION_WINDOW
        } else {
            u64::MAX
        };
        self.selection_until = Some(end);
        app.set_mouse_selection_mode(true);
        app.show_status("text selection enabled for 15 seconds");
        one_effect(Effect::DisableMouse)
    }

    fn do_command(&mut self, app: &mut App, command: LocalCommand, now: u64, link: Link) -> (effects:
        Vec<Effect>)
        requires
            old(app).wf(),
        ensures
            final(app).wf(),
            (Step {
                session: final(self)@,
                app: final(app)@,
                effects: item_contents(effects@),
            }) == command_done(old(self)@, old(app)@, command@, now, link),
    {
        match command {
            LocalCommand::Reload => {
                self.reload(app, now, link)
            },
            LocalCommand::Drop => {
                proof {
                    lemma_when_does_not_matter(
                        self@,
                        app@,
                        LocalView::Drop,
                        0,
                        now,
                        link,
                        link,
                    );
                }
                self.drop_failed(app, link)
            },
            LocalCommand::SelectAgent(slot) => {
                proof {
                    lemma_when_does_not_matter(
                        self@,
                        app@,
                        LocalView::SelectAgent(slot),
                        0,
                        now,
                        Link::Absent,
                        link,
                    );
                }
                self.select_agent(app, slot);
                no_effects()
            },
            LocalCommand::SelectText => {
                proof {
                    lemma_when_does_not_matter(
                        self@,
                        app@,
                        LocalView::SelectText,
                        now,
                        now,
                        Link::Absent,
                        link,
                    );
                }
                self.select_text(app, now)
            },
            LocalCommand::Cancel => self.cancel_turn(app, now, link),
            LocalCommand::Mode => self.send_mode(app, now, link),
            other => self.do_plain_command(app, other, link, now),
        }
    }

    fn cancel_turn(&self, app: &mut App, now: u64, link: Link) -> (effects: Vec<Effect>)
        requires
            old(app).wf(),
        ensures
            final(app).wf(),
            (Step { session: self@, app: final(app)@, effects: item_contents(effects@) })
                == command_done(self@, old(app)@, LocalView::Cancel, now, link),
    {
        proof {
            reveal(command_done);
        }
        if self.turn_active {
            app.request_turn_cancellation();
            app.show_status("cancelling");
            send_if_linked(link, AdapterControl::Cancel)
        } else {
            app.show_status("nothing to cancel");
            one_effect(Effect::EndLoop)
        }
    }

    fn send_mode(&self, app: &mut App, now: u64, link: Link) -> (effects: Vec<Effect>)
        requires
            old(app).wf(),
        ensures
            final(app).wf(),
            (Step { session: self@, app: final(app)@, effects: item_contents(effects@) })
                == command_done(self@, old(app)@, LocalView::Mode, now, link),
    {
        proof {
            reveal(command_done);
        }
        match app.take_requested_mode() {
            Some(mode) => send_if_linked(link, AdapterControl::SetMode(mode)),
            None => no_effects(),
        }
    }

    fn do_plain_command(&self, app: &App, command: LocalCommand, link: Link, now: u64) -> (effects:
        Vec<Effect>)
        requires
            command !is Reload,
            command !is Drop,
            command !is SelectAgent,
            command !is SelectText,
            command !is Cancel,
            command !is Mode,
        ensures
            (Step { session: self@, app: app@, effects: item_contents(effects@) }) == command_done(
                self@,
                app@,
                command@,
                now,
                link,
            ),
    {
        proof {
            reveal(command_done);
        }
        match command {
            LocalCommand::Close => self.stop_and_quit(link),
            LocalCommand::DropSlot(slot) => send_if_linked(link, AdapterControl::Drop(slot)),
            LocalCommand::Promote(slot) => {
                let slots = app.active_roster_slots();
                let first: usize = if slots.len() > 0 {
                    slots[0]
                } else {
                    0
                };
                send_if_linked(link, AdapterControl::Swap(first, slot))
            },
            LocalCommand::Swap(first, second) => send_if_linked(
                link,
                AdapterControl::Swap(first, second),
            ),
            LocalCommand::Collaboration => {
                let strategy = collaboration_strategy(app.collaboration());
                send_if_linked(link, AdapterControl::SetStrategy(strategy))
            },
            LocalCommand::Export => one_effect(Effect::Export),
            LocalCommand::Add(name) => one_effect(Effect::AddAgent(name)),
            LocalCommand::Diff => one_effect(Effect::ShowDiff),
            LocalCommand::Loop(text) => one_effect(Effect::Loop(text)),
            LocalCommand::Goal(text) => one_effect(Effect::Goal(text)),
            LocalCommand::Status => one_effect(Effect::Status),
            LocalCommand::Summary => one_effect(Effect::Summary),
            LocalCommand::Sessions => one_effect(Effect::Sessions),
            LocalCommand::Resume => one_effect(Effect::Resume),
            _ => no_effects(),
        }
    }

    fn prompt_agents(&mut self, app: &mut App, prompt: String, link: Link) -> (effects: Vec<Effect>)
        requires
            old(app).wf(),
        ensures
            final(app).wf(),
            (Step {
                session: final(self)@,
                app: final(app)@,
                effects: item_contents(effects@),
            }) == prompted(old(self)@, old(app)@, prompt@, link),
    {
        proof {
            reveal(prompted);
        }
        if link == Link::Absent {
            return no_effects();
        }
        app.record_human_message(prompt.as_str(), false);
        if self.turn_active {
            if app.queue_prompt(prompt.as_str(), self.selected_slot, false).is_some() {
                consume_one_shot_route(app, &mut self.selected_slot);
                app.show_status("prompt queued");
            } else {
                app.show_status("queue full or prompt empty");
            }
            return no_effects();
        }
        if link == Link::Open {
            let control = match self.selected_slot {
                Some(slot) => AdapterControl::Queue { slot, prompt },
                None => AdapterControl::Prompt(prompt),
            };
            self.turn_active = true;
            consume_one_shot_route(app, &mut self.selected_slot);
            app.show_status("queued");
            return one_effect(Effect::Send(control));
        }
        no_effects()
    }

    fn submit(&mut self, app: &mut App, prompt: String, now: u64, link: Link) -> (effects: Vec<
        Effect,
    >)
        requires
            old(app).wf(),
        ensures
            final(app).wf(),
            (Step {
                session: final(self)@,
                app: final(app)@,
                effects: item_contents(effects@),
            }) == submitted(old(self)@, old(app)@, prompt@, now, link),
    {
        let mut effects = one_effect(Effect::Remember(prompt.clone()));
        let written = trimmed(&to_chars(prompt.as_str()));
        let ghost first = item_contents(effects@);
        let mut more = if written.len() > 0 && written[0] == '!' {
            app.show_status("local shell commands are not supported");
            no_effects()
        } else {
            match app.handle_local_command(prompt.as_str()) {
                Some(command) => self.do_command(app, command, now, link),
                None => self.prompt_agents(app, prompt, link),
            }
        };
        let ghost a = effects@;
        let ghost b = more@;
        effects.append(&mut more);
        assert(item_contents(effects@) =~= item_contents(a) + item_contents(b));
        effects
    }

    fn use_input(
        &mut self,
        app: &mut App,
        meaning: KeyMeaning,
        action: PromptAction,
        width: u16,
        height: u16,
        now: u64,
        link: Link,
    ) -> (effects: Vec<Effect>)
        requires
            old(app).wf(),
            numbered(action@),
        ensures
            final(app).wf(),
            (Step {
                session: final(self)@,
                app: final(app)@,
                effects: item_contents(effects@),
            }) == input_handled(
                old(self)@,
                old(app)@,
                meaning,
                action@,
                width,
                height,
                now,
                link,
            ),
    {
        match meaning {
            KeyMeaning::EditOrScroll(delta) => {
                match action {
                    PromptAction::Ignored => app.scroll_on(delta, width, height),
                    _ => {},
                }
                no_effects()
            },
            KeyMeaning::Submit => match action {
                PromptAction::Submit(prompt) => self.submit(app, prompt, now, link),
                _ => no_effects(),
            },
            _ => {
                app.show_completion(&action);
                no_effects()
            },
        }
    }

    fn move_surface(&self, app: &mut App, meaning: KeyMeaning, width: u16, height: u16)
        requires
            old(app).wf(),
            meaning is Scroll || meaning is PageUp || meaning is PageDown || meaning is Follow
                || meaning is CancelQueued || meaning is ToggleDetail || meaning is MoveQueue
                || meaning is HideHelp || meaning is ToggleHelp || meaning is Picker
                || meaning is ClearStatus,
        ensures
            final(app).wf(),
            quiet(self@, final(app)@) == command_key_handled(
                self@,
                old(app)@,
                meaning,
                width,
                height,
                0,
                Link::Absent,
            ),
    {
        let rows: isize = if height > 0 {
            (height - 1) as isize
        } else {
            0
        };
        match meaning {
            KeyMeaning::Picker(key) => {
                let _ = app.handle_path_picker_key(key);
            },
            KeyMeaning::HideHelp => {
                let _ = app.toggle_keyboard_help();
            },
            KeyMeaning::ClearStatus => {
                proof {
                    reveal_strlit("");
                    assert(""@ =~= Seq::empty());
                }
                app.show_status("");
            },
            KeyMeaning::CancelQueued => app.cancel_queued(),
            KeyMeaning::ToggleDetail => app.toggle_detail(),
            KeyMeaning::MoveQueue(delta) => app.move_in_queue(delta),
            KeyMeaning::Scroll(delta) => app.scroll_on(delta, width, height),
            KeyMeaning::PageUp => app.scroll_on(0 - rows, width, height),
            KeyMeaning::PageDown => app.scroll_on(rows, width, height),
            KeyMeaning::Follow => {
                let left: usize = app.content_height(height as usize);
                app.follow_tail(width as usize, left);
            },
            KeyMeaning::ToggleHelp => app.toggle_help(),
            _ => {},
        }
    }

    fn use_command_key(
        &mut self,
        app: &mut App,
        meaning: KeyMeaning,
        width: u16,
        height: u16,
        now: u64,
        link: Link,
    ) -> (effects: Vec<Effect>)
        requires
            old(app).wf(),
        ensures
            final(app).wf(),
            (Step {
                session: final(self)@,
                app: final(app)@,
                effects: item_contents(effects@),
            }) == command_key_handled(
                old(self)@,
                old(app)@,
                meaning,
                width,
                height,
                now,
                link,
            ),
    {
        match meaning {
            KeyMeaning::Quit => one_effect(Effect::Quit),
            KeyMeaning::Permission(key) => self.decide_permission(app, key, link),
            KeyMeaning::SelectAgent(digit) => {
                self.pick_agent(app, digit);
                no_effects()
            },
            KeyMeaning::Direct => match self.selected_slot {
                Some(slot) => self.direct_prompt(app, slot, link),
                None => no_effects(),
            },
            KeyMeaning::Interrupt => self.interrupt(app, now, link),
            KeyMeaning::EditOrScroll(_) => no_effects(),
            KeyMeaning::Complete => no_effects(),
            KeyMeaning::Submit => no_effects(),
            KeyMeaning::Edit => no_effects(),
            other => {
                self.move_surface(app, other, width, height);
                no_effects()
            },
        }
    }

    /// Handles a key on a screen of a size, while no panel takes the keys.
    pub fn on_key(
        &mut self,
        app: &mut App,
        input: Input,
        width: u16,
        height: u16,
        now: u64,
        link: Link,
    ) -> (effects: Vec<Effect>)
        requires
            old(app).wf(),
        ensures
            final(app).wf(),
            key_handled(
                old(self)@,
                *old(app),
                input,
                width,
                height,
                now,
                link,
                (Step {
                    session: final(self)@,
                    app: final(app)@,
                    effects: item_contents(effects@),
                }),
            ),
    {
        let meaning = self.meaning(app, input, link);
        let to_prompt = match meaning {
            KeyMeaning::EditOrScroll(_) => true,
            KeyMeaning::Submit => true,
            KeyMeaning::Edit => true,
            KeyMeaning::Complete => can_complete(app.prompt.as_str()),
            _ => false,
        };
        if to_prompt {
            let action = app.handle_prompt_input(input);
            self.use_input(app, meaning, action, width, height, now, link)
        } else {
            self.use_command_key(app, meaning, width, height, now, link)
        }
    }
}

proof fn lemma_when_does_not_matter(
    session: SessionView,
    app: AppView,
    command: LocalView,
    now: u64,
    later: u64,
    link: Link,
    other: Link,
)
    requires
        command is Drop || command is SelectAgent || (command is SelectText
            && now == later),
        command is Drop ==> link == other,
    ensures
        command_done(session, app, command, now, link) == command_done(
            session,
            app,
            command,
            later,
            other,
        ),
{
    reveal(command_done);
}

fn has_slot(slots: &Vec<usize>, slot: usize) -> (yes: bool)
    ensures
        yes == slots@.contains(slot),
{
    let mut i: usize = 0;
    while i < slots.len()
        invariant
            i <= slots.len(),
            forall|k: int| 0 <= k < i ==> slots@[k] != slot,
        decreases slots.len() - i,
    {
        if slots[i] == slot {
            assert(slots@[i as int] == slot);
            return true;
        }
        i = i + 1;
    }
    false
}

} // verus!
