//! What holds of every key, click and saved choice of a conversation: what it means, whom it
//! is about, and what it leaves alone.

use crate::app::{after_event, AppView, Moment};
use crate::config::{ConfigAction, ConfigKey};
use crate::config_keys::config_response;
use crate::controls::{models_due, strategy_of, ControlView};
use crate::editor::{ActionView, Input, Key};
use crate::events::{AgentEventView, ModeView, RosterUpdateView};
use crate::footer::{agent_at, click_at, metrics_of, FooterAction};
use crate::panels::Area;
use crate::permission::PermissionKey;
use crate::picker::is_open;
use crate::queue::moved_selection;
use crate::roster::{active_slots, failed_slot, recipient, shown_slots, AgentState};
use crate::roster_sync::roster_fault;
use crate::session::{
    attention, choices_sent, clicked, config_input_read, config_key_handled, configured_slots,
    desired_policy, dispatched, error_handled, event_handled, event_noted, event_taken, modes_known,
    modes_synced, mouse_handled, notices, roster_noted, roster_saved, roster_taken_up,
    title_blinked, ConfigStep, EffectView, Link, SessionView, Step, BLINK_INTERVAL,
};
use crate::session_keys::{
    arrow_meaning, char_meaning, command_key_handled, completion_shown, input_handled, key_meaning,
    queue_moved, submitted, KeyMeaning,
};
use crate::surface::{last_scroll, may_notify, rows_left};
use crate::terminal_input::{decoded, MouseKind};
use crate::text::{contains, decimal, is_blank, lower};
use vstd::prelude::*;

verus! {

// Keys.

/// What is typed goes into the prompt: a character that no modifier holds is part of the
/// text as soon as there is a text, and of an empty prompt only the key for the help, and
/// without agents the key for the end, mean something else.
pub proof fn law_plain_characters_are_typed(
    session: SessionView,
    app: AppView,
    input: Input,
    c: char,
    link: Link,
)
    requires
        !input.ctrl,
        !input.alt,
    ensures
        app.prompt.len() > 0 ==> char_meaning(session, app, input, c, link) is Edit,
        c != '?' && c != 'q' ==> char_meaning(session, app, input, c, link) is Edit,
        link != Link::Absent && c == 'q' ==> char_meaning(session, app, input, c, link) is Edit,
{
}

/// A held key means the same whatever the prompt holds, and a digit means the agent of that
/// number.
pub proof fn law_held_keys_keep_their_meaning(
    session: SessionView,
    app: AppView,
    input: Input,
    digit: u8,
)
    requires
        input.ctrl,
    ensures
        char_meaning(session, app, input, 'c', Link::Open) is Interrupt,
        char_meaning(session, app, input, 'k', Link::Open) is CancelQueued,
        char_meaning(session, app, input, 'o', Link::Open) is ToggleDetail,
        digit < 10 && session.selected_slot is Some ==> char_meaning(
            session,
            app,
            Input { key: input.key, ctrl: false, alt: true, shift: false },
            (digit + 48) as char,
            Link::Open,
        ) == KeyMeaning::SelectAgent(digit),
{
}

/// An arrow downwards moves by as much as one upwards, the other way, and both are about the
/// same thing.
pub proof fn law_arrows_point_both_ways(session: SessionView, app: AppView, input: Input)
    ensures
        arrow_meaning(session, app, input, true) matches KeyMeaning::Scroll(down) ==> down > 0
            && arrow_meaning(session, app, input, false) == KeyMeaning::Scroll((-down) as isize),
        arrow_meaning(session, app, input, true) matches KeyMeaning::MoveQueue(down) ==> down == 1
            && arrow_meaning(session, app, input, false) == KeyMeaning::MoveQueue(-1isize),
        arrow_meaning(session, app, input, true) matches KeyMeaning::EditOrScroll(down) ==> down == 1
            && arrow_meaning(session, app, input, false) == KeyMeaning::EditOrScroll(-1isize),
        arrow_meaning(session, app, input, true) matches KeyMeaning::Permission(key) ==> key
            == PermissionKey::Down && arrow_meaning(session, app, input, false)
            == KeyMeaning::Permission(PermissionKey::Up),
        !session.pending_permission && !is_open(app.picker) && !input.alt && !input.ctrl
            && app.prompt.len() > 0 ==> arrow_meaning(session, app, input, true) is EditOrScroll,
        !session.pending_permission && !is_open(app.picker) && input.alt ==> arrow_meaning(
            session,
            app,
            input,
            true,
        ) is MoveQueue,
{
}

/// The key that confirms submits the prompt, unless a question or the path picker waits for
/// it; held, it sends what is written to the selected agent alone.
pub proof fn law_confirming_submits(session: SessionView, app: AppView, input: Input, link: Link)
    requires
        input.key == Key::Enter,
        !session.pending_permission,
    ensures
        is_open(app.picker) ==> key_meaning(session, app, input, link) == KeyMeaning::Picker(
            Key::Enter,
        ),
        !is_open(app.picker) && !input.ctrl ==> key_meaning(session, app, input, link) is Submit,
        !is_open(app.picker) && is_blank(app.prompt) ==> key_meaning(session, app, input, link)
            is Submit,
        !is_open(app.picker) && input.ctrl && session.selected_slot is Some && !is_blank(app.prompt)
            ==> key_meaning(session, app, input, link) is Direct,
{
}

/// A key that moves the view sends nothing, says nothing and leaves the conversation as it
/// is; upwards never goes down, and downwards never up.
pub proof fn law_moving_the_view_changes_nothing_else(
    session: SessionView,
    app: AppView,
    delta: isize,
    width: u16,
    height: u16,
    now: u64,
    link: Link,
)
    ensures
        app.scroll_y <= last_scroll(app, width as int, rows_left(app, height as int)) <= usize::MAX
            ==> ({
            let up = command_key_handled(
                session,
                app,
                KeyMeaning::PageUp,
                width,
                height,
                now,
                link,
            );
            let down = command_key_handled(
                session,
                app,
                KeyMeaning::PageDown,
                width,
                height,
                now,
                link,
            );
            let by = command_key_handled(
                session,
                app,
                KeyMeaning::Scroll(delta),
                width,
                height,
                now,
                link,
            );
            let end = command_key_handled(
                session,
                app,
                KeyMeaning::Follow,
                width,
                height,
                now,
                link,
            );
            &&& up.app.scroll_y <= app.scroll_y <= down.app.scroll_y
            &&& delta <= 0 ==> by.app.scroll_y <= app.scroll_y
            &&& delta >= 0 ==> by.app.scroll_y >= app.scroll_y
            &&& end.app.follow_tail && end.app.scroll_y >= down.app.scroll_y
            &&& up.session == session && down.session == session && by.session == session
            &&& up.effects.len() == 0 && down.effects.len() == 0 && by.effects.len() == 0
                && end.effects.len() == 0
            &&& up.app.transcript == app.transcript && up.app.prompt == app.prompt
            &&& down.app.transcript == app.transcript && down.app.prompt == app.prompt
        }),
{
}

/// A key that the prompt had no use for scrolls; one that it took does not. What the prompt
/// hands over as a submission is submitted as it is.
pub proof fn law_keys_that_the_prompt_took_do_not_scroll(
    session: SessionView,
    app: AppView,
    delta: isize,
    action: ActionView,
    prompt: Seq<char>,
    width: u16,
    height: u16,
    now: u64,
    link: Link,
)
    ensures
        action != ActionView::Ignored ==> input_handled(
            session,
            app,
            KeyMeaning::EditOrScroll(delta),
            action,
            width,
            height,
            now,
            link,
        ).app == app,
        input_handled(
            session,
            app,
            KeyMeaning::EditOrScroll(delta),
            ActionView::Ignored,
            width,
            height,
            now,
            link,
        ).app == command_key_handled(
            session,
            app,
            KeyMeaning::Scroll(delta),
            width,
            height,
            now,
            link,
        ).app,
        input_handled(
            session,
            app,
            KeyMeaning::Submit,
            ActionView::Submit(prompt),
            width,
            height,
            now,
            link,
        ) == submitted(session, app, prompt, now, link),
        !(action is Submit) ==> input_handled(
            session,
            app,
            KeyMeaning::Submit,
            action,
            width,
            height,
            now,
            link,
        ) == (Step { session, app, effects: Seq::empty() }),
{
}

/// The key for the help shows it and hides it again, and the end is asked for by its key
/// alone.
pub proof fn law_help_is_shown_and_hidden(
    session: SessionView,
    app: AppView,
    width: u16,
    height: u16,
    now: u64,
    link: Link,
)
    ensures
        ({
            let shown = command_key_handled(
                session,
                app,
                KeyMeaning::ToggleHelp,
                width,
                height,
                now,
                link,
            ).app;
            let hidden = command_key_handled(
                session,
                AppView { keyboard_help: true, ..app },
                KeyMeaning::HideHelp,
                width,
                height,
                now,
                link,
            ).app;
            let quit = command_key_handled(
                session,
                app,
                KeyMeaning::Quit,
                width,
                height,
                now,
                link,
            );
            &&& shown.keyboard_help == !app.keyboard_help
            &&& shown.transcript == app.transcript && shown.prompt == app.prompt
            &&& !hidden.keyboard_help
            &&& quit.effects.contains(EffectView::Quit) && quit.effects.len() == 1
        }),
{
    let quit = command_key_handled(session, app, KeyMeaning::Quit, width, height, now, link);
    assert(quit.effects[0] == EffectView::Quit);
}

/// To move in the queue moves the selection and nothing else: what waits, waits on, in its
/// order.
pub proof fn law_moving_in_the_queue_keeps_what_waits(app: AppView, delta: isize)
    ensures
        queue_moved(app, delta).queue.prompts == app.queue.prompts,
        queue_moved(app, delta).transcript == app.transcript,
        moved_selection(app.queue, delta as int) matches Some(k) ==> queue_moved(
            app,
            delta,
        ).queue.selected == Some(k),
        moved_selection(app.queue, delta as int) is None ==> queue_moved(app, delta) == app,
{
    reveal(queue_moved);
}

/// A completion is counted from one.
pub proof fn law_completions_are_counted_from_one(
    app: AppView,
    value: Seq<char>,
    index: usize,
    total: usize,
)
    ensures
        completion_shown(app, ActionView::Completion { value, index, total }).status
            == "command completion "@ + decimal(index as nat + 1) + "/"@ + decimal(total as nat),
        completion_shown(app, ActionView::Ignored) == app,
{
}

// The mouse.

/// A click on the row of agents picks the agent whose label is below it, on the mode it opens
/// the modes, and beside them it does nothing. The row of a pair is not for picking.
pub proof fn law_clicks_reach_what_is_below(app: AppView, column: u16, width: u16, now: u64)
    ensures
        ({
            let metrics = metrics_of(app, width, now);
            let below = agent_at(app, shown_slots(app.roster.agents), 0, 1, column - 1, now);
            &&& column == 0 || column > metrics.inner_width ==> click_at(app, column, width, now)
                == FooterAction::Ignored
            &&& metrics.left_width < column <= metrics.inner_width ==> click_at(
                app,
                column,
                width,
                now,
            ) == FooterAction::OpenMode
            &&& 0 < column <= metrics.agent_width && app.settings.collaboration != "Pair review"@
                && below is Some ==> click_at(app, column, width, now) == FooterAction::SelectAgent(
                below->0,
            )
            &&& click_at(app, column, width, now) matches FooterAction::SelectAgent(slot) ==> below
                == Some(slot) && app.settings.collaboration != "Pair review"@
        }),
{
}

/// An agent that is clicked on is the one that the next prompt is for, and the conversation
/// says so; a click beside everything changes nothing.
pub proof fn law_a_clicked_agent_is_picked(
    session: SessionView,
    app: AppView,
    column: u16,
    width: u16,
    now: u64,
    slot: usize,
)
    ensures
        ({
            let after = clicked(session, app, column, width, now);
            &&& click_at(app, column, width, now) == FooterAction::SelectAgent(slot) ==> {
                &&& after.session.selected_slot == Some(slot)
                &&& recipient(after.app.roster) == Some(slot)
                &&& after.app.roster.agents == app.roster.agents
                &&& after.app.transcript == app.transcript
                &&& after.app.prompt == app.prompt
            }
            &&& click_at(app, column, width, now) == FooterAction::Ignored ==> after.app == app
                && after.session == session
            &&& after.effects.len() == 0
        }),
{
    reveal(clicked);
}

/// The wheel scrolls towards where it is turned, wherever the mouse is; a press off the last
/// row, or next to it, does nothing to a conversation.
pub proof fn law_the_wheel_scrolls_where_it_is_turned(
    session: SessionView,
    app: AppView,
    column: u16,
    row: u16,
    frame: Area,
    now: u64,
)
    ensures
        app.scroll_y <= last_scroll(app, frame.width as int, rows_left(app, frame.height as int))
            <= usize::MAX ==> ({
            let up = mouse_handled(
                session,
                app,
                MouseKind::ScrollUp,
                column,
                row,
                frame,
                now,
            );
            let down = mouse_handled(
                session,
                app,
                MouseKind::ScrollDown,
                column,
                row,
                frame,
                now,
            );
            let pressed = mouse_handled(
                session,
                app,
                MouseKind::LeftDown,
                column,
                row,
                frame,
                now,
            );
            &&& up.app.scroll_y <= app.scroll_y <= down.app.scroll_y
            &&& up.effects.len() == 0 && down.effects.len() == 0
            &&& !is_open(app.picker) && row + 1 != frame.y + frame.height && frame.height > 0
                ==> pressed.app == app && pressed.session == session
            &&& is_open(app.picker) ==> pressed.app.roster == app.roster && !is_open(
                pressed.app.picker,
            )
            &&& !is_open(app.picker) && row + 1 == frame.y + frame.height && frame.x <= column
                < frame.x + frame.width ==> pressed == clicked(
                session,
                app,
                (column - frame.x) as u16,
                frame.width,
                now,
            )
        }),
{
}

// Errors, and what the person is told.

/// An error ends the turn and every question of it. It is shown in its own words, unless a
/// cancelled turn ended by it or a failed agent shows it; after a cancelled turn nobody works.
pub proof fn law_errors_end_the_turn(session: SessionView, app: AppView, error: Seq<char>, i: int)
    ensures
        ({
            let after = error_handled(session, app, error);
            let cancelled = app.cancelling || contains(lower(error), "cancelled"@);
            &&& !after.session.turn_active
            &&& !after.session.pending_permission
            &&& after.session.cancel_requested_at is None
            &&& after.session.selected_slot == session.selected_slot
            &&& after.effects.len() == 0
            &&& after.app.transcript == app.transcript
            &&& !cancelled && failed_slot(app.roster) is None ==> after.app.status == "error: "@
                + error
            &&& !cancelled && failed_slot(app.roster) is Some ==> after.app.status == app.status
            &&& cancelled ==> !after.app.cancelling && after.app.status == "cancelled"@
            &&& cancelled && 0 <= i < app.roster.agents.len() ==> {
                let (was, is) = (app.roster.agents[i], after.app.roster.agents[i]);
                &&& is.0 == was.0
                &&& is.1.name == was.1.name
                &&& is.1.identity == was.1.identity
                &&& is.1.turn_started is None
                &&& is.1.state != Some(AgentState::Working)
                &&& was.1.state != Some(AgentState::Working) ==> is.1.state == was.1.state
            }
            &&& cancelled ==> after.app.roster.agents.len() == app.roster.agents.len()
        }),
{
}

/// A person who wants to be told is told of every question and of every finished turn, and
/// of nothing else; the bell rings only for a question, and only where sounds are wanted.
pub proof fn law_people_are_told_of_questions_and_turns(app: AppView, event: AgentEventView)
    ensures
        !may_notify(app) ==> notices(app, event).len() == 0,
        may_notify(app) && event is Permission ==> notices(app, event)[0]
            == EffectView::NotifyPermission(app.active_agent) && (notices(app, event).contains(
            EffectView::Bell,
        ) <==> app.settings.sounds),
        may_notify(app) && event is TurnComplete ==> notices(app, event)
            =~= seq![EffectView::NotifyTurn(app.active_agent)],
        !(event is Permission || event is TurnComplete) ==> notices(app, event).len() == 0,
{
    let told = notices(app, event);
    if may_notify(app) && event is Permission && app.settings.sounds {
        assert(told[1] == EffectView::Bell);
    }
}

/// A title that is to blink turns over once in every interval, never before, and is left
/// plain where it is not to blink.
pub proof fn law_titles_turn_over_in_time(session: SessionView, app: AppView, now: u64)
    requires
        now >= session.title_blink_at,
    ensures
        ({
            let after = title_blinked(session, app, now);
            let blinks = app.title_flash > 0 && app.settings.blink_title;
            &&& !blinks ==> !after.app.title_blink
            &&& blinks && now - session.title_blink_at < BLINK_INTERVAL ==> after.app == app
                && after.session == session
            &&& blinks && now - session.title_blink_at >= BLINK_INTERVAL ==> after.app.title_blink
                == !app.title_blink && after.session.title_blink_at == now
            &&& after.effects.len() == 0
            &&& after.app.status == app.status && after.app.title_flash == app.title_flash
        }),
{
}

// What the configuration panel saves.

/// A mode and a strategy that were chosen are asked for, each once and as chosen; without
/// agents nobody is asked. Afterwards neither waits any more.
pub proof fn law_saved_choices_are_asked_for(session: SessionView, app: AppView, link: Link)
    ensures
        ({
            let after = choices_sent(session, app, link);
            let strategy = EffectView::Send(
                ControlView::SetStrategy(strategy_of(app.settings.collaboration)),
            );
            &&& after.app.requested_mode is None
            &&& !after.app.config.collaboration_pending
            &&& after.app.settings == app.settings
            &&& link == Link::Absent ==> after.effects.len() == 0
            &&& link != Link::Absent && app.requested_mode is Some ==> after.effects.len() > 0
                && after.effects[0] == EffectView::Send(ControlView::SetMode(app.requested_mode->0))
            &&& link != Link::Absent && app.config.collaboration_pending ==> after.effects.len() > 0
                && after.effects.last() == strategy
            &&& link != Link::Absent ==> after.effects.len() == (if app.requested_mode is Some {
                1int
            } else {
                0
            }) + (if app.config.collaboration_pending {
                1int
            } else {
                0
            })
        }),
{
}

/// A roster that was not changed is left alone. Without agents a changed one is kept for the
/// next launch, row for row; and a saved roster is not saved again, while one that could not
/// be saved stays to be saved, with the reason.
pub proof fn law_changed_rosters_are_kept(
    session: SessionView,
    app: AppView,
    link: Link,
    reason: Seq<char>,
)
    ensures
        !app.config.roster_dirty ==> roster_taken_up(session, app, link).effects.len() == 0
            && roster_taken_up(session, app, link).app == app,
        app.config.roster_dirty && link == Link::Absent ==> roster_taken_up(
            session,
            app,
            link,
        ).effects =~= seq![EffectView::SaveRoster(configured_slots(app))],
        !roster_saved(app, None, link).config.roster_dirty,
        roster_saved(app, None, link).config.agents == app.config.agents,
        roster_saved(app, Some(reason), link).config == app.config,
        roster_saved(app, Some(reason), link).status == "unable to save roster: "@ + reason,
{
}

/// A roster that cannot be had is not saved, and the person is told why; every other key goes
/// to the panel as it is.
pub proof fn law_faulty_rosters_are_not_saved(
    session: SessionView,
    app: AppView,
    input: Input,
    now: u64,
    present: Seq<bool>,
)
    ensures
        ({
            let key = decoded(session.config_input, input, now).0;
            let (after, shown, step) = config_input_read(session, app, input, now, present);
            let fault = roster_fault(app.config.agents, present);
            &&& key is None ==> step == ConfigStep::Done && shown == app
            &&& key == Some(ConfigKey::Save) && app.config.roster_dirty && fault is Some ==> step
                == ConfigStep::Done && shown.status == fault->0
            &&& key == Some(ConfigKey::Save) && (fault is None || !app.config.roster_dirty) ==> step
                == ConfigStep::SavePreferences && shown == app
            &&& key is Some && key != Some(ConfigKey::Save) ==> step == ConfigStep::Key(key->0)
                && shown == app
            &&& after.selected_slot == session.selected_slot && after.turn_active
                == session.turn_active
            &&& shown.config == app.config
        }),
{
}

/// The models that were configured are asked of their agents when the configuration is
/// saved, and by no other key.
pub proof fn law_configured_models_are_asked_for_when_saved(
    session: SessionView,
    app: AppView,
    key: ConfigKey,
    modes: Seq<ModeView>,
    models: Seq<(usize, Seq<char>)>,
    link: Link,
    i: int,
)
    requires
        0 <= i < models.len(),
    ensures
        ({
            let after = config_key_handled(session, app, key, modes, models, link);
            let saves = config_response(app, key, modes).1
                == ConfigAction::Save;
            let asked = EffectView::Send(
                ControlView::SetModel { slot: models[i].0, model: models[i].1 },
            );
            &&& !saves ==> after.effects.len() == 0 && after.session == session
            &&& saves && link != Link::Absent ==> after.effects.contains(asked)
        }),
{
    let after = config_key_handled(session, app, key, modes, models, link);
    let (shown, action) = config_response(app, key, modes);
    if action == ConfigAction::Save && link != Link::Absent {
        let roster = roster_taken_up(session, shown, link);
        let choices = choices_sent(roster.session, roster.app, link);
        let at = roster.effects.len() + choices.effects.len() + i;
        assert(after.effects[at] == EffectView::Send(
            ControlView::SetModel { slot: models[i].0, model: models[i].1 },
        ));
    }
}

/// When the agent that is to be first has joined, it changes places with the agent that is
/// first now; no other agent that joins does. A refused change ends what was under way.
pub proof fn law_the_new_first_agent_goes_first(
    session: SessionView,
    app: AppView,
    slot: usize,
    name: Seq<char>,
    identity: Seq<char>,
    detail: Seq<char>,
)
    requires
        active_slots(app.roster.agents).len() > 0,
    ensures
        ({
            let joined = roster_noted(
                session,
                app,
                RosterUpdateView::Added { slot, name, identity },
                Link::Open,
            );
            let refused = roster_noted(
                session,
                app,
                RosterUpdateView::Rejected { action: name, detail },
                Link::Open,
            );
            &&& session.pending_first == Some(identity) ==> joined.effects =~= seq![
                EffectView::Send(ControlView::Swap(active_slots(app.roster.agents)[0], slot)),
            ]
            &&& session.pending_first is None ==> joined.effects.len() == 0
            &&& refused.session.pending_first is None
            &&& !refused.session.reconcile_pending
            &&& refused.effects.len() == 0
        }),
{
    reveal(roster_noted);
}

// Events.

/// An event does what it does to the surface and no more: only the end of a turn sends what
/// waits, only a change of the roster goes on with the roster, and only an agent that tells
/// its models is asked for one.
pub proof fn law_events_do_no_more_than_their_own(
    session: SessionView,
    app: AppView,
    event: AgentEventView,
    moment: Moment,
    link: Link,
    models: Seq<(usize, Seq<char>)>,
    i: int,
)
    ensures
        ({
            let after = event_handled(session, app, event, moment, link, models);
            &&& !(event is TurnComplete || event is RosterUpdated || models_due(event)) ==> {
                &&& after.session == event_noted(session, event)
                &&& after.app == after_event(attention(app, event), event, moment)
                &&& after.effects == notices(after.app, event)
            }
            &&& models_due(event) && link != Link::Absent && 0 <= i < models.len()
                ==> after.effects.contains(
                EffectView::Send(ControlView::SetModel { slot: models[i].0, model: models[i].1 }),
            )
            &&& event is TurnComplete && !models_due(event) ==> after.session == dispatched(
                event_noted(session, event),
                after_event(attention(app, event), event, moment),
                link,
            ).session && after.app == dispatched(
                event_noted(session, event),
                after_event(attention(app, event), event, moment),
                link,
            ).app
        }),
{
    let after = event_handled(session, app, event, moment, link, models);
    let first = event_taken(session, app, event, moment, link);
    if models_due(event) && link != Link::Absent && 0 <= i < models.len() {
        let at = first.effects.len() + i;
        assert(after.effects[at as int] == EffectView::Send(
            ControlView::SetModel { slot: models[i].0, model: models[i].1 },
        ));
    }
    if !(event is TurnComplete || event is RosterUpdated || models_due(event)) {
        assert(after.effects =~= notices(after.app, event));
    }
}

/// The agents are asked for the mode that is wanted where all of them are known, can be
/// reached and are in another one; otherwise nobody is asked for anything.
pub proof fn law_the_wanted_mode_is_asked_for(
    session: SessionView,
    app: AppView,
    current: Option<Seq<char>>,
    link: Link,
)
    ensures
        ({
            let after = modes_synced(session, app, current, link);
            let wanted = desired_policy(app);
            let asks = current != wanted && wanted is Some && session.mode_sync != wanted && link
                == Link::Open && modes_known(session, active_slots(app.roster.agents));
            &&& asks ==> after.effects =~= seq![
                EffectView::Send(ControlView::SetMode(wanted->0)),
            ] && after.session.mode_sync == wanted
            &&& !asks ==> after.effects.len() == 0
            &&& current == wanted ==> after.session.mode_sync is None
            &&& after.app == app
        }),
{
}

} // verus!
