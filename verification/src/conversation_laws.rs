//! What holds of every conversation: what is written reaches the agent it is for, what waits
//! is sent in order, and requests are about the agents they name.

use crate::app::AppView;
use crate::commands::LocalView;
use crate::controls::{AnswerView, ControlView};
use crate::events::AgentEventView;
use crate::history::person_shown;
use crate::layout::{BlockKind, BlockView};
use crate::permission::{PermissionKey, PermissionView};
use crate::queue::{can_queue, place_of, queue_ok, QueuedView};
use crate::roster::{active_slots, failed_slot};
use crate::session::{dispatched, event_noted, selection_swapped, EffectView, Link, SessionView};
use crate::session_keys::{
    agent_picked, command_done, detail_toggled, directed, interrupted, permission_decided, prompted,
    queued_cancelled, submitted, INTERRUPT_WINDOW,
};
use vstd::prelude::*;

verus! {

/// Whether a person's words are the last thing that a conversation shows, below everything
/// that it showed before.
pub open spec fn shows_what_was_said(before: AppView, after: AppView, text: Seq<char>) -> bool {
    let said = after.transcript.last();
    &&& after.transcript.len() == before.transcript.len() + 1
    &&& after.transcript.drop_last() == before.transcript
    &&& said.kind == BlockKind::Human
    &&& !said.collapsed
    &&& said.source.len() >= text.len()
    &&& said.source.skip(said.source.len() - text.len()) == text
}

proof fn lemma_shown(app: AppView, text: Seq<char>, direct: bool)
    ensures
        shows_what_was_said(app, person_shown(app, text, direct), text),
{
    let after = person_shown(app, text, direct);
    let source = after.transcript.last().source;
    assert(after.transcript.drop_last() =~= app.transcript);
    assert(source.skip(source.len() - text.len()) =~= text);
}

/// A prompt that is submitted between turns is sent at once and once, as it was written: to
/// the agent that is selected, or else to all. It is shown, and a turn runs from then on.
pub proof fn law_prompts_are_sent_to_the_selected_agent(
    session: SessionView,
    app: AppView,
    prompt: Seq<char>,
)
    requires
        !session.turn_active,
    ensures
        ({
            let step = prompted(session, app, prompt, Link::Open);
            &&& step.effects.len() == 1
            &&& session.selected_slot matches Some(slot) ==> step.effects[0] == EffectView::Send(
                ControlView::Queue { slot, prompt },
            )
            &&& session.selected_slot is None ==> step.effects[0] == EffectView::Send(
                ControlView::Prompt(prompt),
            )
            &&& step.session.turn_active
            &&& shows_what_was_said(app, step.app, prompt)
            &&& step.app.queue == app.queue
        }),
{
    reveal(prompted);
    lemma_shown(app, prompt, false);
}

/// A prompt for one agent alone is sent to that agent alone, as it was written.
pub proof fn law_direct_prompts_are_for_one_agent(session: SessionView, app: AppView, slot: usize)
    requires
        !session.turn_active,
    ensures
        ({
            let step = directed(session, app, slot, Link::Open);
            &&& step.effects == seq![
                EffectView::Send(ControlView::Direct { slot, prompt: app.prompt }),
            ]
            &&& step.session.turn_active
            &&& shows_what_was_said(app, step.app, app.prompt)
            &&& step.app.prompt.len() == 0
        }),
{
    reveal(directed);
    lemma_shown(app, app.prompt, true);
}

/// A prompt that is submitted during a turn waits at the end of the queue, as it was
/// written and for the agent that is selected; the prompts before it stay.
pub proof fn law_prompts_wait_behind_the_others(
    session: SessionView,
    app: AppView,
    prompt: Seq<char>,
    slot: usize,
    link: Link,
)
    requires
        session.turn_active,
        link != Link::Absent,
        can_queue(app.queue, prompt),
        can_queue(app.queue, app.prompt),
    ensures
        ({
            let waiting = prompted(session, app, prompt, link).app.queue.prompts;
            &&& waiting.len() > 0
            &&& waiting.drop_last() == app.queue.prompts
            &&& waiting.last().prompt == prompt
            &&& waiting.last().target == session.selected_slot
            &&& !waiting.last().direct
        }),
        ({
            let waiting = directed(session, app, slot, link).app.queue.prompts;
            &&& waiting.len() > 0
            &&& waiting.drop_last() == app.queue.prompts
            &&& waiting.last().prompt == app.prompt
            &&& waiting.last().target == Some(slot)
            &&& waiting.last().direct
        }),
{
    reveal(prompted);
    reveal(directed);
    let first = prompted(session, app, prompt, link).app.queue.prompts;
    let second = directed(session, app, slot, link).app.queue.prompts;
    assert(first.drop_last() =~= app.queue.prompts);
    assert(second.drop_last() =~= app.queue.prompts);
}

/// When a turn ends, the prompt that waited longest is sent to the agent that it waited
/// for, as it was written, and no other leaves the queue.
pub proof fn law_the_oldest_prompt_is_sent_first(session: SessionView, app: AppView)
    requires
        app.queue.prompts.len() > 0,
        app.queue.prompts[0].target is Some || !app.queue.prompts[0].direct,
    ensures
        ({
            let step = dispatched(session, app, Link::Open);
            let first = app.queue.prompts[0];
            &&& step.app.queue.prompts == app.queue.prompts.drop_first()
            &&& step.effects.len() == 1
            &&& first.target matches Some(slot) ==> step.effects[0] == EffectView::Send(
                if first.direct {
                    ControlView::Direct { slot, prompt: first.prompt }
                } else {
                    ControlView::Queue { slot, prompt: first.prompt }
                },
            )
            &&& first.target is None ==> step.effects[0] == EffectView::Send(
                ControlView::Prompt(first.prompt),
            )
            &&& step.session.turn_active
        }),
        dispatched(session, app, Link::Closed).effects.len() == 0,
        dispatched(session, app, Link::Closed).app == app,
{
    reveal(dispatched);
    assert(app.queue.prompts.remove(0) =~= app.queue.prompts.drop_first());
}

/// Every submission is kept for the next conversation, before anything else comes of it.
pub proof fn law_submissions_are_kept(
    session: SessionView,
    app: AppView,
    prompt: Seq<char>,
    now: u64,
    link: Link,
)
    ensures
        submitted(session, app, prompt, now, link).effects.len() > 0,
        submitted(session, app, prompt, now, link).effects[0] == EffectView::Remember(prompt),
{
}

/// A confirmed permission sends the selected option to the agent and the question that it
/// is for, and a cancelled one tells them so; nothing waits for an answer any more.
pub proof fn law_permissions_answer_the_agent_that_asked(
    session: SessionView,
    app: AppView,
    prompt: PermissionView,
)
    requires
        app.permission == Some(prompt),
        prompt.selected < prompt.options.len() == prompt.option_ids.len(),
        prompt.option_ids[prompt.selected as int].len() > 0,
    ensures
        ({
            let yes = permission_decided(session, app, PermissionKey::Confirm, Link::Open);
            let no = permission_decided(session, app, PermissionKey::Cancel, Link::Open);
            &&& yes.effects == seq![
                EffectView::Send(
                    ControlView::Permission {
                        slot: prompt.slot,
                        request_id: prompt.request_id,
                        answer: AnswerView::Selected {
                            option_id: prompt.option_ids[prompt.selected as int],
                        },
                    },
                ),
            ]
            &&& no.effects == seq![
                EffectView::Send(
                    ControlView::Permission {
                        slot: prompt.slot,
                        request_id: prompt.request_id,
                        answer: AnswerView::Cancelled,
                    },
                ),
            ]
            &&& yes.app.permission is None
            &&& no.app.permission is None
            &&& !yes.session.pending_permission
            &&& !no.session.pending_permission
        }),
{
    reveal(permission_decided);
}

/// The first interrupt of a running turn cancels it and ends nothing else; a second one
/// soon after stops the agents and ends the conversation.
pub proof fn law_the_second_interrupt_ends_the_conversation(
    session: SessionView,
    app: AppView,
    now: u64,
    later: u64,
)
    requires
        session.turn_active,
        session.cancel_requested_at is None,
        now <= later <= now + INTERRUPT_WINDOW,
    ensures
        ({
            let first = interrupted(session, app, now, Link::Open);
            let second = interrupted(first.session, first.app, later, Link::Open);
            &&& first.effects == seq![EffectView::Send(ControlView::Cancel)]
            &&& first.session.turn_active
            &&& second.effects == seq![EffectView::Send(ControlView::Stop), EffectView::Quit]
        }),
{
    reveal(interrupted);
}

/// Taking a waiting prompt back takes the selected one and leaves the others.
pub proof fn law_the_selected_prompt_is_taken_back(app: AppView, k: usize)
    requires
        queue_ok(app.queue),
        app.queue.next_id < u64::MAX,
        app.queue.selected == Some(k),
    ensures
        queued_cancelled(app).queue.prompts == app.queue.prompts.remove(k as int),
        queued_cancelled(app).transcript == app.transcript,
{
    reveal(queued_cancelled);
    lemma_place(app.queue.prompts, k as int);
}

proof fn lemma_place(prompts: Seq<QueuedView>, k: int)
    requires
        0 <= k < prompts.len(),
        forall|i: int, j: int|
            0 <= i < j < prompts.len() ==> (#[trigger] prompts[i]).id != (#[trigger] prompts[j]).id,
    ensures
        place_of(prompts, prompts[k].id) == Some(k),
    decreases prompts.len(),
{
    if k > 0 {
        let rest = prompts.drop_first();
        assert(prompts[0].id != prompts[k].id);
        assert forall|i: int, j: int| 0 <= i < j < rest.len() implies (#[trigger] rest[i]).id != (
        #[trigger] rest[j]).id by {
            assert(prompts[i + 1].id != prompts[j + 1].id);
        }
        lemma_place(rest, k - 1);
        assert(rest[k - 1] == prompts[k]);
    }
}

/// Opening a detail and closing it again leaves the conversation as it was, and never
/// touches what any block says.
pub proof fn law_details_open_and_close(app: AppView)
    ensures
        detail_toggled(detail_toggled(app)).transcript == app.transcript,
        detail_toggled(app).transcript.len() == app.transcript.len(),
        forall|i: int|
            0 <= i < app.transcript.len() ==> (#[trigger] detail_toggled(app).transcript[i]).source
                == app.transcript[i].source && detail_toggled(app).transcript[i].kind
                == app.transcript[i].kind && (app.focused_detail != Some(app.transcript[i].id)
                ==> detail_toggled(app).transcript[i] == app.transcript[i]),
{
    reveal(detail_toggled);
    match app.focused_detail {
        Some(id) => {
            lemma_block_place(app.transcript, id);
            match crate::transcript::place_of(app.transcript, id) {
                Some(k) => {
                    let once = detail_toggled(app).transcript;
                    lemma_same_place(app.transcript, once, id);
                    let twice = detail_toggled(detail_toggled(app)).transcript;
                    assert(twice =~= app.transcript);
                },
                None => {},
            }
        },
        None => {},
    }
}

proof fn lemma_block_place(blocks: Seq<BlockView>, id: u64)
    ensures
        crate::transcript::place_of(blocks, id) matches Some(k) ==> 0 <= k < blocks.len()
            && blocks[k].id == id,
    decreases blocks.len(),
{
    if blocks.len() > 0 {
        lemma_block_place(blocks.drop_first(), id);
    }
}

proof fn lemma_same_place(before: Seq<BlockView>, after: Seq<BlockView>, id: u64)
    requires
        before.len() == after.len(),
        forall|i: int| 0 <= i < before.len() ==> (#[trigger] before[i]).id == after[i].id,
    ensures
        crate::transcript::place_of(before, id) == crate::transcript::place_of(after, id),
    decreases before.len(),
{
    if before.len() > 0 {
        let (a, b) = (before.drop_first(), after.drop_first());
        assert(before[0].id == after[0].id);
        assert forall|i: int| 0 <= i < a.len() implies (#[trigger] a[i]).id == b[i].id by {
            assert(before[i + 1].id == after[i + 1].id);
        }
        lemma_same_place(a, b, id);
    }
}

/// A command that names an agent is about that agent: dropping, changing places and
/// selecting. What failed is what is dropped where no agent is named.
pub proof fn law_commands_are_about_the_agents_they_name(
    session: SessionView,
    app: AppView,
    first: usize,
    second: usize,
    now: u64,
)
    ensures
        command_done(session, app, LocalView::DropSlot(first), now, Link::Open).effects == seq![
            EffectView::Send(ControlView::Drop(first)),
        ],
        command_done(
            session,
            app,
            LocalView::Swap(first, second),
            now,
            Link::Open,
        ).effects == seq![EffectView::Send(ControlView::Swap(first, second))],
        failed_slot(app.roster) matches Some(failed) ==> command_done(
            session,
            app,
            LocalView::Drop,
            now,
            Link::Open,
        ).effects == seq![EffectView::Send(ControlView::Drop(failed))],
        ({
            let picked = command_done(session, app, LocalView::SelectAgent(first), now, Link::Open);
            if active_slots(app.roster.agents).contains(first) {
                picked.session.selected_slot == Some(first) && picked.app.roster.selected_agent
                    == Some(first)
            } else {
                picked.session.selected_slot == session.selected_slot
                    && picked.app.roster.selected_agent == app.roster.selected_agent
            }
        }),
        command_done(session, app, LocalView::Cancel, now, Link::Open).effects == (
        if session.turn_active {
            seq![EffectView::Send(ControlView::Cancel)]
        } else {
            seq![EffectView::EndLoop]
        }),
        command_done(session, app, LocalView::Close, now, Link::Open).effects == seq![
            EffectView::Send(ControlView::Stop),
            EffectView::Quit,
        ],
{
    reveal(command_done);
    assert(seq![EffectView::Send(ControlView::Stop)].push(EffectView::Quit) =~= seq![
        EffectView::Send(ControlView::Stop),
        EffectView::Quit,
    ]);
}

/// A digit picks the agent that it counts to.
pub proof fn law_digits_pick_their_agent(session: SessionView, app: AppView, digit: u8)
    requires
        digit > 0,
    ensures
        agent_picked(session, app, digit).session.selected_slot == Some((digit - 1) as usize),
{
}

/// A turn runs from the first thing that an agent reports until the turn is completed, and
/// a permission waits from its request until then.
pub proof fn law_turns_run_until_they_are_completed(session: SessionView, event: AgentEventView)
    ensures
        ({
            let after = event_noted(session, event);
            &&& event is TurnComplete ==> !after.turn_active && !after.pending_permission
                && after.cancel_requested_at is None
            &&& event is TurnStarted || event is Text || event is Thought || event is Tool || event
                is Permission ==> after.turn_active
            &&& event is Permission ==> after.pending_permission
            &&& session.turn_active && !after.turn_active ==> event is TurnComplete
            &&& session.selected_slot == after.selected_slot
        }),
{
}

/// The selection follows the agents when two of them change places.
pub proof fn law_the_selection_follows_the_agents(
    selected: Option<usize>,
    first: usize,
    second: usize,
)
    ensures
        selection_swapped(Some(first), first, second) == Some(second),
        selection_swapped(Some(second), first, second) == Some(first),
        selection_swapped(selection_swapped(selected, first, second), first, second) == selected,
        selected != Some(first) && selected != Some(second) ==> selection_swapped(
            selected,
            first,
            second,
        ) == selected,
{
}

} // verus!
