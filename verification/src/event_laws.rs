//! What holds of agent events, whatever the state of the conversation.

use crate::app::{
    after_event, begun, block_for, extended, history_shown, streamed, terminal_shown,
    terminal_source, tool_kind, tool_shown, tool_source, tool_target, turn_completed, AppView,
    Moment,
};
use crate::events::{AgentEventView, HistoryView, TerminalView, ToolView};
use crate::layout::{lay_block, lay_out, BlockKind, BlockView};
use crate::roster::{in_state, name_of, record_of, turn_ended, AgentState, RecordView};
use crate::slots::{held, in_slot_order, law_put_then_lookup, put};
use crate::streams::{
    no_stream, open_block, tool_block, tool_place, with_open_block, with_tool_block, StreamRecord,
    StreamView,
};
use crate::text::trim;
use crate::transcript::{exported, place_of};
use vstd::prelude::*;

verus! {

proof fn lemma_same_ids(left: Seq<BlockView>, right: Seq<BlockView>, id: u64)
    requires
        left.len() == right.len(),
        forall|i: int| 0 <= i < left.len() ==> (#[trigger] left[i]).id == right[i].id,
    ensures
        place_of(left, id) == place_of(right, id),
    decreases left.len(),
{
    if left.len() > 0 {
        let l = left.drop_first();
        let r = right.drop_first();
        assert forall|i: int| 0 <= i < l.len() implies (#[trigger] l[i]).id == r[i].id by {
            assert(left[i + 1].id == right[i + 1].id);
        }
        lemma_same_ids(l, r, id);
        assert(left[0].id == right[0].id);
    }
}

pub proof fn lemma_place(blocks: Seq<BlockView>, id: u64)
    ensures
        place_of(blocks, id) matches Some(k) ==> 0 <= k < blocks.len() && blocks[k].id == id,
    decreases blocks.len(),
{
    if blocks.len() > 0 && blocks[0].id != id {
        lemma_place(blocks.drop_first(), id);
    }
}

proof fn lemma_place_pushed(blocks: Seq<BlockView>, block: BlockView, id: u64)
    ensures
        block.id == id ==> place_of(blocks.push(block), id) is Some,
        place_of(blocks, id) is Some ==> place_of(blocks.push(block), id) == place_of(blocks, id),
    decreases blocks.len(),
{
    let all = blocks.push(block);
    if blocks.len() == 0 {
        assert(all[0] == block);
    } else {
        assert(all[0] == blocks[0]);
        assert(all.drop_first() =~= blocks.drop_first().push(block));
        lemma_place_pushed(blocks.drop_first(), block, id);
    }
}

proof fn lemma_extended_twice(blocks: Seq<BlockView>, id: u64, a: Seq<char>, b: Seq<char>)
    ensures
        extended(extended(blocks, id, a), id, b) == extended(blocks, id, a + b),
{
    lemma_place(blocks, id);
    match place_of(blocks, id) {
        Some(k) => {
            let once = extended(blocks, id, a);
            assert forall|i: int| 0 <= i < once.len() implies (#[trigger] once[i]).id
                == blocks[i].id by {}
            lemma_same_ids(once, blocks, id);
            assert(blocks[k].source + a + b =~= blocks[k].source + (a + b));
            assert(extended(once, id, b) =~= extended(blocks, id, a + b));
        },
        None => {},
    }
}

/// The chunks of one turn make one block: text that comes in two chunks is shown as
/// text that comes in one.
pub proof fn law_chunks_make_one_block(
    app: AppView,
    slot: usize,
    kind: BlockKind,
    opening: Seq<char>,
    again: Seq<char>,
    collapsed: bool,
    a: Seq<char>,
    b: Seq<char>,
)
    requires
        in_slot_order(app.streams),
        kind == BlockKind::Human || kind == BlockKind::Agent || kind == BlockKind::Thought,
    ensures
        streamed(streamed(app, slot, kind, opening, collapsed, a), slot, kind, again, collapsed, b)
            == streamed(app, slot, kind, opening, collapsed, a + b),
{
    reveal(streamed);
    let stream = held::<StreamRecord>(app.streams, slot);
    let id = block_for(app, slot, kind);
    match open_block(stream, kind) {
        Some(open) => {
            lemma_extended_twice(app.transcript, id, a, b);
        },
        None => {
            let opened = with_open_block(stream, kind, id);
            law_put_then_lookup(app.streams, slot, opened, slot);
            let blocks = app.transcript.push(BlockView { id, kind, source: opening, collapsed });
            lemma_extended_twice(blocks, id, a, b);
        },
    }
}

proof fn lemma_tool_found(stream: StreamView, call: Seq<char>, id: u64)
    ensures
        tool_block(with_tool_block(stream, call, id), call) == Some(id),
{
    let before = stream.tools;
    let after = with_tool_block(stream, call, id).tools;
    lemma_tool_place(before, call);
    match tool_place(before, call) {
        Some(k) => {
            lemma_same_calls(after, before, call);
        },
        None => {
            lemma_tool_pushed(before, call, id);
        },
    }
}

proof fn lemma_tool_place(tools: Seq<(Seq<char>, u64)>, call: Seq<char>)
    ensures
        tool_place(tools, call) matches Some(k) ==> 0 <= k < tools.len() && tools[k].0 == call,
    decreases tools.len(),
{
    if tools.len() > 0 && tools[0].0 != call {
        lemma_tool_place(tools.drop_first(), call);
    }
}

proof fn lemma_same_calls(
    left: Seq<(Seq<char>, u64)>,
    right: Seq<(Seq<char>, u64)>,
    call: Seq<char>,
)
    requires
        left.len() == right.len(),
        forall|i: int| 0 <= i < left.len() ==> (#[trigger] left[i]).0 == right[i].0,
    ensures
        tool_place(left, call) == tool_place(right, call),
    decreases left.len(),
{
    if left.len() > 0 {
        let l = left.drop_first();
        let r = right.drop_first();
        assert forall|i: int| 0 <= i < l.len() implies (#[trigger] l[i]).0 == r[i].0 by {
            assert(left[i + 1].0 == right[i + 1].0);
        }
        lemma_same_calls(l, r, call);
        assert(left[0].0 == right[0].0);
    }
}

proof fn lemma_tool_pushed(tools: Seq<(Seq<char>, u64)>, call: Seq<char>, id: u64)
    requires
        tool_place(tools, call) is None,
    ensures
        tool_place(tools.push((call, id)), call) == Some(tools.len() as int),
    decreases tools.len(),
{
    let all = tools.push((call, id));
    if tools.len() > 0 {
        assert(all[0] == tools[0]);
        assert(all.drop_first() =~= tools.drop_first().push((call, id)));
        lemma_tool_pushed(tools.drop_first(), call, id);
    } else {
        assert(all[0] == (call, id));
    }
}

/// A tool call has one card: a later update of the same call replaces it in place,
/// and adds none.
pub proof fn law_tool_updates_stay_in_place(
    app: AppView,
    slot: usize,
    first: ToolView,
    second: ToolView,
)
    requires
        in_slot_order(app.streams),
        first.id == second.id,
        app.transcript.len() < u64::MAX,
    ensures
        tool_shown(tool_shown(app, slot, first), slot, second).transcript.len() == tool_shown(
            app,
            slot,
            first,
        ).transcript.len(),
        tool_shown(app, slot, first).transcript.len() <= app.transcript.len() + 1,
{
    reveal(tool_shown);
    let once = tool_shown(app, slot, first);
    let stream = held::<StreamRecord>(app.streams, slot);
    let id = app.transcript.len() as u64;
    match tool_target(app, slot, first.id) {
        Some(target) => {
            lemma_place(app.transcript, target);
            assert forall|i: int| 0 <= i < once.transcript.len() implies (
            #[trigger] once.transcript[i]).id == app.transcript[i].id by {}
            lemma_same_ids(once.transcript, app.transcript, target);
        },
        None => {
            law_put_then_lookup(
                app.streams,
                slot,
                with_tool_block(stream, first.id, id),
                slot,
            );
            lemma_tool_found(stream, first.id, id);
            let block = once.transcript.last();
            assert(once.transcript =~= app.transcript.push(block));
            lemma_place_pushed(app.transcript, block, id);
            assert(held::<StreamRecord>(once.streams, slot) == with_tool_block(
                stream,
                first.id,
                id,
            ));
        },
    }
    assert(tool_target(once, slot, second.id) is Some);
    lemma_place(once.transcript, tool_target(once, slot, second.id).unwrap());
}

/// A part of an earlier conversation changes only what is shown: no agent works, is
/// asked or fails because of it.
pub proof fn law_history_runs_nothing(
    app: AppView,
    slot: usize,
    content: HistoryView,
    moment: Moment,
)
    ensures
        ({
            let after = after_event(app, AgentEventView::History { slot, content }, moment);
            after.roster == app.roster && after.status == app.status && after.permission
                == app.permission && after.active_agent == app.active_agent && after.queue
                == app.queue
        }),
{
    reveal(history_shown);
    reveal(streamed);
    reveal(tool_shown);
}

/// A completed turn leaves nothing running: the agent is ready, has no timer and no
/// open block, and no question of its is pending.
pub proof fn law_completed_turns_leave_nothing_running(app: AppView, slot: usize, moment: Moment)
    requires
        in_slot_order(app.streams),
        in_slot_order(app.roster.agents),
    ensures
        ({
            let after = after_event(app, AgentEventView::TurnComplete { slot }, moment);
            let record = record_of(after.roster.agents, slot);
            record.state == Some(AgentState::Ready) && record.turn_started is None
                && record.tool_calls.len() == 0 && held::<StreamRecord>(after.streams, slot)
                == no_stream() && (after.permission matches Some(prompt) ==> prompt.slot != slot)
        }),
{
    reveal(turn_completed);
    reveal(turn_ended);
    reveal(in_state);
    law_put_then_lookup(app.streams, slot, no_stream(), slot);
    let record = record_of(app.roster.agents, slot);
    let rested = RecordView { turn_started: None, tool_calls: Seq::empty(), ..record };
    law_put_then_lookup(app.roster.agents, slot, rested, slot);
    law_put_then_lookup(
        put(app.roster.agents, slot, rested),
        slot,
        RecordView { state: Some(AgentState::Ready), ..rested },
        slot,
    );
}

/// What a terminal of an agent prints takes no row of the conversation at any width, and
/// the export keeps it.
pub proof fn law_terminal_output_is_hidden_but_exported(
    app: AppView,
    slot: usize,
    event: TerminalView,
    moment: Moment,
    width: int,
)
    ensures
        ({
            let after = after_event(app, AgentEventView::Terminal { slot, event }, moment);
            let source = trim(
                terminal_source(name_of(begun(app, slot, moment).roster.agents, slot), event),
            );
            &&& lay_out(after.transcript, width).rows == lay_out(app.transcript, width).rows
            &&& source.len() > 0 ==> exported(after.transcript) == exported(app.transcript)
                + "## Tool\n\n"@ + source + "\n\n"@
        }),
{
    reveal(terminal_shown);
    reveal(lay_block);
    let after = after_event(app, AgentEventView::Terminal { slot, event }, moment);
    assert(after.transcript.drop_last() =~= app.transcript);
    let source = trim(
        terminal_source(name_of(begun(app, slot, moment).roster.agents, slot), event),
    );
    reveal_strlit("## ");
    reveal_strlit("Tool");
    reveal_strlit("\n\n");
    reveal_strlit("## Tool\n\n");
    assert("## "@ + "Tool"@ + "\n\n"@ =~= "## Tool\n\n"@);
    assert(exported(app.transcript) + "## "@ + "Tool"@ + "\n\n"@ + source + "\n\n"@
        =~= exported(app.transcript) + ("## "@ + "Tool"@ + "\n\n"@) + source + "\n\n"@);
}

/// Blocks that take no row can stand for one another without a row changing.
proof fn lemma_hidden_update(
    blocks: Seq<BlockView>,
    place: int,
    block: BlockView,
    width: int,
)
    requires
        0 <= place < blocks.len(),
        blocks[place].kind == BlockKind::Activity,
        block.kind == BlockKind::Activity,
    ensures
        lay_out(blocks.update(place, block), width) == lay_out(blocks, width),
    decreases blocks.len(),
{
    reveal(lay_block);
    let after = blocks.update(place, block);
    if place < blocks.len() - 1 {
        lemma_hidden_update(blocks.drop_last(), place, block, width);
        assert(after.drop_last() =~= blocks.drop_last().update(place, block));
        assert(after.last() == blocks.last());
    } else {
        assert(after.drop_last() =~= blocks.drop_last());
    }
}

/// What an ordinary tool call does takes no row of the conversation at any width, as long
/// as the same call was no diff before, and the export keeps it.
pub proof fn law_tool_calls_are_hidden_but_exported(
    app: AppView,
    slot: usize,
    update: ToolView,
    width: int,
)
    requires
        tool_kind(update) == BlockKind::Activity,
        tool_target(app, slot, update.id) matches Some(id) ==> app.transcript[place_of(
            app.transcript,
            id,
        ).unwrap()].kind == BlockKind::Activity,
    ensures
        ({
            let after = tool_shown(app, slot, update);
            let source = tool_source(name_of(app.roster.agents, slot), update);
            &&& lay_out(after.transcript, width).rows == lay_out(app.transcript, width).rows
            &&& after.focused_detail == app.focused_detail
            &&& exists|i: int|
                0 <= i < after.transcript.len() && (#[trigger] after.transcript[i]).source == source
                    && after.transcript[i].kind == BlockKind::Activity
        }),
{
    reveal(tool_shown);
    reveal(lay_block);
    let after = tool_shown(app, slot, update);
    match tool_target(app, slot, update.id) {
        Some(id) => {
            lemma_place(app.transcript, id);
            let k = place_of(app.transcript, id).unwrap();
            lemma_hidden_update(app.transcript, k, after.transcript[k], width);
            assert(after.transcript =~= app.transcript.update(k, after.transcript[k]));
        },
        None => {
            assert(after.transcript.drop_last() =~= app.transcript);
            assert(after.transcript[app.transcript.len() as int].kind == BlockKind::Activity);
        },
    }
}

} // verus!
