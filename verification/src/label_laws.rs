//! What holds of every label and of every short answer: an agent's label says what it does, a
//! key of a panel means one thing, and a word stands for what it names.

use crate::app::AppView;
use crate::config::ConfigKey;
use crate::controls::{strategy_of, CollaborationStrategy};
use crate::editor::{matches_for, points_of, remembering, ActionView, EditorView, Input, Key};
use crate::events::AgentEventView;
use crate::footer::{agent_label, agent_marker, agent_style, timer_label, tools_label};
use crate::launch::{escaped_quotes, goes_by, needs_no_quotes, quoted, DefinitionView};
use crate::layout::{presented, BlockKind};
use crate::markdown::{kind_style, line_style};
use crate::path_index::{count_of, is_plain_name, MatchView, UpdateView};
use crate::picker::{updated, PickerView};
use crate::roster::{name_of, record_of, shown_slots, with_tool, AgentState, RecordView};
use crate::screen::{spoken_row, timed};
use crate::session::attention;
use crate::settings::Density;
use crate::store::StoreActionView;
use crate::surface::{directory_edited, prompt_rows, remembering_all};
use crate::terminal_input::{decoded, ConfigInputDecoder};
use crate::text::{
    begins_with, decimal, find, find_char, lemma_find_char, lemma_find_from, occurs_at,
    same_ignoring_case, starts_with, trim, trim_start,
};
use vstd::prelude::*;

verus! {

// Agents in the last row.

/// The label of an agent names that agent, behind the sign of what it does and before how
/// long and with how many tools it has worked. Agents that work, start or failed are told
/// apart.
pub proof fn law_labels_name_their_agent(app: AppView, slot: usize, active: int, now: u64)
    ensures
        ({
            let record = record_of(app.roster.agents, slot);
            let label = agent_label(app, slot, active, now);
            let marker = agent_marker(app, slot, active);
            let rest = marker + " "@ + name_of(app.roster.agents, slot) + timer_label(record, now)
                + tools_label(record);
            &&& label.len() >= rest.len()
            &&& label.skip(label.len() - rest.len()) == rest
            &&& marker == "●"@ <==> record.state == Some(AgentState::Working)
            &&& marker == "!"@ <==> record.state == Some(AgentState::Error)
            &&& marker == "◌"@ <==> record.state is None || record.state == Some(
                AgentState::Starting,
            )
            &&& agent_style(app, slot).dim <==> record.state != Some(AgentState::Working)
            &&& record.tool_calls.len() == 0 ==> tools_label(record).len() == 0
            &&& record.tool_calls.len() == 1 ==> tools_label(record) == " · "@ + decimal(1)
                + " "@ + "tool"@
            &&& record.tool_calls.len() > 1 ==> tools_label(record) == " · "@ + decimal(
                record.tool_calls.len(),
            ) + " "@ + "tools"@
            &&& record.turn_started is None ==> timer_label(record, now).len() == 0
        }),
{
    reveal_strlit("●");
    reveal_strlit("◌");
    reveal_strlit("!");
    reveal_strlit("⌖");
    reveal_strlit("○");
    let record = record_of(app.roster.agents, slot);
    let label = agent_label(app, slot, active, now);
    let marker = agent_marker(app, slot, active);
    let rest = marker + " "@ + name_of(app.roster.agents, slot) + timer_label(record, now)
        + tools_label(record);
    assert(label.skip(label.len() - rest.len()) =~= rest);
    assert("●"@[0] != "◌"@[0] && "●"@[0] != "!"@[0] && "●"@[0] != "⌖"@[0] && "●"@[0] != "○"@[0]);
    assert("!"@[0] != "◌"@[0] && "!"@[0] != "⌖"@[0] && "!"@[0] != "○"@[0]);
    assert("◌"@[0] != "⌖"@[0] && "◌"@[0] != "○"@[0]);
}

/// The agents of the last row are those that have a name and were not dropped, in the order
/// of their slots.
pub proof fn law_dropped_agents_are_not_shown(
    agents: Seq<(usize, RecordView)>,
    slot: usize,
    record: RecordView,
)
    ensures
        record.name is Some && record.state != Some(AgentState::Dropped) ==> shown_slots(
            agents.push((slot, record)),
        ) == shown_slots(agents).push(slot),
        record.name is None || record.state == Some(AgentState::Dropped) ==> shown_slots(
            agents.push((slot, record)),
        ) == shown_slots(agents),
{
    assert(agents.push((slot, record)).drop_last() =~= agents);
}

/// A tool call is counted once, however often it is reported.
pub proof fn law_repeated_calls_are_counted_once(calls: Seq<Seq<char>>, id: Seq<char>)
    ensures
        with_tool(calls, id).contains(id),
        with_tool(with_tool(calls, id), id) == with_tool(calls, id),
        !calls.contains(id) ==> with_tool(calls, id).len() == calls.len() + 1,
{
    if !calls.contains(id) {
        assert(calls.push(id).last() == id);
    }
}

/// A question asks for the person's attention, and the end of a turn or a failure ends it.
pub proof fn law_questions_ask_for_attention(app: AppView, event: AgentEventView)
    ensures
        event is Permission && app.title_flash < usize::MAX ==> attention(app, event).title_flash
            == app.title_flash + 1,
        event is TurnComplete || event is Failed ==> attention(app, event).title_flash == 0
            && !attention(app, event).title_blink,
        event is Text || event is Tool ==> attention(app, event) == app,
        attention(app, event).transcript == app.transcript,
{
}

// Keys of the configuration.

/// An arrow moves the focus, and held it moves the row; sideways it changes the value; and an
/// escape is only decided by what follows it.
pub proof fn law_keys_of_the_configuration(decoder: ConfigInputDecoder, input: Input, now: u64)
    requires
        !input.alt && !input.ctrl && !input.shift,
        decoder.escape_at is None,
    ensures
        decoded(decoder, Input { key: Key::Up, ..input }, now).0 == Some(ConfigKey::Up),
        decoded(decoder, Input { key: Key::Down, ..input }, now).0 == Some(ConfigKey::Down),
        decoded(decoder, Input { key: Key::Up, alt: true, ..input }, now).0 == Some(
            ConfigKey::MoveUp,
        ),
        decoded(decoder, Input { key: Key::Down, alt: true, ..input }, now).0 == Some(
            ConfigKey::MoveDown,
        ),
        decoded(decoder, Input { key: Key::Left, ..input }, now).0 == Some(
            ConfigKey::PreviousValue,
        ),
        decoded(decoder, Input { key: Key::Right, ..input }, now).0 == Some(ConfigKey::NextValue),
        decoded(decoder, Input { key: Key::Enter, ..input }, now).0 == Some(ConfigKey::Confirm),
        decoded(decoder, Input { key: Key::Char(' '), ..input }, now).0 == Some(
            ConfigKey::ToggleSlot,
        ),
        decoded(decoder, Input { key: Key::Char('s'), ..input }, now).0 is None,
        decoded(decoder, Input { key: Key::Char('s'), ctrl: true, ..input }, now).0 == Some(
            ConfigKey::Save,
        ),
        decoded(decoder, Input { key: Key::Esc, ..input }, now).0 is None,
        decoded(decoder, Input { key: Key::Esc, ..input }, now).1.escape_at == Some(now),
{
}

/// Behind an escape, and in time, an arrow moves the row and everything else cancels.
pub proof fn law_escapes_are_decided_by_what_follows(
    decoder: ConfigInputDecoder,
    input: Input,
    now: u64,
)
    requires
        decoder.escape_at == Some(now),
    ensures
        input.key == Key::Up ==> decoded(decoder, input, now).0 == Some(ConfigKey::MoveUp),
        input.key == Key::Down ==> decoded(decoder, input, now).0 == Some(ConfigKey::MoveDown),
        input.key != Key::Up && input.key != Key::Down ==> decoded(decoder, input, now).0 == Some(
            ConfigKey::Cancel,
        ),
        decoded(decoder, input, now).1.escape_at is None,
{
}

/// Each label of a collaboration stands for a strategy of its own.
pub proof fn law_labels_stand_for_their_strategy(label: Seq<char>)
    ensures
        strategy_of("Manual routing"@) == CollaborationStrategy::Manual,
        strategy_of("Pair review"@) == CollaborationStrategy::Pair,
        strategy_of("Roster relay"@) == CollaborationStrategy::Roster,
        label != "Manual routing"@ && label != "Pair review"@ ==> strategy_of(label)
            == CollaborationStrategy::Roster,
{
    reveal_strlit("Manual routing");
    reveal_strlit("Pair review");
    reveal_strlit("Roster relay");
    assert("Manual routing"@[0] == 'M' && "Pair review"@[0] == 'P' && "Roster relay"@[0] == 'R');
}

// The prompt.

/// The prompt grows with its text, up to what its density allows, and never takes less than
/// two rows.
pub proof fn law_the_prompt_grows_with_its_text(app: AppView)
    ensures
        2 <= prompt_rows(app) <= 8,
        1 <= app.editor.lines.len() <= 2 ==> prompt_rows(app) == app.editor.lines.len() + 1,
        app.settings.density != Density::Compact && 1 <= app.editor.lines.len() <= 7
            ==> prompt_rows(app) == app.editor.lines.len() + 1,
        app.settings.density == Density::Compact ==> prompt_rows(app) <= 3,
{
}

/// A path is looked for once three of its characters are there, and not before.
pub proof fn law_short_paths_are_not_completed(token: Seq<char>, candidates: Seq<Seq<char>>)
    requires
        begins_with(token, '@'),
        token.len() < 4,
    ensures
        matches_for(token, candidates).len() == 0,
{
}

proof fn lemma_run_points(text: Seq<char>, from: int, n: int)
    requires
        is_plain_name(text),
        0 < from,
        0 <= n,
        from + n <= text.len(),
    ensures
        points_of(text.subrange(from, from + n), text, from, Some(from - 1)) == Some(3 * n),
    decreases n,
{
    if n > 0 {
        let query = text.subrange(from, from + n);
        assert(text.skip(from)[0] == text[from]);
        assert((text[from - 1] as u32) < 128);
        lemma_run_points(text, from + 1, n - 1);
        assert(query.drop_first() =~= text.subrange(from + 1, from + 1 + n - 1));
    }
}

/// Characters that stand together make a completion the stronger.
pub proof fn law_runs_complete_better(text: Seq<char>, n: int)
    requires
        is_plain_name(text),
        0 < n <= text.len(),
    ensures
        points_of(text.take(n), text, 0, None) == Some(2 + 3 * (n - 1)),
{
    assert(text.skip(0)[0] == text[0]);
    lemma_run_points(text, 1, n - 1);
    assert(text.take(n).drop_first() =~= text.subrange(1, n));
}

/// Submissions are remembered in the order in which they were made.
pub proof fn law_submissions_are_remembered_in_order(
    editor: EditorView,
    entries: Seq<Seq<char>>,
    entry: Seq<char>,
)
    ensures
        remembering_all(editor, entries.push(entry)) == remembering(
            remembering_all(editor, entries),
            entry,
        ),
        remembering_all(editor, Seq::empty()) == editor,
{
    assert(entries.push(entry).drop_last() =~= entries);
}

/// A directory that is submitted is the directory of the store, and is no longer edited; any
/// other key leaves it as it is.
pub proof fn law_submitted_directories_are_taken(
    app: AppView,
    editor: EditorView,
    directory: Seq<char>,
    action: ActionView,
)
    ensures
        ({
            let (after, done) = directory_edited(app, editor, ActionView::Submit(directory));
            &&& after.store.directory == directory
            &&& !after.store.editing_directory
            &&& done == StoreActionView::Directory(directory)
            &&& after.store.agents == app.store.agents
        }),
        !(action is Submit) ==> directory_edited(app, editor, action).0.store == app.store && !(
        directory_edited(app, editor, action).1 is Directory),
        directory_edited(app, editor, action).0.editor == editor,
{
}

/// What was found for the query that is shown is shown, as it was found.
pub proof fn law_found_paths_are_shown(
    picker: PickerView,
    generation: u64,
    matches: Seq<MatchView>,
)
    ensures
        ({
            let after = updated(
                picker,
                Some(generation),
                UpdateView::Matches { generation, query: picker.query, matches },
            );
            &&& after.matches == matches
            &&& after.query == picker.query
            &&& picker.selection < matches.len() ==> after.selection == picker.selection
        }),
{
}

// Words and names.

/// An argument that needs no quotes is written as it is, and any other one between quotes;
/// without a quote of its own it is whole between them.
pub proof fn law_arguments_are_quoted_where_they_need_it(argument: Seq<char>, i: int)
    ensures
        (forall|k: int| 0 <= k < argument.len() ==> needs_no_quotes(#[trigger] argument[k]))
            ==> quoted(argument) == argument,
        0 <= i < argument.len() && !needs_no_quotes(argument[i]) && !argument.contains('\'')
            ==> quoted(argument) == seq!['\''] + argument + seq!['\''],
{
    if 0 <= i < argument.len() && !needs_no_quotes(argument[i]) && !argument.contains('\'') {
        lemma_no_quotes(argument);
    }
}

proof fn lemma_no_quotes(argument: Seq<char>)
    requires
        !argument.contains('\''),
    ensures
        escaped_quotes(argument) == argument,
    decreases argument.len(),
{
    if argument.len() > 0 {
        let rest = argument.drop_last();
        assert(argument.last() != '\'');
        assert forall|k: int| 0 <= k < rest.len() implies rest[k] != '\'' by {
            assert(rest[k] == argument[k]);
        }
        lemma_no_quotes(rest);
        assert(rest + seq![argument.last()] =~= argument);
    }
}

/// An agent goes by its identity, by its short name and by each of its aliases, in any case.
pub proof fn law_agents_go_by_all_their_names(agent: DefinitionView, name: Seq<char>, i: int)
    ensures
        same_ignoring_case(agent.identity, name) ==> goes_by(agent, name),
        same_ignoring_case(agent.short_name, name) ==> goes_by(agent, name),
        0 <= i < agent.aliases.len() && same_ignoring_case(agent.aliases[i], name) ==> goes_by(
            agent,
            name,
        ),
{
}

/// What a tool, a terminal or a diff shows is what stands behind the name of the agent; what
/// somebody said is shown whole.
pub proof fn law_activities_are_shown_behind_their_agent(name: Seq<char>, activity: Seq<char>)
    requires
        !name.contains(':'),
    ensures
        presented(BlockKind::Tool, name + seq![':', ' '] + activity) == activity,
        presented(BlockKind::Diff, name + seq![':', ' '] + activity) == activity,
        presented(BlockKind::Human, activity) == activity,
        presented(BlockKind::Agent, activity) == activity,
{
    let source = name + seq![':', ' '] + activity;
    reveal_strlit(": ");
    assert(": "@ =~= seq![':', ' ']);
    assert(source.subrange(name.len() as int, name.len() as int + 2) =~= ": "@);
    assert(occurs_at(source, ": "@, name.len() as int));
    lemma_find_from(source, ": "@, 0);
    let k = find(source, ": "@)->0;
    if k < name.len() {
        assert(source.subrange(k, k + 2)[0] == ':');
        assert(source[k] == name[k]);
        assert(name.contains(name[k]));
    }
    assert(source.skip(name.len() as int + 2) =~= activity);
}

/// A heading is in bold, whatever block it stands in, and a line without marks of its own
/// has the style of its block.
pub proof fn law_headings_are_bold(kind: BlockKind, text: Seq<char>)
    ensures
        begins_with(trim(text), '#') ==> line_style(kind, text).bold,
        trim(text).len() == 0 ==> line_style(kind, text) == kind_style(kind),
{
    reveal_strlit("```");
    reveal_strlit("---");
    reveal_strlit("___");
    reveal_strlit("***");
    if trim(text).len() == 0 {
        assert(!starts_with(trim(text), "```"@));
        assert(count_of(trim(text), '|') == 0);
    }
}

/// A row that names who speaks shows the mark and the name first, and behind them the time
/// where there is one, without its brackets.
pub proof fn law_spoken_rows_name_the_speaker(
    app: AppView,
    kind: BlockKind,
    mark: Seq<char>,
    speaker: Seq<char>,
    time: Seq<char>,
    body: Seq<char>,
    in_code: bool,
)
    requires
        !time.contains(']'),
    ensures
        ({
            let row = spoken_row(app, kind, mark, speaker, body, in_code).0;
            row.len() >= 2 && row[0].text == mark && row[1].text == speaker
        }),
        timed(seq!['['] + time + seq![']']) == Some((time, Seq::<char>::empty())),
        !begins_with(body, '[') ==> timed(body) is None,
{
    let whole = seq!['['] + time + seq![']'];
    lemma_find_char(whole, ']');
    let end = find_char(whole, ']');
    assert(whole[time.len() as int + 1] == ']');
    if end < time.len() + 1 {
        if end > 0 {
            assert(time[end - 1] == ']');
            assert(time.contains(time[end - 1]));
        }
    }
    assert(whole.subrange(1, end) =~= time);
    assert(whole.skip(end + 1) =~= Seq::<char>::empty());
    assert(trim_start(Seq::<char>::empty()) =~= Seq::<char>::empty());
}

} // verus!
