//! What holds of every launch: each agent that is asked for joins the roster as itself, and
//! what is said about the launch is what is launched.

use crate::launch::{
    agent_called, agent_with, asked, gathered_launch, goes_by, identity_of, named_argument,
    named_from, named_project, normalized, nothing_gathered, parsed_spec, place, plain_launch,
    program_of, request_of, restored_launch, roster_argument, roster_from, roster_launch, spec_of,
    specs_of, started_by, AskView, DefinitionView, Gathered, LaunchView, ProgramView, SlotView,
    SpecView,
};
use crate::resume::{lemma_agent_with, lemma_started_as, started_as};
use crate::text::{
    begins_with, decimal, law_written_numbers_are_read_back, lemma_find_from, lower, occurs_at,
    parse_number, same_ignoring_case, split_once, trim,
};
use vstd::prelude::*;

verus! {

// Agents of the catalog.

proof fn lemma_agent_called(catalog: Seq<DefinitionView>, name: Seq<char>, from: int, k: int)
    requires
        0 <= from <= k < catalog.len(),
        catalog[k].active,
        goes_by(catalog[k], name),
        forall|j: int|
            from <= j < k ==> !((#[trigger] catalog[j]).active && goes_by(catalog[j], name)),
    ensures
        agent_called(catalog, name, from) == Some(k),
    decreases k - from,
{
    if from < k {
        assert(!(catalog[from].active && goes_by(catalog[from], name)));
        lemma_agent_called(catalog, name, from + 1, k);
    }
}

proof fn lemma_named_so_far(
    words: Seq<Seq<char>>,
    more: Seq<Seq<char>>,
    catalog: Seq<DefinitionView>,
    i: int,
    so_far: Gathered,
)
    requires
        0 <= i <= words.len(),
        words.len() > 0 ==> words.last() != "--project-dir"@,
        named_from(words, catalog, i, so_far) is Some,
    ensures
        named_from(words + more, catalog, i, so_far) == named_from(
            words + more,
            catalog,
            words.len() as int,
            named_from(words, catalog, i, so_far)->0,
        ),
    decreases words.len() - i,
{
    let all = words + more;
    if i < words.len() {
        assert(all[i] == words[i]);
        if i + 1 < words.len() {
            assert(all[i + 1] == words[i + 1]);
        } else {
            assert(words[i] == words.last());
        }
        assert(named_argument(all, catalog, i, so_far) == named_argument(words, catalog, i, so_far));
        let (next, taken) = named_argument(words, catalog, i, so_far)->0;
        if taken == 1 {
            lemma_named_so_far(words, more, catalog, i + 1, next);
        } else {
            lemma_named_so_far(words, more, catalog, i + 2, next);
        }
    }
}

/// Each agent that is named joins the roster at its end: the first active agent of the
/// catalog that goes by the name, under its identity. What was said before stays.
pub proof fn law_named_agents_join_the_roster(
    words: Seq<Seq<char>>,
    name: Seq<char>,
    catalog: Seq<DefinitionView>,
    k: int,
)
    requires
        words.len() > 0 ==> words.last() != "--project-dir"@,
        named_from(words, catalog, 0, nothing_gathered()) is Some,
        0 <= k < catalog.len(),
        catalog[k].active,
        goes_by(catalog[k], name),
        forall|j: int| 0 <= j < k ==> !((#[trigger] catalog[j]).active && goes_by(catalog[j], name)),
    ensures
        ({
            let before = named_from(words, catalog, 0, nothing_gathered())->0;
            let after = named_from(words + seq!["--agent"@, name], catalog, 0, nothing_gathered());
            after matches Some(gathered) && {
                &&& gathered.specs.len() == before.specs.len() + 1
                &&& gathered.specs.drop_last() == before.specs
                &&& started_as(gathered.specs.last(), catalog[k])
                &&& gathered.identities == before.identities.push(catalog[k].identity)
                &&& gathered.prompt == before.prompt
                &&& gathered.first_slot == before.first_slot
                &&& gathered.max_rounds == before.max_rounds
            }
        }),
{
    let more = seq!["--agent"@, name];
    let all = words + more;
    let n = words.len() as int;
    lemma_named_so_far(words, more, catalog, 0, nothing_gathered());
    lemma_agent_called(catalog, name, 0, k);
    lemma_started_as(catalog[k]);
    let before = named_from(words, catalog, 0, nothing_gathered())->0;
    assert(all[n] == "--agent"@ && all[n + 1] == name);
    let (next, taken) = named_argument(all, catalog, n, before)->0;
    assert(taken == 2);
    assert(named_from(all, catalog, n + 2, next) == Some(next));
    assert(next.specs.drop_last() =~= before.specs);
}

/// A word that is no option is the prompt, as it was written; a number behind the options
/// for it says who begins, counted from one, and how many turns there are at most.
pub proof fn law_what_is_said_about_the_roster_is_kept(
    words: Seq<Seq<char>>,
    prompt: Seq<char>,
    n: nat,
    catalog: Seq<DefinitionView>,
)
    requires
        words.len() > 0 ==> words.last() != "--project-dir"@,
        named_from(words, catalog, 0, nothing_gathered()) is Some,
        !begins_with(prompt, '-'),
        0 < n <= usize::MAX,
    ensures
        ({
            let before = named_from(words, catalog, 0, nothing_gathered())->0;
            &&& before.prompt is None ==> named_from(
                words + seq![prompt],
                catalog,
                0,
                nothing_gathered(),
            ) == Some(Gathered { prompt: Some(prompt), ..before })
            &&& before.prompt is Some ==> named_from(
                words + seq![prompt],
                catalog,
                0,
                nothing_gathered(),
            ) is None
            &&& named_from(
                words + seq!["--first-agent"@, decimal(n)],
                catalog,
                0,
                nothing_gathered(),
            ) == Some(Gathered { first_slot: (n - 1) as nat, ..before })
            &&& named_from(
                words + seq!["--max-rounds"@, decimal(n)],
                catalog,
                0,
                nothing_gathered(),
            ) == Some(Gathered { max_rounds: n, ..before })
        }),
{
    let before = named_from(words, catalog, 0, nothing_gathered())->0;
    let at = words.len() as int;
    lemma_options_differ();
    lemma_number_is_read(n);
    lemma_named_so_far(words, seq![prompt], catalog, 0, nothing_gathered());
    let first = words + seq![prompt];
    assert(first[at] == prompt);
    assert(prompt.len() > 0 ==> prompt[0] != '-');
    assert(prompt != "-a"@ && prompt != "--agent"@ && prompt != "--first-agent"@);
    assert(prompt != "--max-rounds"@ && prompt != "--project-dir"@);
    if before.prompt is None {
        let next = Gathered { prompt: Some(prompt), ..before };
        assert(named_argument(first, catalog, at, before) == Some((next, 1int)));
        assert(named_from(first, catalog, at + 1, next) == Some(next));
    } else {
        assert(named_argument(first, catalog, at, before) is None);
    }
    let who = seq!["--first-agent"@, decimal(n)];
    lemma_named_so_far(words, who, catalog, 0, nothing_gathered());
    let second = words + who;
    assert(second[at] == "--first-agent"@ && second[at + 1] == decimal(n));
    let began = Gathered { first_slot: (n - 1) as nat, ..before };
    assert(named_argument(second, catalog, at, before) == Some((began, 2int)));
    assert(named_from(second, catalog, at + 2, began) == Some(began));
    let many = seq!["--max-rounds"@, decimal(n)];
    lemma_named_so_far(words, many, catalog, 0, nothing_gathered());
    let third = words + many;
    assert(third[at] == "--max-rounds"@ && third[at + 1] == decimal(n));
    let bounded = Gathered { max_rounds: n, ..before };
    assert(named_argument(third, catalog, at, before) == Some((bounded, 2int)));
    assert(named_from(third, catalog, at + 2, bounded) == Some(bounded));
}

proof fn lemma_options_differ()
    ensures
        "-a"@.len() == 2,
        "-a"@[0] == '-',
        "--agent"@.len() == 7,
        "--agent"@[0] == '-',
        "--first-agent"@.len() == 13,
        "--first-agent"@[0] == '-',
        "--first-agent"@[2] == 'f',
        "--max-rounds"@.len() == 12,
        "--max-rounds"@[0] == '-',
        "--project-dir"@.len() == 13,
        "--project-dir"@[0] == '-',
        "--project-dir"@[2] == 'p',
        "--roster"@.len() == 8,
        "--roster"@[0] == '-',
        "--first"@.len() == 7,
        "--first"@[2] == 'f',
        "--agent"@[2] == 'a',
        "--demo"@.len() == 6,
        "--demo"@[0] == '-',
{
    reveal_strlit("-a");
    reveal_strlit("--agent");
    reveal_strlit("--first-agent");
    reveal_strlit("--max-rounds");
    reveal_strlit("--project-dir");
    reveal_strlit("--roster");
    reveal_strlit("--first");
    reveal_strlit("--demo");
}

pub proof fn lemma_number_is_read(n: nat)
    requires
        n <= usize::MAX,
    ensures
        parse_number(decimal(n), usize::MAX as nat) == Some(n),
{
    law_written_numbers_are_read_back(n);
    let digits = decimal(n);
    assert(crate::text::is_digit(digits[0]));
    assert(!begins_with(digits, '+'));
}

/// A roster that is launched is the one that was gathered: as many agents, and the first to
/// speak is one of them. Without agents nothing is launched.
pub proof fn law_gathered_rosters_are_launched(gathered: Gathered, identities: Seq<Seq<char>>)
    requires
        gathered.first_slot <= usize::MAX,
        gathered.max_rounds <= usize::MAX,
    ensures
        gathered_launch(gathered, identities) is Some <==> gathered.first_slot
            < gathered.specs.len(),
        gathered_launch(gathered, identities) matches Some(launch) ==> (
        launch matches LaunchView::Roster(roster) && roster.specs == gathered.specs
            && roster.identities == identities && roster.prompt == gathered.prompt
            && roster.first_slot == gathered.first_slot && roster.max_rounds
            == gathered.max_rounds),
{
}

// Commands.

/// `KIND:COMMAND` is read as that kind of agent with that command, colons in it and all.
pub proof fn law_commands_are_taken_as_written(kind: Seq<char>, command: Seq<char>)
    requires
        !kind.contains(':'),
        command.len() > 0,
    ensures
        same_ignoring_case(kind, "acp"@) ==> parsed_spec(kind + ":"@ + command) == Some(
            SpecView::Acp(command),
        ),
        same_ignoring_case(kind, "agy"@) || same_ignoring_case(kind, "native"@) ==> parsed_spec(
            kind + ":"@ + command,
        ) == Some(SpecView::Agy(command)),
        parsed_spec(kind + ":"@ + command) is Some ==> same_ignoring_case(kind, "acp"@)
            || same_ignoring_case(kind, "agy"@) || same_ignoring_case(kind, "native"@),
        parsed_spec(kind + ":"@) is None,
{
    reveal_strlit(":");
    reveal_strlit("acp");
    reveal_strlit("agy");
    reveal_strlit("native");
    assert(lower("acp"@) =~= "acp"@);
    assert(lower("agy"@) =~= "agy"@);
    assert(lower("native"@) =~= "native"@);
    assert("acp"@.len() == 3 && "acp"@[1] == 'c' && "agy"@.len() == 3 && "agy"@[1] == 'g');
    assert("native"@.len() == 6);
    lemma_split_at_colon(kind, command);
    lemma_split_at_colon(kind, Seq::empty());
    assert(kind + ":"@ + Seq::<char>::empty() =~= kind + ":"@);
}

proof fn lemma_split_at_colon(kind: Seq<char>, command: Seq<char>)
    requires
        !kind.contains(':'),
    ensures
        split_once(kind + ":"@ + command, ":"@) == Some((kind, command)),
{
    reveal_strlit(":");
    let s = kind + ":"@ + command;
    let at = kind.len() as int;
    lemma_find_from(s, ":"@, 0);
    assert(s.subrange(at, at + 1) =~= ":"@);
    assert(occurs_at(s, ":"@, at));
    let k = crate::text::find(s, ":"@)->0;
    if k < at {
        assert(s.subrange(k, k + 1)[0] == s[k]);
        assert(kind[k] == ':');
    }
    assert(s.take(at) =~= kind);
    assert(s.skip(at + 1) =~= command);
}

proof fn lemma_roster_so_far(
    words: Seq<Seq<char>>,
    more: Seq<Seq<char>>,
    i: int,
    so_far: Gathered,
)
    requires
        0 <= i <= words.len(),
        words.len() > 0 ==> words.last() != "--project-dir"@,
        roster_from(words, i, so_far) is Some,
    ensures
        roster_from(words + more, i, so_far) == roster_from(
            words + more,
            words.len() as int,
            roster_from(words, i, so_far)->0,
        ),
    decreases words.len() - i,
{
    let all = words + more;
    if i < words.len() {
        assert(all[i] == words[i]);
        if i + 1 < words.len() {
            assert(all[i + 1] == words[i + 1]);
        } else {
            assert(words[i] == words.last());
        }
        assert(roster_argument(all, i, so_far) == roster_argument(words, i, so_far));
        let (next, taken) = roster_argument(words, i, so_far)->0;
        if taken == 1 {
            lemma_roster_so_far(words, more, i + 1, next);
        } else {
            lemma_roster_so_far(words, more, i + 2, next);
        }
    }
}

/// Each agent that is given by a command joins the roster at its end, with that command.
pub proof fn law_given_agents_join_the_roster(
    words: Seq<Seq<char>>,
    value: Seq<char>,
    spec: SpecView,
)
    requires
        words.len() > 0 ==> words.last() != "--project-dir"@,
        roster_from(words, 0, nothing_gathered()) is Some,
        parsed_spec(value) == Some(spec),
    ensures
        ({
            let before = roster_from(words, 0, nothing_gathered())->0;
            roster_from(words + seq!["--roster"@, value], 0, nothing_gathered()) == Some(
                Gathered { specs: before.specs.push(spec), ..before },
            )
        }),
{
    let more = seq!["--roster"@, value];
    let all = words + more;
    let n = words.len() as int;
    lemma_roster_so_far(words, more, 0, nothing_gathered());
    let before = roster_from(words, 0, nothing_gathered())->0;
    assert(all[n] == "--roster"@ && all[n + 1] == value);
    let next = Gathered { specs: before.specs.push(spec), ..before };
    assert(roster_argument(all, n, before) == Some((next, 2int)));
    assert(roster_from(all, n + 2, next) == Some(next));
}

/// A command goes by the identity of the first agent of the catalog that it starts, and by
/// itself where it starts none of them.
pub proof fn law_commands_go_by_the_agent_they_start(
    command: Seq<char>,
    catalog: Seq<DefinitionView>,
    programs: Seq<ProgramView>,
    k: int,
)
    requires
        0 <= k <= catalog.len(),
        k < catalog.len() ==> started_by(catalog[k], trim(command), programs),
        forall|j: int| 0 <= j < k ==> !started_by(#[trigger] catalog[j], trim(command), programs),
    ensures
        identity_of(command, catalog, programs, 0) == (if k < catalog.len() {
            catalog[k].identity
        } else {
            trim(command)
        }),
{
    lemma_identity_of(command, catalog, programs, 0, k);
}

proof fn lemma_identity_of(
    command: Seq<char>,
    catalog: Seq<DefinitionView>,
    programs: Seq<ProgramView>,
    from: int,
    k: int,
)
    requires
        0 <= from <= k <= catalog.len(),
        k < catalog.len() ==> started_by(catalog[k], trim(command), programs),
        forall|j: int| from <= j < k ==> !started_by(#[trigger] catalog[j], trim(command), programs),
    ensures
        identity_of(command, catalog, programs, from) == (if k < catalog.len() {
            catalog[k].identity
        } else {
            trim(command)
        }),
    decreases k - from,
{
    if from < k {
        assert(!started_by(catalog[from], trim(command), programs));
        lemma_identity_of(command, catalog, programs, from + 1, k);
    }
}

// Saved rosters.

proof fn lemma_specs_of(slots: Seq<SlotView>, catalog: Seq<DefinitionView>, n: int)
    requires
        0 <= n <= slots.len(),
        forall|i: int|
            0 <= i < slots.len() ==> agent_with(catalog, (#[trigger] slots[i]).agent, 0) is Some,
    ensures
        specs_of(slots, catalog, n).len() == n,
        forall|i: int|
            0 <= i < n ==> #[trigger] specs_of(slots, catalog, n)[i] == spec_of(
                catalog[agent_with(catalog, slots[i].agent, 0)->0],
            ),
    decreases n,
{
    if n > 0 {
        lemma_specs_of(slots, catalog, n - 1);
        assert(agent_with(catalog, slots[n - 1].agent, 0) is Some);
        let before = specs_of(slots, catalog, n - 1);
        let after = specs_of(slots, catalog, n);
        assert forall|i: int| 0 <= i < n implies #[trigger] after[i] == spec_of(
            catalog[agent_with(catalog, slots[i].agent, 0)->0],
        ) by {
            if i < n - 1 {
                assert(after[i] == before[i]);
            }
        }
    }
}

/// A saved roster whose agents the catalog knows comes back whole: each agent in its place,
/// as the catalog starts it, under its identity and with its model.
pub proof fn law_saved_rosters_are_launched_whole(
    slots: Seq<SlotView>,
    catalog: Seq<DefinitionView>,
    i: int,
)
    requires
        0 <= i < slots.len(),
        forall|j: int|
            0 <= j < slots.len() ==> exists|k: int|
                0 <= k < catalog.len() && (#[trigger] catalog[k]).active && same_ignoring_case(
                    catalog[k].identity,
                    (#[trigger] slots[j]).agent,
                ),
    ensures
        restored_launch(slots, catalog) matches LaunchView::Roster(roster) && {
            &&& roster.specs.len() == slots.len()
            &&& roster.identities.len() == slots.len()
            &&& roster.models.len() == slots.len()
            &&& roster.identities[i] == slots[i].agent
            &&& roster.models[i] == slots[i].model
            &&& exists|k: int|
                0 <= k < catalog.len() && (#[trigger] catalog[k]).active && same_ignoring_case(
                    catalog[k].identity,
                    slots[i].agent,
                ) && started_as(roster.specs[i], catalog[k])
        },
{
    assert forall|j: int| 0 <= j < slots.len() implies agent_with(
        catalog,
        (#[trigger] slots[j]).agent,
        0,
    ) is Some by {
        lemma_agent_with(catalog, slots[j].agent, 0);
    }
    lemma_specs_of(slots, catalog, slots.len() as int);
    let specs = specs_of(slots, catalog, slots.len() as int);
    let k = agent_with(catalog, slots[i].agent, 0)->0;
    lemma_agent_with(catalog, slots[i].agent, 0);
    lemma_started_as(catalog[k]);
    assert(specs[i] == spec_of(catalog[k]));
    assert(catalog[k].active);
}

// Arguments.

proof fn lemma_place(words: Seq<Seq<char>>, word: Seq<char>)
    ensures
        0 <= place(words, word) <= words.len(),
        place(words, word) < words.len() ==> words[place(words, word)] == word,
        words.contains(word) <==> place(words, word) < words.len(),
    decreases words.len(),
{
    if words.len() > 0 {
        let rest = words.drop_first();
        lemma_place(rest, word);
        if words[0] == word {
            assert(words.contains(word));
        } else if words.contains(word) {
            let k = choose|k: int| 0 <= k < words.len() && words[k] == word;
            assert(rest[k - 1] == word);
        } else if rest.contains(word) {
            let k = choose|k: int| 0 <= k < rest.len() && rest[k] == word;
            assert(words[k + 1] == word);
        }
    }
}

/// Help is given wherever it is asked for, then the version; otherwise the program starts
/// with all of its arguments.
pub proof fn law_help_comes_first(resume: bool, arguments: Seq<Seq<char>>)
    ensures
        arguments.contains("-h"@) || arguments.contains("--help"@) <==> asked(resume, arguments)
            is Help,
        !(arguments.contains("-h"@) || arguments.contains("--help"@)) && (arguments.contains("-v"@)
            || arguments.contains("--version"@)) <==> asked(resume, arguments) is Version,
        asked(resume, arguments) matches AskView::Start { resume: takes_up, arguments: given }
            ==> takes_up == resume && given == arguments,
        !(asked(resume, arguments) is ResumeUsage),
{
    lemma_place(arguments, "-h"@);
    lemma_place(arguments, "--help"@);
    lemma_place(arguments, "-v"@);
    lemma_place(arguments, "--version"@);
}

/// `resume` takes up a session, in the workspace that it names where it names one; nothing
/// else does.
pub proof fn law_only_resume_takes_a_session_up(
    arguments: Seq<Seq<char>>,
    directory: bool,
    path: Seq<char>,
)
    requires
        path != "-h"@,
        path != "--help"@,
        path != "-v"@,
        path != "--version"@,
    ensures
        request_of(seq!["resume"@], directory) == (AskView::Start {
            resume: true,
            arguments: Seq::empty(),
        }),
        request_of(seq!["resume"@, path], directory) == (AskView::Start {
            resume: true,
            arguments: seq!["--project-dir"@, path],
        }),
        named_project(seq!["--project-dir"@, path]) == Some(path),
        arguments.len() > 0 && arguments[0] != "resume"@ ==> !(request_of(
            arguments,
            directory,
        ) matches AskView::Start { resume, arguments: _ } && resume),
{
    let named = seq!["--project-dir"@, path];
    reveal_strlit("--project-dir");
    reveal_strlit("-h");
    reveal_strlit("--help");
    reveal_strlit("-v");
    reveal_strlit("--version");
    assert("--project-dir"@.len() == 13 && "-h"@.len() == 2 && "--help"@.len() == 6);
    assert("-v"@.len() == 2 && "--version"@.len() == 9);
    lemma_place(named, "-h"@);
    lemma_place(named, "--help"@);
    lemma_place(named, "-v"@);
    lemma_place(named, "--version"@);
    assert(named[0] == "--project-dir"@);
    assert(place(named, "--project-dir"@) == 0);
}

/// The spelling of a subcommand changes nothing that is behind it.
pub proof fn law_subcommands_keep_their_arguments(
    command: Seq<char>,
    path: Seq<char>,
    rest: Seq<Seq<char>>,
    directory: bool,
)
    requires
        !begins_with(path, '-'),
    ensures
        normalized(seq!["run"@] + rest, directory) == rest,
        normalized(seq!["acp"@, command, path] + rest, directory) == seq![
            "--acp"@,
            command,
            "--project-dir"@,
            path,
        ] + rest,
{
    let run = seq!["run"@] + rest;
    assert(run[0] == "run"@);
    assert(run.skip(1) =~= rest);
    let acp = seq!["acp"@, command, path] + rest;
    assert(acp[0] == "acp"@ && acp[1] == command && acp[2] == path);
    reveal_strlit("run");
    reveal_strlit("acp");
    assert("run"@[0] == 'r' && "acp"@[0] == 'a');
    assert(acp.skip(3) =~= rest);
}

// Single agents.

/// An agent that is given by its program is launched with that program and the prompt behind
/// it, where no roster is asked for.
pub proof fn law_a_given_program_is_launched(
    program: Seq<char>,
    prompt: Seq<char>,
    catalog: Seq<DefinitionView>,
    programs: Seq<ProgramView>,
)
    requires
        !begins_with(program, '-'),
        !begins_with(prompt, '-'),
    ensures
        plain_launch(seq!["--acp"@, program, prompt], catalog, programs) == Some(
            LaunchView::Acp { program, prompt: Some(prompt) },
        ),
        plain_launch(seq!["--acp"@, program], catalog, programs) == Some(
            LaunchView::Acp { program, prompt: None },
        ),
        plain_launch(seq!["--agy"@, prompt], catalog, programs) == Some(
            LaunchView::Agy { prompt: Some(prompt) },
        ),
{
    reveal_strlit("--acp");
    reveal_strlit("--agy");
    reveal_strlit("--demo");
    reveal_strlit("-a");
    reveal_strlit("--agent");
    reveal_strlit("--roster");
    assert("--acp"@[3] == 'c' && "--agy"@[3] == 'g');
    assert("--demo"@[2] == 'd' && "--agent"@.len() == 7 && "-a"@.len() == 2 && "--roster"@[2]
        == 'r');
    let full = seq!["--acp"@, program, prompt];
    let bare = seq!["--acp"@, program];
    let native = seq!["--agy"@, prompt];
    lemma_absent(full, "--demo"@);
    lemma_absent(full, "-a"@);
    lemma_absent(full, "--agent"@);
    lemma_absent(full, "--agy"@);
    lemma_absent(full, "--roster"@);
    lemma_absent(bare, "--demo"@);
    lemma_absent(bare, "-a"@);
    lemma_absent(bare, "--agent"@);
    lemma_absent(bare, "--agy"@);
    lemma_absent(bare, "--roster"@);
    lemma_absent(native, "--demo"@);
    lemma_absent(native, "-a"@);
    lemma_absent(native, "--agent"@);
    assert(place(full, "--acp"@) == 0);
    assert(place(bare, "--acp"@) == 0);
    assert(place(native, "--agy"@) == 0);
}

proof fn lemma_absent(words: Seq<Seq<char>>, word: Seq<char>)
    requires
        begins_with(word, '-'),
        words.len() > 0,
        words[0] != word,
        forall|i: int| 1 <= i < words.len() ==> !begins_with(#[trigger] words[i], '-'),
    ensures
        place(words, word) == words.len(),
{
    lemma_place(words, word);
    assert(!words.contains(word));
}

/// Each agent of a given roster goes by the identity of its own command.
pub proof fn law_given_rosters_go_by_their_commands(
    words: Seq<Seq<char>>,
    catalog: Seq<DefinitionView>,
    programs: Seq<ProgramView>,
    i: int,
)
    requires
        roster_launch(words, catalog, programs) is Some,
    ensures
        roster_launch(words, catalog, programs)->0 matches LaunchView::Roster(roster)
            && roster.identities.len() == roster.specs.len() && roster.prompt is Some && (0 <= i
            < roster.specs.len() ==> roster.identities[i] == identity_of(
            match roster.specs[i] {
                SpecView::Acp(command) => command,
                SpecView::Agy(command) => command,
            },
            catalog,
            programs,
            0,
        )),
{
}

/// A program is found by the command that runs it, in lower case.
pub proof fn law_programs_are_those_of_their_command(
    programs: Seq<ProgramView>,
    command: Seq<char>,
    k: int,
)
    requires
        0 <= k < programs.len(),
        programs[k].command == command,
        forall|j: int| 0 <= j < k ==> (#[trigger] programs[j]).command != command,
    ensures
        programs[k].program is Some ==> program_of(programs, command) == Some(
            lower(programs[k].program->0),
        ),
        programs[k].program is None ==> program_of(programs, command) is None,
    decreases k,
{
    if k > 0 {
        assert(programs[0].command != command);
        let rest = programs.drop_first();
        assert forall|j: int| 0 <= j < k - 1 implies (#[trigger] rest[j]).command != command by {
            assert(rest[j] == programs[j + 1]);
        }
        law_programs_are_those_of_their_command(rest, command, k - 1);
    }
}

} // verus!
