//! From command-line arguments to what is launched.

use crate::events::{copy_optional, copy_strings};
use crate::labels::{entry_name, file_name};
use crate::order::{item_contents, lemma_item_contents_push};
use crate::text::{
    alphanumeric, append_chars, append_text, begins_with, blank, contains, eq_ignore_case,
    has_first, has_part, has_prefix, is_alphanumeric, is_blank, lemma_strings_push, lower, optional,
    parse_number, parse_u64, same, same_ignoring_case, split_at_first, split_once, starts_with,
    strings, to_chars, to_lower, to_text, trim, trimmed_text,
};
use vstd::prelude::*;

verus! {

broadcast use {lemma_item_contents_push, lemma_strings_push};

/// How an agent is reached, and the command that starts it.
#[derive(Clone, Debug, Eq, PartialEq)]
pub enum AgentSpec {
    Agy(String),
    Acp(String),
}

pub enum SpecView {
    Agy(Seq<char>),
    Acp(Seq<char>),
}

impl View for AgentSpec {
    type V = SpecView;

    open spec fn view(&self) -> SpecView {
        match self {
            AgentSpec::Agy(command) => SpecView::Agy(command@),
            AgentSpec::Acp(command) => SpecView::Acp(command@),
        }
    }
}

impl AgentSpec {
    pub fn copy(&self) -> (spec: AgentSpec)
        ensures
            spec@ == self@,
    {
        match self {
            AgentSpec::Agy(command) => AgentSpec::Agy(command.clone()),
            AgentSpec::Acp(command) => AgentSpec::Acp(command.clone()),
        }
    }
}

/// The command that starts an agent.
pub open spec fn command_of(spec: SpecView) -> Seq<char> {
    match spec {
        SpecView::Agy(command) => command,
        SpecView::Acp(command) => command,
    }
}

/// The command that starts an agent.
pub fn agent_spec_command(spec: &AgentSpec) -> (command: &str)
    ensures
        command@ == command_of(spec@),
{
    match spec {
        AgentSpec::Agy(command) => command.as_str(),
        AgentSpec::Acp(command) => command.as_str(),
    }
}

#[derive(Clone, Copy, Debug, Eq, PartialEq, Structural)]
pub enum AdapterKind {
    Native,
    Acp,
}

/// An agent of the catalog.
#[derive(Clone, Debug, Eq, PartialEq)]
pub struct AgentDefinition {
    pub identity: String,
    pub name: String,
    pub short_name: String,
    pub aliases: Vec<String>,
    pub adapter: AdapterKind,
    pub command: String,
    /// The command that shows whether the agent is installed.
    pub detect_command: Option<String>,
    /// What is added to the command for full access.
    pub full_access_startup_argument: Option<String>,
    pub active: bool,
}

pub struct DefinitionView {
    pub identity: Seq<char>,
    pub name: Seq<char>,
    pub short_name: Seq<char>,
    pub aliases: Seq<Seq<char>>,
    pub adapter: AdapterKind,
    pub command: Seq<char>,
    pub detect_command: Option<Seq<char>>,
    pub full_access_startup_argument: Option<Seq<char>>,
    pub active: bool,
}

impl View for AgentDefinition {
    type V = DefinitionView;

    open spec fn view(&self) -> DefinitionView {
        DefinitionView {
            identity: self.identity@,
            name: self.name@,
            short_name: self.short_name@,
            aliases: strings(self.aliases@),
            adapter: self.adapter,
            command: self.command@,
            detect_command: optional(self.detect_command),
            full_access_startup_argument: optional(self.full_access_startup_argument),
            active: self.active,
        }
    }
}

/// A place of a saved roster.
#[derive(Clone, Debug, Eq, PartialEq)]
pub struct RosterSlot {
    pub agent: String,
    pub model: Option<String>,
}

pub struct SlotView {
    pub agent: Seq<char>,
    pub model: Option<Seq<char>>,
}

impl View for RosterSlot {
    type V = SlotView;

    open spec fn view(&self) -> SlotView {
        SlotView { agent: self.agent@, model: optional(self.model) }
    }
}

/// The program that a command runs, as the command line parser of the host reads it.
#[derive(Clone, Debug, Eq, PartialEq)]
pub struct CommandProgram {
    pub command: String,
    pub program: Option<String>,
}

pub struct ProgramView {
    pub command: Seq<char>,
    pub program: Option<Seq<char>>,
}

impl View for CommandProgram {
    type V = ProgramView;

    open spec fn view(&self) -> ProgramView {
        ProgramView { command: self.command@, program: optional(self.program) }
    }
}

/// What is launched.
#[derive(Clone, Debug, Eq, PartialEq)]
pub enum Launch {
    Preview,
    Store,
    Agy { prompt: Option<String> },
    Acp { program: String, prompt: Option<String> },
    Roster(RosterLaunch),
}

/// A roster of agents that is launched.
#[derive(Clone, Debug, Eq, PartialEq)]
pub struct RosterLaunch {
    pub specs: Vec<AgentSpec>,
    pub identities: Vec<String>,
    pub models: Vec<Option<String>>,
    pub session_ids: Vec<Option<String>>,
    pub prompt: Option<String>,
    pub first_slot: usize,
    pub max_rounds: usize,
}

pub enum LaunchView {
    Preview,
    Store,
    Agy { prompt: Option<Seq<char>> },
    Acp { program: Seq<char>, prompt: Option<Seq<char>> },
    Roster(RosterLaunchView),
}

pub struct RosterLaunchView {
    pub specs: Seq<SpecView>,
    pub identities: Seq<Seq<char>>,
    pub models: Seq<Option<Seq<char>>>,
    pub session_ids: Seq<Option<Seq<char>>>,
    pub prompt: Option<Seq<char>>,
    pub first_slot: usize,
    pub max_rounds: usize,
}

/// The contents of a list of optional strings.
pub open spec fn optionals(values: Seq<Option<String>>) -> Seq<Option<Seq<char>>> {
    Seq::new(values.len(), |i: int| optional(values[i]))
}

impl View for RosterLaunch {
    type V = RosterLaunchView;

    open spec fn view(&self) -> RosterLaunchView {
        RosterLaunchView {
            specs: item_contents(self.specs@),
            identities: strings(self.identities@),
            models: optionals(self.models@),
            session_ids: optionals(self.session_ids@),
            prompt: optional(self.prompt),
            first_slot: self.first_slot,
            max_rounds: self.max_rounds,
        }
    }
}

impl View for Launch {
    type V = LaunchView;

    open spec fn view(&self) -> LaunchView {
        match self {
            Launch::Preview => LaunchView::Preview,
            Launch::Store => LaunchView::Store,
            Launch::Agy { prompt } => LaunchView::Agy { prompt: optional(*prompt) },
            Launch::Acp { program, prompt } => LaunchView::Acp {
                program: program@,
                prompt: optional(*prompt),
            },
            Launch::Roster(roster) => LaunchView::Roster(roster@),
        }
    }
}

/// The place of the first word that is `word`, or the length where there is none.
pub open spec fn place(words: Seq<Seq<char>>, word: Seq<char>) -> int
    decreases words.len(),
{
    if words.len() == 0 {
        0
    } else if words[0] == word {
        0
    } else {
        1 + place(words.drop_first(), word)
    }
}

fn place_of_word(words: &Vec<String>, word: &str) -> (index: usize)
    ensures
        index == place(strings(words@), word@),
        index <= words.len(),
        index < words.len() ==> words@[index as int]@ == word@,
{
    let mut i: usize = 0;
    assert(strings(words@).skip(0) =~= strings(words@));
    while i < words.len()
        invariant
            i <= words.len(),
            place(strings(words@), word@) == i + place(strings(words@).skip(i as int), word@),
        decreases words.len() - i,
    {
        if same(words[i].as_str(), word) {
            return i;
        }
        assert(strings(words@).skip(i as int).drop_first() =~= strings(words@).skip(i + 1));
        i = i + 1;
    }
    i
}

fn has_word(words: &Vec<String>, word: &str) -> (yes: bool)
    ensures
        yes == (place(strings(words@), word@) < words@.len()),
{
    place_of_word(words, word) < words.len()
}

/// Whether an argument is an option.
pub open spec fn is_option(argument: Seq<char>) -> bool {
    begins_with(argument, '-')
}

/// The arguments behind the first one.
fn without_first(arguments: &Vec<String>) -> (rest: Vec<String>)
    requires
        arguments.len() > 0,
    ensures
        strings(rest@) == strings(arguments@).skip(1),
{
    behind(arguments, 1)
}

fn behind(arguments: &Vec<String>, from: usize) -> (rest: Vec<String>)
    requires
        from <= arguments.len(),
    ensures
        strings(rest@) == strings(arguments@).skip(from as int),
{
    let mut rest: Vec<String> = Vec::new();
    add_from(&mut rest, arguments, from);
    assert(strings(rest@) =~= strings(arguments@).skip(from as int));
    rest
}

fn add_from(list: &mut Vec<String>, arguments: &Vec<String>, from: usize)
    requires
        from <= arguments.len(),
    ensures
        strings(final(list)@) == strings(old(list)@) + strings(arguments@).skip(from as int),
{
    let mut i: usize = from;
    let ghost before = strings(list@);
    assert(before =~= before + strings(arguments@).subrange(from as int, from as int));
    while i < arguments.len()
        invariant
            from <= i <= arguments.len(),
            strings(list@) == before + strings(arguments@).subrange(from as int, i as int),
        decreases arguments.len() - i,
    {
        list.push(arguments[i].clone());
        assert(strings(list@) =~= before + strings(arguments@).subrange(from as int, i + 1));
        i = i + 1;
    }
    assert(strings(arguments@).subrange(from as int, i as int) =~= strings(arguments@).skip(
        from as int,
    ));
}

/// The arguments without the spelling of the subcommand. `directory` says whether the
/// first argument is a directory.
pub open spec fn normalized(arguments: Seq<Seq<char>>, directory: bool) -> Seq<Seq<char>> {
    if arguments.len() == 0 {
        arguments
    } else if arguments[0] == "run"@ {
        arguments.skip(1)
    } else if arguments[0] == "acp"@ {
        if arguments.len() == 1 {
            seq!["--acp"@]
        } else if arguments.len() > 2 && !is_option(arguments[2]) {
            seq!["--acp"@, arguments[1], "--project-dir"@, arguments[2]] + arguments.skip(3)
        } else {
            seq!["--acp"@, arguments[1]] + arguments.skip(2)
        }
    } else if !is_option(arguments[0]) && directory {
        seq!["--project-dir"@] + arguments
    } else {
        arguments
    }
}

/// Whether an argument is written like a path.
pub open spec fn is_path_like(argument: Seq<char>, directory: bool) -> bool {
    directory || begins_with(argument, '/') || starts_with(argument, "./"@) || starts_with(
        argument,
        "../"@,
    ) || argument == "."@ || argument == ".."@
}

/// The arguments of a launch. `directory` says whether the first argument, behind a
/// leading `run`, is a directory.
pub open spec fn prepared(arguments: Seq<Seq<char>>, directory: bool) -> Seq<Seq<char>> {
    let plain = normalized(arguments, directory);
    if arguments.len() > 0 && arguments[0] == "run"@ && plain.len() > 0 && !is_option(plain[0])
        && is_path_like(plain[0], directory) {
        seq!["--project-dir"@] + plain
    } else {
        plain
    }
}

/// Whether the agents can work in a path; where it is no directory, why they cannot.
pub fn validate_project_directory(path: &str, directory: bool) -> (checked: Result<(), String>)
    ensures
        match checked {
            Ok(()) => directory,
            Err(reason) => !directory && reason@ == "Not a directory: "@ + path@,
        },
{
    if directory {
        Ok(())
    } else {
        let mut reason = to_chars("Not a directory: ");
        append_text(&mut reason, path);
        Err(to_text(&reason))
    }
}

/// The arguments in the flag-based form: `run` and `acp COMMAND [PATH]` are spellings of
/// it.
pub fn normalize_arguments(arguments: Vec<String>, directory: bool) -> (plain: Vec<String>)
    ensures
        strings(plain@) == normalized(strings(arguments@), directory),
{
    let ghost given = strings(arguments@);
    if arguments.len() == 0 {
        return arguments;
    }
    if same(arguments[0].as_str(), "run") {
        return without_first(&arguments);
    }
    if same(arguments[0].as_str(), "acp") {
        let mut plain: Vec<String> = Vec::new();
        plain.push("--acp".to_owned());
        if arguments.len() == 1 {
            assert(strings(plain@) =~= seq!["--acp"@]);
            return plain;
        }
        plain.push(arguments[1].clone());
        assert(strings(plain@) =~= seq!["--acp"@, given[1]]);
        if arguments.len() > 2 && !has_first(arguments[2].as_str(), '-') {
            // The positional argument of the subcommand is a workspace, not a prompt.
            plain.push("--project-dir".to_owned());
            plain.push(arguments[2].clone());
            assert(strings(plain@) =~= seq!["--acp"@, given[1], "--project-dir"@, given[2]]);
            add_from(&mut plain, &arguments, 3);
        } else {
            add_from(&mut plain, &arguments, 2);
        }
        return plain;
    }
    let mut arguments = arguments;
    normalize_default_project_path(&mut arguments, directory);
    arguments
}

/// A first argument that is a directory is the workspace.
pub fn normalize_default_project_path(arguments: &mut Vec<String>, directory: bool)
    ensures
        strings(final(arguments)@) == (if old(arguments)@.len() > 0 && !is_option(
            strings(old(arguments)@)[0],
        ) && directory {
            seq!["--project-dir"@] + strings(old(arguments)@)
        } else {
            strings(old(arguments)@)
        }),
{
    if arguments.len() > 0 && directory && !has_first(arguments[0].as_str(), '-') {
        let ghost given = strings(arguments@);
        let mut longer: Vec<String> = Vec::new();
        longer.push("--project-dir".to_owned());
        assert(strings(longer@) =~= seq!["--project-dir"@]);
        add_from(&mut longer, arguments, 0);
        assert(given.skip(0) =~= given);
        *arguments = longer;
    }
}

/// Whether an argument is written like a path.
pub fn looks_like_project_path(argument: &str, directory: bool) -> (yes: bool)
    ensures
        yes == is_path_like(argument@, directory),
{
    directory || has_first(argument, '/') || has_prefix(argument, "./") || has_prefix(
        argument,
        "../",
    ) || same(argument, ".") || same(argument, "..")
}

/// The arguments of a launch. Only behind an explicit `run` is a first argument that
/// merely looks like a path the workspace.
pub fn prepare_launch_arguments(arguments: Vec<String>, directory: bool) -> (plain: Vec<String>)
    ensures
        strings(plain@) == prepared(strings(arguments@), directory),
{
    let explicit = arguments.len() > 0 && same(arguments[0].as_str(), "run");
    let plain = normalize_arguments(arguments, directory);
    if explicit && plain.len() > 0 && !has_first(plain[0].as_str(), '-')
        && looks_like_project_path(plain[0].as_str(), directory) {
        let mut longer: Vec<String> = Vec::new();
        longer.push("--project-dir".to_owned());
        assert(strings(longer@) =~= seq!["--project-dir"@]);
        add_from(&mut longer, &plain, 0);
        assert(strings(plain@).skip(0) =~= strings(plain@));
        return longer;
    }
    plain
}

/// The workspace that the arguments name.
pub open spec fn named_project(arguments: Seq<Seq<char>>) -> Option<Seq<char>> {
    let at = place(arguments, "--project-dir"@);
    if at + 1 < arguments.len() {
        Some(arguments[at + 1])
    } else {
        None
    }
}

/// The workspace that the arguments name.
pub fn project_dir_argument(arguments: &Vec<String>) -> (path: Option<String>)
    ensures
        optional(path) == named_project(strings(arguments@)),
{
    let at: usize = place_of_word(arguments, "--project-dir");
    if at < arguments.len() && arguments.len() - at > 1 {
        Some(arguments[at + 1].clone())
    } else {
        None
    }
}

/// Whether an agent of the catalog goes by a name.
pub open spec fn goes_by(agent: DefinitionView, name: Seq<char>) -> bool {
    same_ignoring_case(agent.identity, name) || same_ignoring_case(agent.short_name, name)
        || has_alias(agent, name)
}

pub open spec fn has_alias(agent: DefinitionView, name: Seq<char>) -> bool {
    exists|i: int|
        0 <= i < agent.aliases.len() && same_ignoring_case(#[trigger] agent.aliases[i], name)
}

/// The first active agent that goes by a name, from a place on.
pub open spec fn agent_called(catalog: Seq<DefinitionView>, name: Seq<char>, i: int) -> Option<int>
    decreases catalog.len() - i,
{
    if i < 0 || i >= catalog.len() {
        None
    } else if catalog[i].active && goes_by(catalog[i], name) {
        Some(i)
    } else {
        agent_called(catalog, name, i + 1)
    }
}

/// The first active agent of an identity, from a place on.
pub open spec fn agent_with(catalog: Seq<DefinitionView>, identity: Seq<char>, i: int) -> Option<
    int,
>
    decreases catalog.len() - i,
{
    if i < 0 || i >= catalog.len() {
        None
    } else if catalog[i].active && same_ignoring_case(catalog[i].identity, identity) {
        Some(i)
    } else {
        agent_with(catalog, identity, i + 1)
    }
}

fn has_alias_of(agent: &AgentDefinition, name: &str) -> (yes: bool)
    ensures
        yes == has_alias(agent@, name@),
{
    let mut i: usize = 0;
    while i < agent.aliases.len()
        invariant
            i <= agent.aliases.len(),
            forall|j: int| 0 <= j < i ==> !same_ignoring_case(#[trigger] agent@.aliases[j], name@),
        decreases agent.aliases.len() - i,
    {
        if eq_ignore_case(agent.aliases[i].as_str(), name) {
            assert(same_ignoring_case(agent@.aliases[i as int], name@));
            return true;
        }
        i = i + 1;
    }
    false
}

fn find_called(catalog: &Vec<AgentDefinition>, name: &str) -> (index: Option<usize>)
    ensures
        match index {
            Some(i) => i < catalog.len() && agent_called(item_contents(catalog@), name@, 0)
                == Some(i as int),
            None => agent_called(item_contents(catalog@), name@, 0) is None,
        },
{
    let mut i: usize = 0;
    while i < catalog.len()
        invariant
            i <= catalog.len(),
            agent_called(item_contents(catalog@), name@, 0) == agent_called(
                item_contents(catalog@),
                name@,
                i as int,
            ),
        decreases catalog.len() - i,
    {
        let agent = &catalog[i];
        assert(item_contents(catalog@)[i as int] == agent@);
        if agent.active && (eq_ignore_case(agent.identity.as_str(), name) || eq_ignore_case(
            agent.short_name.as_str(),
            name,
        ) || has_alias_of(agent, name)) {
            return Some(i);
        }
        i = i + 1;
    }
    None
}

pub fn find_with(catalog: &Vec<AgentDefinition>, identity: &str) -> (index: Option<usize>)
    ensures
        match index {
            Some(i) => i < catalog.len() && agent_with(item_contents(catalog@), identity@, 0)
                == Some(i as int),
            None => agent_with(item_contents(catalog@), identity@, 0) is None,
        },
{
    let mut i: usize = 0;
    while i < catalog.len()
        invariant
            i <= catalog.len(),
            agent_with(item_contents(catalog@), identity@, 0) == agent_with(
                item_contents(catalog@),
                identity@,
                i as int,
            ),
        decreases catalog.len() - i,
    {
        let agent = &catalog[i];
        assert(item_contents(catalog@)[i as int] == agent@);
        if agent.active && eq_ignore_case(agent.identity.as_str(), identity) {
            return Some(i);
        }
        i = i + 1;
    }
    None
}

/// A character that a command line takes as it stands.
pub open spec fn needs_no_quotes(c: char) -> bool {
    is_alphanumeric(c) || c == '-' || c == '_' || c == '.' || c == '=' || c == '/' || c == ':' || c
        == '@'
}

/// An argument with each single quote written so that it can stand between quotes.
pub open spec fn escaped_quotes(argument: Seq<char>) -> Seq<char>
    decreases argument.len(),
{
    if argument.len() == 0 {
        Seq::empty()
    } else {
        escaped_quotes(argument.drop_last()) + (if argument.last() == '\'' {
            "'\\''"@
        } else {
            seq![argument.last()]
        })
    }
}

/// An argument as it is written on a command line.
pub open spec fn quoted(argument: Seq<char>) -> Seq<char> {
    if forall|i: int| 0 <= i < argument.len() ==> needs_no_quotes(#[trigger] argument[i]) {
        argument
    } else {
        seq!['\''] + escaped_quotes(argument) + seq!['\'']
    }
}

/// A command with one more argument. The command keeps its spelling, and only the
/// argument is quoted.
pub fn append_command_argument(command: &str, argument: &str) -> (longer: String)
    ensures
        longer@ == command@ + " "@ + quoted(argument@),
{
    let chars = to_chars(argument);
    let mut escaped: Vec<char> = Vec::new();
    let mut plain = true;
    let mut i: usize = 0;
    while i < chars.len()
        invariant
            i <= chars.len(),
            chars@ == argument@,
            plain == (forall|j: int| 0 <= j < i ==> needs_no_quotes(#[trigger] argument@[j])),
            escaped@ == escaped_quotes(argument@.take(i as int)),
        decreases chars.len() - i,
    {
        let c: char = chars[i];
        let fine = alphanumeric(c) || c == '-' || c == '_' || c == '.' || c == '=' || c == '/' || c
            == ':' || c == '@';
        assert(fine == needs_no_quotes(argument@[i as int]));
        plain = plain && fine;
        let ghost before = escaped@;
        if c == '\'' {
            append_text(&mut escaped, "'\\''");
        } else {
            escaped.push(c);
            assert(escaped@ =~= before + seq![c]);
        }
        assert(argument@.take(i + 1).drop_last() =~= argument@.take(i as int));
        i = i + 1;
    }
    assert(argument@.take(i as int) =~= argument@);
    let mut longer = to_chars(command);
    append_text(&mut longer, " ");
    if plain {
        append_chars(&mut longer, &chars);
    } else {
        let ghost before = longer@;
        longer.push('\'');
        append_chars(&mut longer, &escaped);
        longer.push('\'');
        assert(longer@ =~= before + quoted(argument@));
    }
    to_text(&longer)
}

/// How an agent of the catalog is started.
pub open spec fn spec_of(agent: DefinitionView) -> SpecView {
    let command = match agent.full_access_startup_argument {
        Some(argument) => if is_blank(argument) {
            agent.command
        } else {
            agent.command + " "@ + quoted(argument)
        },
        None => agent.command,
    };
    match agent.adapter {
        AdapterKind::Native => SpecView::Agy(command),
        AdapterKind::Acp => SpecView::Acp(command),
    }
}

/// How an agent of the catalog is started.
pub fn agent_spec(agent: &AgentDefinition) -> (spec: AgentSpec)
    ensures
        spec@ == spec_of(agent@),
{
    let command = match &agent.full_access_startup_argument {
        Some(argument) => {
            if blank(argument.as_str()) {
                agent.command.clone()
            } else {
                append_command_argument(agent.command.as_str(), argument.as_str())
            }
        },
        None => agent.command.clone(),
    };
    match agent.adapter {
        AdapterKind::Native => AgentSpec::Agy(command),
        AdapterKind::Acp => AgentSpec::Acp(command),
    }
}

/// What the arguments of a roster have said so far.
pub struct Gathered {
    pub specs: Seq<SpecView>,
    pub identities: Seq<Seq<char>>,
    pub prompt: Option<Seq<char>>,
    pub first_slot: nat,
    pub max_rounds: nat,
}

/// Nothing said: the first agent begins, and there are at most a hundred turns.
pub open spec fn nothing_gathered() -> Gathered {
    Gathered {
        specs: Seq::empty(),
        identities: Seq::empty(),
        prompt: None,
        first_slot: 0,
        max_rounds: 100,
    }
}

/// An argument that means the same for every roster, and how many arguments it takes.
pub open spec fn common_argument(words: Seq<Seq<char>>, i: int, so_far: Gathered) -> Option<
    (Gathered, int),
> {
    let word = words[i];
    if word == "--max-rounds"@ {
        if i + 1 < words.len() {
            match parse_number(words[i + 1], usize::MAX as nat) {
                Some(n) => if n == 0 {
                    None
                } else {
                    Some((Gathered { max_rounds: n, ..so_far }, 2))
                },
                None => None,
            }
        } else {
            None
        }
    } else if word == "--project-dir"@ {
        Some((so_far, 2))
    } else if !is_option(word) && so_far.prompt is None {
        Some((Gathered { prompt: Some(word), ..so_far }, 1))
    } else {
        None
    }
}

/// An argument of a launch by agent names, and how many arguments it takes.
pub open spec fn named_argument(
    words: Seq<Seq<char>>,
    catalog: Seq<DefinitionView>,
    i: int,
    so_far: Gathered,
) -> Option<(Gathered, int)> {
    let word = words[i];
    if word == "-a"@ || word == "--agent"@ {
        if i + 1 < words.len() {
            match agent_called(catalog, words[i + 1], 0) {
                Some(k) => Some(
                    (
                        Gathered {
                            specs: so_far.specs.push(spec_of(catalog[k])),
                            identities: so_far.identities.push(catalog[k].identity),
                            ..so_far
                        },
                        2,
                    ),
                ),
                None => None,
            }
        } else {
            None
        }
    } else if word == "--first-agent"@ {
        if i + 1 < words.len() {
            match parse_number(words[i + 1], usize::MAX as nat) {
                Some(n) => if n == 0 {
                    None
                } else {
                    Some((Gathered { first_slot: (n - 1) as nat, ..so_far }, 2))
                },
                None => None,
            }
        } else {
            None
        }
    } else {
        common_argument(words, i, so_far)
    }
}

/// What the arguments from a place on say.
pub open spec fn named_from(
    words: Seq<Seq<char>>,
    catalog: Seq<DefinitionView>,
    i: int,
    so_far: Gathered,
) -> Option<Gathered>
    decreases words.len() - i + 1,
{
    if i >= words.len() {
        Some(so_far)
    } else {
        match named_argument(words, catalog, i, so_far) {
            Some((next, taken)) => if taken == 1 {
                named_from(words, catalog, i + 1, next)
            } else {
                named_from(words, catalog, i + 2, next)
            },
            None => None,
        }
    }
}

/// An argument of a launch by commands, and how many arguments it takes.
pub open spec fn roster_argument(words: Seq<Seq<char>>, i: int, so_far: Gathered) -> Option<
    (Gathered, int),
> {
    let word = words[i];
    if word == "--roster"@ {
        if i + 1 < words.len() {
            match parsed_spec(words[i + 1]) {
                Some(spec) => Some((Gathered { specs: so_far.specs.push(spec), ..so_far }, 2)),
                None => None,
            }
        } else {
            None
        }
    } else if word == "--first"@ {
        if i + 1 < words.len() {
            match parse_number(words[i + 1], usize::MAX as nat) {
                Some(n) => Some((Gathered { first_slot: n, ..so_far }, 2)),
                None => None,
            }
        } else {
            None
        }
    } else if word == "--demo"@ {
        Some((so_far, 1))
    } else {
        common_argument(words, i, so_far)
    }
}

/// What the arguments from a place on say.
pub open spec fn roster_from(words: Seq<Seq<char>>, i: int, so_far: Gathered) -> Option<Gathered>
    decreases words.len() - i + 1,
{
    if i >= words.len() {
        Some(so_far)
    } else {
        match roster_argument(words, i, so_far) {
            Some((next, taken)) => if taken == 1 {
                roster_from(words, i + 1, next)
            } else {
                roster_from(words, i + 2, next)
            },
            None => None,
        }
    }
}

/// How an agent is started, as `KIND:COMMAND` says.
pub open spec fn parsed_spec(value: Seq<char>) -> Option<SpecView> {
    match split_once(value, ":"@) {
        Some((kind, command)) => if command.len() == 0 {
            None
        } else if lower(kind) == "agy"@ || lower(kind) == "native"@ {
            Some(SpecView::Agy(command))
        } else if lower(kind) == "acp"@ {
            Some(SpecView::Acp(command))
        } else {
            None
        },
        None => None,
    }
}

/// How an agent is started, as `KIND:COMMAND` says.
pub fn parse_agent_spec(value: &str) -> (spec: Option<AgentSpec>)
    ensures
        match spec {
            Some(found) => parsed_spec(value@) == Some(found@),
            None => parsed_spec(value@) is None,
        },
{
    match split_at_first(&to_chars(value), ":") {
        Some((kind, command)) => {
            if command.len() == 0 {
                return None;
            }
            let kind = to_lower(to_text(&kind).as_str());
            if same(kind.as_str(), "agy") || same(kind.as_str(), "native") {
                Some(AgentSpec::Agy(to_text(&command)))
            } else if same(kind.as_str(), "acp") {
                Some(AgentSpec::Acp(to_text(&command)))
            } else {
                None
            }
        },
        None => None,
    }
}

/// A roster as it is launched. The first agent must be one of the roster.
pub open spec fn gathered_launch(gathered: Gathered, identities: Seq<Seq<char>>) -> Option<
    LaunchView,
> {
    if gathered.specs.len() == 0 || gathered.first_slot >= gathered.specs.len() {
        None
    } else {
        Some(
            LaunchView::Roster(
                RosterLaunchView {
                    specs: gathered.specs,
                    identities,
                    models: Seq::empty(),
                    session_ids: Seq::empty(),
                    prompt: gathered.prompt,
                    first_slot: gathered.first_slot as usize,
                    max_rounds: gathered.max_rounds as usize,
                },
            ),
        )
    }
}

/// The launch that names agents of the catalog.
pub open spec fn named_launch(words: Seq<Seq<char>>, catalog: Seq<DefinitionView>) -> Option<
    LaunchView,
> {
    match named_from(words, catalog, 0, nothing_gathered()) {
        Some(gathered) => gathered_launch(gathered, gathered.identities),
        None => None,
    }
}

/// The program that a command runs, as the host reads it.
pub open spec fn program_of(programs: Seq<ProgramView>, command: Seq<char>) -> Option<Seq<char>>
    decreases programs.len(),
{
    if programs.len() == 0 {
        None
    } else if programs[0].command == command {
        match programs[0].program {
            Some(program) => Some(lower(program)),
            None => None,
        }
    } else {
        program_of(programs.drop_first(), command)
    }
}

/// Whether an agent of the catalog is the one that a command starts.
pub open spec fn started_by(
    agent: DefinitionView,
    command: Seq<char>,
    programs: Seq<ProgramView>,
) -> bool {
    ||| same_ignoring_case(trim(agent.command), command)
    ||| agent.detect_command matches Some(detect) && (same_ignoring_case(trim(detect), command)
        || program_of(programs, command) == program_of(programs, detect))
    ||| same_ignoring_case(agent.name, command)
    ||| same_ignoring_case(agent.short_name, command)
    ||| has_alias(agent, command)
}

/// The identity of the agent that a command starts, or the command itself.
pub open spec fn identity_of(
    command: Seq<char>,
    catalog: Seq<DefinitionView>,
    programs: Seq<ProgramView>,
    i: int,
) -> Seq<char>
    decreases catalog.len() - i,
{
    if i < 0 || i >= catalog.len() {
        trim(command)
    } else if started_by(catalog[i], trim(command), programs) {
        catalog[i].identity
    } else {
        identity_of(command, catalog, programs, i + 1)
    }
}

/// The launch that gives a command for each agent. It must come with a prompt.
pub open spec fn roster_launch(
    words: Seq<Seq<char>>,
    catalog: Seq<DefinitionView>,
    programs: Seq<ProgramView>,
) -> Option<LaunchView> {
    match roster_from(words, 0, nothing_gathered()) {
        Some(gathered) => if gathered.prompt is None {
            None
        } else {
            gathered_launch(
                gathered,
                Seq::new(
                    gathered.specs.len(),
                    |i: int| identity_of(command_of(gathered.specs[i]), catalog, programs, 0),
                ),
            )
        },
        None => None,
    }
}

/// The arguments without each workspace that they name, or nothing where a workspace is
/// announced and missing.
pub open spec fn without_projects(words: Seq<Seq<char>>) -> Option<Seq<Seq<char>>>
    decreases words.len(),
{
    let at = place(words, "--project-dir"@);
    if at >= words.len() || at < 0 {
        Some(words)
    } else if at + 1 >= words.len() {
        None
    } else {
        without_projects(words.take(at) + words.skip(at + 2))
    }
}

/// An argument, unless it is an option.
pub open spec fn value_at(words: Seq<Seq<char>>, i: int) -> Option<Seq<char>> {
    if i < words.len() && !is_option(words[i]) {
        Some(words[i])
    } else {
        None
    }
}

/// What arguments that name no workspace launch.
pub open spec fn plain_launch(
    words: Seq<Seq<char>>,
    catalog: Seq<DefinitionView>,
    programs: Seq<ProgramView>,
) -> Option<LaunchView> {
    let agy = place(words, "--agy"@);
    let acp = place(words, "--acp"@);
    if place(words, "--demo"@) < words.len() {
        Some(LaunchView::Preview)
    } else if place(words, "-a"@) < words.len() || place(words, "--agent"@) < words.len() {
        named_launch(words, catalog)
    } else if agy < words.len() {
        Some(LaunchView::Agy { prompt: value_at(words, agy + 1) })
    } else if place(words, "--roster"@) < words.len() {
        roster_launch(words, catalog, programs)
    } else if acp + 1 < words.len() {
        Some(LaunchView::Acp { program: words[acp + 1], prompt: value_at(words, acp + 2) })
    } else {
        None
    }
}

/// What arguments launch.
pub open spec fn launch_of(
    words: Seq<Seq<char>>,
    catalog: Seq<DefinitionView>,
    programs: Seq<ProgramView>,
) -> Option<LaunchView> {
    match without_projects(words) {
        Some(rest) => plain_launch(rest, catalog, programs),
        None => None,
    }
}

/// Naming a workspace in front of the arguments does not change what they launch.
pub proof fn law_workspace_is_not_for_the_agent(
    path: Seq<char>,
    words: Seq<Seq<char>>,
    catalog: Seq<DefinitionView>,
    programs: Seq<ProgramView>,
)
    ensures
        launch_of(seq!["--project-dir"@, path] + words, catalog, programs) == launch_of(
            words,
            catalog,
            programs,
        ),
{
    let longer = seq!["--project-dir"@, path] + words;
    assert(longer[0] == "--project-dir"@);
    assert(place(longer, "--project-dir"@) == 0);
    assert(longer.take(0) + longer.skip(2) =~= words);
}

/// What the arguments of a roster have said so far.
struct Gathering {
    specs: Vec<AgentSpec>,
    identities: Vec<String>,
    prompt: Option<String>,
    first_slot: usize,
    max_rounds: usize,
}

impl View for Gathering {
    type V = Gathered;

    closed spec fn view(&self) -> Gathered {
        Gathered {
            specs: item_contents(self.specs@),
            identities: strings(self.identities@),
            prompt: optional(self.prompt),
            first_slot: self.first_slot as nat,
            max_rounds: self.max_rounds as nat,
        }
    }
}

fn parse_size(text: &str) -> (number: Option<usize>)
    ensures
        match number {
            Some(n) => parse_number(text@, usize::MAX as nat) == Some(n as nat),
            None => parse_number(text@, usize::MAX as nat) is None,
        },
{
    match parse_u64(text, usize::MAX as u64) {
        Some(n) => Some(n as usize),
        None => None,
    }
}

impl Gathering {
    fn new() -> (gathering: Self)
        ensures
            gathering@ == nothing_gathered(),
    {
        let gathering = Gathering {
            specs: Vec::new(),
            identities: Vec::new(),
            prompt: None,
            first_slot: 0,
            max_rounds: 100,
        };
        assert(gathering@.specs =~= Seq::empty());
        assert(gathering@.identities =~= Seq::empty());
        gathering
    }

    fn common(&mut self, words: &Vec<String>, i: usize) -> (taken: Option<usize>)
        requires
            i < words.len(),
        ensures
            match taken {
                Some(n) => (n == 1 || n == 2) && common_argument(
                    strings(words@),
                    i as int,
                    old(self)@,
                ) == Some((final(self)@, n as int)),
                None => common_argument(strings(words@), i as int, old(self)@) is None,
            },
    {
        let word = words[i].as_str();
        assert(strings(words@)[i as int] == word@);
        if same(word, "--max-rounds") {
            if words.len() - i > 1 {
                match parse_size(words[i + 1].as_str()) {
                    Some(n) => {
                        if n == 0 {
                            return None;
                        }
                        self.max_rounds = n;
                        return Some(2);
                    },
                    None => {},
                }
            }
            return None;
        }
        if same(word, "--project-dir") {
            return Some(2);
        }
        if !has_first(word, '-') && self.prompt.is_none() {
            self.prompt = Some(word.to_owned());
            return Some(1);
        }
        None
    }

    fn named(&mut self, words: &Vec<String>, catalog: &Vec<AgentDefinition>, i: usize) -> (taken:
        Option<usize>)
        requires
            i < words.len(),
        ensures
            match taken {
                Some(n) => (n == 1 || n == 2) && named_argument(
                    strings(words@),
                    item_contents(catalog@),
                    i as int,
                    old(self)@,
                ) == Some((final(self)@, n as int)),
                None => named_argument(
                    strings(words@),
                    item_contents(catalog@),
                    i as int,
                    old(self)@,
                ) is None,
            },
    {
        let word = words[i].as_str();
        assert(strings(words@)[i as int] == word@);
        if same(word, "-a") || same(word, "--agent") {
            if words.len() - i > 1 {
                match find_called(catalog, words[i + 1].as_str()) {
                    Some(k) => {
                        assert(item_contents(catalog@)[k as int] == catalog@[k as int]@);
                        self.identities.push(catalog[k].identity.clone());
                        self.specs.push(agent_spec(&catalog[k]));
                        return Some(2);
                    },
                    None => {},
                }
            }
            return None;
        }
        if same(word, "--first-agent") {
            if words.len() - i > 1 {
                match parse_size(words[i + 1].as_str()) {
                    Some(n) => {
                        if n == 0 {
                            return None;
                        }
                        self.first_slot = n - 1;
                        return Some(2);
                    },
                    None => {},
                }
            }
            return None;
        }
        self.common(words, i)
    }

    fn commanded(&mut self, words: &Vec<String>, i: usize) -> (taken: Option<usize>)
        requires
            i < words.len(),
        ensures
            match taken {
                Some(n) => (n == 1 || n == 2) && roster_argument(
                    strings(words@),
                    i as int,
                    old(self)@,
                ) == Some((final(self)@, n as int)),
                None => roster_argument(strings(words@), i as int, old(self)@) is None,
            },
    {
        let word = words[i].as_str();
        assert(strings(words@)[i as int] == word@);
        if same(word, "--roster") {
            if words.len() - i > 1 {
                match parse_agent_spec(words[i + 1].as_str()) {
                    Some(spec) => {
                        self.specs.push(spec);
                        return Some(2);
                    },
                    None => {},
                }
            }
            return None;
        }
        if same(word, "--first") {
            if words.len() - i > 1 {
                match parse_size(words[i + 1].as_str()) {
                    Some(n) => {
                        self.first_slot = n;
                        return Some(2);
                    },
                    None => {},
                }
            }
            return None;
        }
        if same(word, "--demo") {
            return Some(1);
        }
        self.common(words, i)
    }

    fn into_launch(self, identities: Vec<String>) -> (launch: Option<Launch>)
        ensures
            match launch {
                Some(found) => gathered_launch(self@, strings(identities@)) == Some(found@),
                None => gathered_launch(self@, strings(identities@)) is None,
            },
    {
        if self.specs.len() == 0 || self.first_slot >= self.specs.len() {
            return None;
        }
        let launch = RosterLaunch {
            specs: self.specs,
            identities,
            models: Vec::new(),
            session_ids: Vec::new(),
            prompt: self.prompt,
            first_slot: self.first_slot,
            max_rounds: self.max_rounds,
        };
        assert(launch@.models =~= Seq::empty());
        assert(launch@.session_ids =~= Seq::empty());
        Some(Launch::Roster(launch))
    }
}

fn step_over(words: &Vec<String>, i: usize, taken: usize) -> (next: usize)
    requires
        i < words.len(),
        taken == 1 || taken == 2,
    ensures
        next == (if i + taken < words.len() {
            i + taken
        } else {
            words.len() as int
        }),
{
    if taken < words.len() - i {
        i + taken
    } else {
        words.len()
    }
}

/// The launch that names agents of the catalog.
pub fn parse_named_agent_launch(arguments: &Vec<String>, catalog: &Vec<AgentDefinition>) -> (launch:
    Option<Launch>)
    ensures
        match launch {
            Some(found) => named_launch(strings(arguments@), item_contents(catalog@)) == Some(
                found@,
            ),
            None => named_launch(strings(arguments@), item_contents(catalog@)) is None,
        },
{
    let mut gathering = Gathering::new();
    let mut i: usize = 0;
    while i < arguments.len()
        invariant
            i <= arguments.len(),
            named_from(strings(arguments@), item_contents(catalog@), 0, nothing_gathered())
                == named_from(
                strings(arguments@),
                item_contents(catalog@),
                i as int,
                gathering@,
            ),
        decreases arguments.len() - i,
    {
        match gathering.named(arguments, catalog, i) {
            Some(taken) => {
                let next: usize = step_over(arguments, i, taken);
                assert(named_from(
                    strings(arguments@),
                    item_contents(catalog@),
                    i + taken,
                    gathering@,
                ) == named_from(
                    strings(arguments@),
                    item_contents(catalog@),
                    next as int,
                    gathering@,
                ));
                i = next;
            },
            None => {
                return None;
            },
        }
    }
    let identities = copy_strings(&gathering.identities);
    gathering.into_launch(identities)
}

fn program_named(programs: &Vec<CommandProgram>, command: &str) -> (program: Option<String>)
    ensures
        optional(program) == program_of(item_contents(programs@), command@),
{
    let mut i: usize = 0;
    let ghost all = item_contents(programs@);
    assert(all.skip(0) =~= all);
    while i < programs.len()
        invariant
            i <= programs.len(),
            all == item_contents(programs@),
            program_of(all, command@) == program_of(all.skip(i as int), command@),
        decreases programs.len() - i,
    {
        assert(all.skip(i as int)[0] == programs@[i as int]@);
        if same(programs[i].command.as_str(), command) {
            return command_executable(&programs[i]);
        }
        assert(all.skip(i as int).drop_first() =~= all.skip(i + 1));
        i = i + 1;
    }
    None
}

/// The program of a command, in lower case.
pub fn command_executable(command: &CommandProgram) -> (program: Option<String>)
    ensures
        optional(program) == (match command@.program {
            Some(program) => Some(lower(program)),
            None => None,
        }),
{
    match &command.program {
        Some(program) => Some(to_lower(program.as_str())),
        None => None,
    }
}

fn is_started_by(
    agent: &AgentDefinition,
    command: &str,
    programs: &Vec<CommandProgram>,
) -> (yes: bool)
    ensures
        yes == started_by(agent@, command@, item_contents(programs@)),
{
    if eq_ignore_case(trimmed_text(agent.command.as_str()).as_str(), command) {
        return true;
    }
    match &agent.detect_command {
        Some(detect) => {
            if eq_ignore_case(trimmed_text(detect.as_str()).as_str(), command) {
                return true;
            }
            let own = program_named(programs, command);
            let theirs = program_named(programs, detect.as_str());
            if crate::events::same_optional(&own, &theirs) {
                return true;
            }
        },
        None => {},
    }
    eq_ignore_case(agent.name.as_str(), command) || eq_ignore_case(
        agent.short_name.as_str(),
        command,
    ) || has_alias_of(agent, command)
}

/// The identity of the agent that a command starts, or the command itself.
pub fn catalog_identity_for_command(
    command: &str,
    catalog: &Vec<AgentDefinition>,
    programs: &Vec<CommandProgram>,
) -> (identity: String)
    ensures
        identity@ == identity_of(command@, item_contents(catalog@), item_contents(programs@), 0),
{
    let plain = trimmed_text(command);
    let mut i: usize = 0;
    while i < catalog.len()
        invariant
            i <= catalog.len(),
            plain@ == trim(command@),
            identity_of(command@, item_contents(catalog@), item_contents(programs@), 0)
                == identity_of(
                command@,
                item_contents(catalog@),
                item_contents(programs@),
                i as int,
            ),
        decreases catalog.len() - i,
    {
        assert(item_contents(catalog@)[i as int] == catalog@[i as int]@);
        if is_started_by(&catalog[i], plain.as_str(), programs) {
            return catalog[i].identity.clone();
        }
        i = i + 1;
    }
    plain
}

/// The identity of the agent that is started.
pub fn agent_spec_identity(
    spec: &AgentSpec,
    catalog: &Vec<AgentDefinition>,
    programs: &Vec<CommandProgram>,
) -> (identity: String)
    ensures
        identity@ == identity_of(
            command_of(spec@),
            item_contents(catalog@),
            item_contents(programs@),
            0,
        ),
{
    catalog_identity_for_command(agent_spec_command(spec), catalog, programs)
}

/// The launch that gives a command for each agent.
pub fn parse_roster_launch(
    arguments: &Vec<String>,
    catalog: &Vec<AgentDefinition>,
    programs: &Vec<CommandProgram>,
) -> (launch: Option<Launch>)
    ensures
        match launch {
            Some(found) => roster_launch(
                strings(arguments@),
                item_contents(catalog@),
                item_contents(programs@),
            ) == Some(found@),
            None => roster_launch(
                strings(arguments@),
                item_contents(catalog@),
                item_contents(programs@),
            ) is None,
        },
{
    let mut gathering = Gathering::new();
    let mut i: usize = 0;
    while i < arguments.len()
        invariant
            i <= arguments.len(),
            roster_from(strings(arguments@), 0, nothing_gathered()) == roster_from(
                strings(arguments@),
                i as int,
                gathering@,
            ),
        decreases arguments.len() - i,
    {
        match gathering.commanded(arguments, i) {
            Some(taken) => {
                let next: usize = step_over(arguments, i, taken);
                assert(roster_from(strings(arguments@), i + taken, gathering@) == roster_from(
                    strings(arguments@),
                    next as int,
                    gathering@,
                ));
                i = next;
            },
            None => {
                return None;
            },
        }
    }
    if gathering.prompt.is_none() {
        return None;
    }
    let ghost wanted = Seq::new(
        gathering@.specs.len(),
        |k: int|
            identity_of(
                command_of(gathering@.specs[k]),
                item_contents(catalog@),
                item_contents(programs@),
                0,
            ),
    );
    let mut identities: Vec<String> = Vec::new();
    let mut k: usize = 0;
    assert(strings(identities@) =~= wanted.take(0));
    while k < gathering.specs.len()
        invariant
            k <= gathering.specs.len(),
            gathering@.specs == item_contents(gathering.specs@),
            wanted.len() == gathering@.specs.len(),
            forall|j: int|
                0 <= j < wanted.len() ==> #[trigger] wanted[j] == identity_of(
                    command_of(gathering@.specs[j]),
                    item_contents(catalog@),
                    item_contents(programs@),
                    0,
                ),
            strings(identities@) == wanted.take(k as int),
        decreases gathering.specs.len() - k,
    {
        identities.push(agent_spec_identity(&gathering.specs[k], catalog, programs));
        assert(gathering@.specs[k as int] == gathering.specs@[k as int]@);
        assert(strings(identities@) =~= wanted.take(k + 1));
        k = k + 1;
    }
    assert(wanted.take(k as int) =~= wanted);
    gathering.into_launch(identities)
}

fn argument_value(words: &Vec<String>, i: usize) -> (value: Option<String>)
    ensures
        optional(value) == value_at(strings(words@), i as int),
{
    if i < words.len() && !has_first(words[i].as_str(), '-') {
        Some(words[i].clone())
    } else {
        None
    }
}

fn parse_plain_launch(
    arguments: &Vec<String>,
    catalog: &Vec<AgentDefinition>,
    programs: &Vec<CommandProgram>,
) -> (launch: Option<Launch>)
    ensures
        match launch {
            Some(found) => plain_launch(
                strings(arguments@),
                item_contents(catalog@),
                item_contents(programs@),
            ) == Some(found@),
            None => plain_launch(
                strings(arguments@),
                item_contents(catalog@),
                item_contents(programs@),
            ) is None,
        },
{
    if has_word(arguments, "--demo") {
        return Some(Launch::Preview);
    }
    if has_word(arguments, "-a") || has_word(arguments, "--agent") {
        return parse_named_agent_launch(arguments, catalog);
    }
    let agy: usize = place_of_word(arguments, "--agy");
    if agy < arguments.len() {
        return Some(Launch::Agy { prompt: argument_value(arguments, agy + 1) });
    }
    if has_word(arguments, "--roster") {
        return parse_roster_launch(arguments, catalog, programs);
    }
    let acp: usize = place_of_word(arguments, "--acp");
    if acp < arguments.len() && arguments.len() - acp > 1 {
        let prompt = argument_value(arguments, acp + 2);
        return Some(Launch::Acp { program: arguments[acp + 1].clone(), prompt });
    }
    None
}

/// What arguments launch. The catalog is that of the settings, and `programs` tells what
/// program each of the commands runs.
pub fn parse_launch(
    arguments: &Vec<String>,
    catalog: &Vec<AgentDefinition>,
    programs: &Vec<CommandProgram>,
) -> (launch: Option<Launch>)
    ensures
        match launch {
            Some(found) => launch_of(
                strings(arguments@),
                item_contents(catalog@),
                item_contents(programs@),
            ) == Some(found@),
            None => launch_of(
                strings(arguments@),
                item_contents(catalog@),
                item_contents(programs@),
            ) is None,
        },
{
    let mut rest = copy_strings(arguments);
    let mut at: usize = place_of_word(&rest, "--project-dir");
    while at < rest.len()
        invariant
            at == place(strings(rest@), "--project-dir"@),
            without_projects(strings(arguments@)) == without_projects(strings(rest@)),
        decreases rest.len(),
    {
        if rest.len() - at <= 1 {
            return None;
        }
        let ghost words = strings(rest@);
        let mut shorter: Vec<String> = Vec::new();
        let mut i: usize = 0;
        assert(strings(shorter@) =~= words.take(0));
        while i < at
            invariant
                i <= at < rest.len(),
                words == strings(rest@),
                strings(shorter@) == words.take(i as int),
            decreases at - i,
        {
            shorter.push(rest[i].clone());
            assert(strings(shorter@) =~= words.take(i + 1));
            i = i + 1;
        }
        add_from(&mut shorter, &rest, at + 2);
        assert(shorter@.len() == strings(shorter@).len());
        assert(shorter@.len() < rest@.len());
        rest = shorter;
        at = place_of_word(&rest, "--project-dir");
    }
    parse_plain_launch(&rest, catalog, programs)
}

/// The launch of a saved roster: its agents as the catalog has them, or the store where
/// none is left.
pub open spec fn restored_launch(
    slots: Seq<SlotView>,
    catalog: Seq<DefinitionView>,
) -> LaunchView {
    let specs = specs_of(slots, catalog, slots.len() as int);
    if specs.len() == 0 {
        LaunchView::Store
    } else {
        LaunchView::Roster(
            RosterLaunchView {
                specs,
                identities: Seq::new(slots.len(), |i: int| slots[i].agent),
                models: Seq::new(slots.len(), |i: int| slots[i].model),
                session_ids: Seq::empty(),
                prompt: None,
                first_slot: 0,
                max_rounds: 100,
            },
        )
    }
}

/// How the agents of the first places are started, as far as the catalog has them.
pub open spec fn specs_of(slots: Seq<SlotView>, catalog: Seq<DefinitionView>, n: int) -> Seq<
    SpecView,
>
    decreases n,
{
    if n <= 0 {
        Seq::empty()
    } else {
        let before = specs_of(slots, catalog, n - 1);
        match agent_with(catalog, slots[n - 1].agent, 0) {
            Some(k) => before.push(spec_of(catalog[k])),
            None => before,
        }
    }
}

/// The launch without arguments, from the saved roster as the catalog resolves it.
pub fn bare_launch_from_settings(slots: &Vec<RosterSlot>, catalog: &Vec<AgentDefinition>) -> (launch:
    Launch)
    ensures
        launch@ == restored_launch(item_contents(slots@), item_contents(catalog@)),
{
    let ghost places = item_contents(slots@);
    let mut specs: Vec<AgentSpec> = Vec::new();
    let mut identities: Vec<String> = Vec::new();
    let mut models: Vec<Option<String>> = Vec::new();
    let mut i: usize = 0;
    assert(item_contents(specs@) =~= Seq::empty());
    while i < slots.len()
        invariant
            i <= slots.len(),
            places == item_contents(slots@),
            item_contents(specs@) == specs_of(places, item_contents(catalog@), i as int),
            identities.len() == i,
            models.len() == i,
            forall|j: int| 0 <= j < i ==> (#[trigger] identities@[j])@ == places[j].agent,
            forall|j: int| 0 <= j < i ==> optional(#[trigger] models@[j]) == places[j].model,
        decreases slots.len() - i,
    {
        assert(places[i as int] == slots@[i as int]@);
        match find_with(catalog, slots[i].agent.as_str()) {
            Some(k) => {
                assert(item_contents(catalog@)[k as int] == catalog@[k as int]@);
                specs.push(agent_spec(&catalog[k]));
            },
            None => {},
        }
        identities.push(slots[i].agent.clone());
        models.push(copy_optional(&slots[i].model));
        i = i + 1;
    }
    if specs.len() == 0 {
        return Launch::Store;
    }
    let launch = RosterLaunch {
        specs,
        identities,
        models,
        session_ids: Vec::new(),
        prompt: None,
        first_slot: 0,
        max_rounds: 100,
    };
    assert(launch@.identities =~= Seq::new(places.len(), |i: int| places[i].agent));
    assert(launch@.models =~= Seq::new(places.len(), |i: int| places[i].model));
    assert(launch@.session_ids =~= Seq::empty());
    Launch::Roster(launch)
}

/// Whether one of the arguments holds a text, without regard to case.
pub open spec fn some_holds(arguments: Seq<Seq<char>>, text: Seq<char>) -> bool {
    exists|i: int|
        0 <= i < arguments.len() && contains(lower(#[trigger] arguments[i]), text)
}

/// A program that is shown by a name of its own.
#[derive(Clone, Debug, Eq, PartialEq)]
pub struct FamiliarAgent {
    /// What the program is called, in lower case.
    pub programs: Vec<String>,
    /// What an argument holds where another program starts it, in lower case.
    pub package: Option<String>,
    pub name: String,
}

pub struct FamiliarView {
    pub programs: Seq<Seq<char>>,
    pub package: Option<Seq<char>>,
    pub name: Seq<char>,
}

impl View for FamiliarAgent {
    type V = FamiliarView;

    open spec fn view(&self) -> FamiliarView {
        FamiliarView {
            programs: strings(self.programs@),
            package: optional(self.package),
            name: self.name@,
        }
    }
}

/// A row of the table of familiar agents.
pub open spec fn familiar(
    programs: Seq<Seq<char>>,
    package: Option<Seq<char>>,
    name: Seq<char>,
) -> FamiliarView {
    FamiliarView { programs, package, name }
}

/// The programs that are always shown by names of their own.
pub open spec fn familiar_table() -> Seq<FamiliarView> {
    seq![
        familiar(seq!["codex"@, "codex-acp"@], Some("codex-acp"@), "Codex"@),
        familiar(seq!["qwen"@], None, "Qwen"@),
        familiar(seq!["gemini"@], None, "Gemini"@),
        familiar(seq!["agy"@, "antigravity"@], None, "Antigravity"@),
    ]
}

fn one_program(program: &str, name: &str) -> (row: FamiliarAgent)
    ensures
        row@ == familiar(seq![program@], None, name@),
{
    let programs = vec![program.to_owned()];
    assert(strings(programs@) =~= seq![program@]);
    FamiliarAgent { programs, package: None, name: name.to_owned() }
}

fn two_programs(first: &str, second: &str, package: Option<String>, name: &str) -> (row:
    FamiliarAgent)
    ensures
        row@ == familiar(seq![first@, second@], optional(package), name@),
{
    let programs = vec![first.to_owned(), second.to_owned()];
    assert(strings(programs@) =~= seq![first@, second@]);
    FamiliarAgent { programs, package, name: name.to_owned() }
}

/// The programs that are always shown by names of their own.
pub fn familiar_agents() -> (table: Vec<FamiliarAgent>)
    ensures
        item_contents(table@) == familiar_table(),
{
    let table = vec![
        two_programs("codex", "codex-acp", Some("codex-acp".to_owned()), "Codex"),
        one_program("qwen", "Qwen"),
        one_program("gemini", "Gemini"),
        two_programs("agy", "antigravity", None, "Antigravity"),
    ];
    assert(item_contents(table@) =~= familiar_table());
    table
}

/// Whether a command starts a program that is shown by a name of its own.
pub open spec fn starts_familiar(
    agent: FamiliarView,
    executable: Seq<char>,
    arguments: Seq<Seq<char>>,
) -> bool {
    agent.programs.contains(executable) || (agent.package matches Some(package) && some_holds(
        arguments,
        package,
    ))
}

/// The name of the first of the familiar agents that a command starts, and else the
/// program.
pub open spec fn familiar_name(
    familiar: Seq<FamiliarView>,
    executable: Seq<char>,
    arguments: Seq<Seq<char>>,
) -> Seq<char>
    decreases familiar.len(),
{
    if familiar.len() == 0 {
        executable
    } else if starts_familiar(familiar[0], executable, arguments) {
        familiar[0].name
    } else {
        familiar_name(familiar.drop_first(), executable, arguments)
    }
}

/// Whether a command starts one of some familiar agents.
pub open spec fn known_to(
    familiar: Seq<FamiliarView>,
    executable: Seq<char>,
    arguments: Seq<Seq<char>>,
) -> bool
    decreases familiar.len(),
{
    familiar.len() > 0 && (starts_familiar(familiar[0], executable, arguments) || known_to(
        familiar.drop_first(),
        executable,
        arguments,
    ))
}

/// The name of the agent behind a program and its arguments.
pub open spec fn display_name(
    program: Seq<char>,
    arguments: Seq<Seq<char>>,
    familiar: Seq<FamiliarView>,
) -> Seq<char> {
    familiar_name(
        familiar,
        lower(
            match entry_name(program) {
                Some(name) => name,
                None => program,
            },
        ),
        arguments,
    )
}

fn one_holds(arguments: &Vec<String>, text: &str) -> (yes: bool)
    ensures
        yes == some_holds(strings(arguments@), text@),
{
    let mut i: usize = 0;
    while i < arguments.len()
        invariant
            i <= arguments.len(),
            forall|j: int|
                0 <= j < i ==> !contains(lower(#[trigger] strings(arguments@)[j]), text@),
        decreases arguments.len() - i,
    {
        if has_part(to_lower(arguments[i].as_str()).as_str(), text) {
            assert(contains(lower(strings(arguments@)[i as int]), text@));
            return true;
        }
        i = i + 1;
    }
    false
}

fn is_started(agent: &FamiliarAgent, executable: &str, arguments: &Vec<String>) -> (yes: bool)
    ensures
        yes == starts_familiar(agent@, executable@, strings(arguments@)),
{
    let mut i: usize = 0;
    while i < agent.programs.len()
        invariant
            i <= agent.programs.len(),
            forall|j: int| 0 <= j < i ==> #[trigger] strings(agent.programs@)[j] != executable@,
        decreases agent.programs.len() - i,
    {
        if same(agent.programs[i].as_str(), executable) {
            assert(strings(agent.programs@)[i as int] == executable@);
            return true;
        }
        i = i + 1;
    }
    match &agent.package {
        Some(package) => one_holds(arguments, package.as_str()),
        None => false,
    }
}

/// A program that none of the rows knows is passed on to the rows behind them.
proof fn lemma_rows_behind(
    rows: Seq<FamiliarView>,
    behind: Seq<FamiliarView>,
    executable: Seq<char>,
    arguments: Seq<Seq<char>>,
)
    ensures
        familiar_name(rows + behind, executable, arguments) == (if known_to(
            rows,
            executable,
            arguments,
        ) {
            familiar_name(rows, executable, arguments)
        } else {
            familiar_name(behind, executable, arguments)
        }),
    decreases rows.len(),
{
    if rows.len() == 0 {
        assert(rows + behind =~= behind);
    } else {
        assert((rows + behind).drop_first() =~= rows.drop_first() + behind);
        assert((rows + behind)[0] == rows[0]);
        lemma_rows_behind(rows.drop_first(), behind, executable, arguments);
    }
}

fn shown_name(
    executable: &str,
    arguments: &Vec<String>,
    familiar: &Vec<FamiliarAgent>,
) -> (name: Option<String>)
    ensures
        match name {
            Some(found) => known_to(item_contents(familiar@), executable@, strings(arguments@))
                && found@ == familiar_name(
                item_contents(familiar@),
                executable@,
                strings(arguments@),
            ),
            None => !known_to(item_contents(familiar@), executable@, strings(arguments@)),
        },
{
    let ghost known = item_contents(familiar@);
    let mut i: usize = 0;
    assert(known.skip(0) =~= known);
    while i < familiar.len()
        invariant
            i <= familiar.len(),
            known == item_contents(familiar@),
            known_to(known, executable@, strings(arguments@)) == known_to(
                known.skip(i as int),
                executable@,
                strings(arguments@),
            ),
            familiar_name(known, executable@, strings(arguments@)) == familiar_name(
                known.skip(i as int),
                executable@,
                strings(arguments@),
            ),
        decreases familiar.len() - i,
    {
        assert(known.skip(i as int)[0] == familiar@[i as int]@);
        assert(known.skip(i as int).drop_first() =~= known.skip(i + 1));
        if is_started(&familiar[i], executable, arguments) {
            return Some(familiar[i].name.clone());
        }
        i = i + 1;
    }
    None
}

/// The name of an agent, from its command as the host reads it: a program and its
/// arguments, or nothing where the command cannot be read. The familiar agents are shown
/// by their names: those that the person named, and then those of the table.
pub fn display_agent_name(
    command: &Option<(String, Vec<String>)>,
    named: &Vec<FamiliarAgent>,
) -> (name: String)
    ensures
        name@ == (match command {
            Some((program, arguments)) => display_name(
                program@,
                strings(arguments@),
                item_contents(named@) + familiar_table(),
            ),
            None => "Agent"@,
        }),
{
    match command {
        Some((program, arguments)) => {
            let executable = match file_name(program.as_str()) {
                Some(name) => to_lower(name.as_str()),
                None => to_lower(program.as_str()),
            };
            proof {
                lemma_rows_behind(
                    item_contents(named@),
                    familiar_table(),
                    executable@,
                    strings(arguments@),
                );
            }
            if let Some(name) = shown_name(executable.as_str(), arguments, named) {
                return name;
            }
            match shown_name(executable.as_str(), arguments, &familiar_agents()) {
                Some(name) => name,
                None => {
                    proof {
                        lemma_rows_behind(
                            familiar_table(),
                            Seq::empty(),
                            executable@,
                            strings(arguments@),
                        );
                        assert(familiar_table() + Seq::<FamiliarView>::empty()
                            =~= familiar_table());
                    }
                    executable
                },
            }
        },
        None => "Agent".to_owned(),
    }
}

/// What the arguments of the program ask for.
#[derive(Clone, Debug, Eq, PartialEq)]
pub enum Request {
    /// The arguments of `resume` are wrong.
    ResumeUsage,
    Help,
    Version,
    /// To resume the session of the workspace, or to launch with the arguments.
    Start { resume: bool, arguments: Vec<String> },
}

pub enum AskView {
    ResumeUsage,
    Help,
    Version,
    Start { resume: bool, arguments: Seq<Seq<char>> },
}

impl View for Request {
    type V = AskView;

    open spec fn view(&self) -> AskView {
        match self {
            Request::ResumeUsage => AskView::ResumeUsage,
            Request::Help => AskView::Help,
            Request::Version => AskView::Version,
            Request::Start { resume, arguments } => AskView::Start {
                resume: *resume,
                arguments: strings(arguments@),
            },
        }
    }
}

pub open spec fn has(words: Seq<Seq<char>>, word: Seq<char>) -> bool {
    place(words, word) < words.len()
}

/// What arguments ask for. Help comes before the version.
pub open spec fn asked(resume: bool, arguments: Seq<Seq<char>>) -> AskView {
    if has(arguments, "-h"@) || has(arguments, "--help"@) {
        AskView::Help
    } else if has(arguments, "-v"@) || has(arguments, "--version"@) {
        AskView::Version
    } else {
        AskView::Start { resume, arguments }
    }
}

/// What the arguments of the program ask for.
pub open spec fn request_of(arguments: Seq<Seq<char>>, directory: bool) -> AskView {
    if arguments.len() > 0 && arguments[0] == "resume"@ {
        if arguments.len() == 1 {
            asked(true, Seq::empty())
        } else if arguments.len() == 2 {
            asked(true, seq!["--project-dir"@, arguments[1]])
        } else {
            AskView::ResumeUsage
        }
    } else {
        asked(false, prepared(arguments, directory))
    }
}

fn ask(resume: bool, arguments: Vec<String>) -> (request: Request)
    ensures
        request@ == asked(resume, strings(arguments@)),
{
    if has_word(&arguments, "-h") || has_word(&arguments, "--help") {
        Request::Help
    } else if has_word(&arguments, "-v") || has_word(&arguments, "--version") {
        Request::Version
    } else {
        Request::Start { resume, arguments }
    }
}

/// What the arguments of the program ask for. `directory` says whether the first
/// argument, behind a leading `run`, is a directory.
pub fn read_request(arguments: Vec<String>, directory: bool) -> (request: Request)
    ensures
        request@ == request_of(strings(arguments@), directory),
{
    if arguments.len() > 0 && same(arguments[0].as_str(), "resume") {
        let mut rest: Vec<String> = Vec::new();
        if arguments.len() == 1 {
            assert(strings(rest@) =~= Seq::empty());
            return ask(true, rest);
        }
        if arguments.len() == 2 {
            rest.push("--project-dir".to_owned());
            rest.push(arguments[1].clone());
            assert(strings(rest@) =~= seq!["--project-dir"@, strings(arguments@)[1]]);
            return ask(true, rest);
        }
        return Request::ResumeUsage;
    }
    ask(false, prepare_launch_arguments(arguments, directory))
}

/// Whether arguments that launch nothing by themselves open what was saved: there are
/// none, or they only name the workspace.
pub open spec fn is_bare(arguments: Seq<Seq<char>>, directory: bool) -> bool {
    arguments.len() == 0 || (arguments.len() == 2 && arguments[0] == "--project-dir"@) || (
    arguments.len() == 1 && !is_option(arguments[0]) && directory)
}

/// Whether arguments that launch nothing by themselves open what was saved.
pub fn opens_saved(arguments: &Vec<String>, directory: bool) -> (yes: bool)
    ensures
        yes == is_bare(strings(arguments@), directory),
{
    arguments.len() == 0 || (arguments.len() == 2 && same(arguments[0].as_str(), "--project-dir"))
        || (arguments.len() == 1 && directory && !has_first(arguments[0].as_str(), '-'))
}

} // verus!
