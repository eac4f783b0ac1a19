//! Saved sessions: what was saved of the agents, and how they are launched again.

use crate::json::{
    field, field_place, fields_of, fields_view, flag_in, json_view, lemma_fields_view,
    lemma_list_view, list_in, list_view, text_in, Json, JsonView,
};
use crate::launch::{
    agent_spec, agent_with, find_with, optionals, quoted, spec_of, AdapterKind, AgentDefinition,
    AgentSpec, DefinitionView, Launch, LaunchView, RosterLaunch, RosterLaunchView, SpecView,
};
use crate::order::{item_contents, lemma_item_contents_push};
use crate::text::{
    append_text, blank, eq_ignore_case, is_blank, lemma_strings_push, lower, optional, same,
    same_ignoring_case, strings, to_chars, to_lower, to_text,
};
use vstd::prelude::*;

verus! {

broadcast use {lemma_item_contents_push, lemma_strings_push};

/// What a result holds.
pub open spec fn outcome<T: View>(result: Result<T, String>) -> Result<T::V, Seq<char>> {
    match result {
        Ok(value) => Ok(value@),
        Err(message) => Err(message@),
    }
}

/// The agents of a saved session.
pub open spec fn saved_agents(metadata: JsonView) -> Option<Seq<JsonView>> {
    list_in(field(metadata, "agents"@))
}

/// How a saved agent is started: as the catalog has it, or else as it was saved.
pub open spec fn saved_spec(agent: JsonView, catalog: Seq<DefinitionView>) -> Result<
    SpecView,
    Seq<char>,
> {
    match text_in(field(agent, "identity"@)) {
        None => Err("Saved agent identity is invalid"@),
        Some(identity) => match agent_with(catalog, identity, 0) {
            Some(k) => Ok(spec_of(catalog[k])),
            None => match text_in(field(agent, "protocol"@)) {
                None => Err("Saved agent protocol is invalid"@),
                Some(protocol) => match text_in(field(agent, "command"@)) {
                    None => Err("Saved agent command is invalid"@),
                    Some(command) => if is_blank(command) {
                        Err("Saved agent command is invalid"@)
                    } else if lower(protocol) == "native"@ || lower(protocol) == "agy"@ {
                        Ok(SpecView::Agy(command))
                    } else if lower(protocol) == "acp"@ {
                        Ok(SpecView::Acp(command))
                    } else {
                        Err("Saved agent protocol is unsupported: "@ + protocol)
                    },
                },
            },
        },
    }
}

/// How the first saved agents are started, or the first reason why one is not.
pub open spec fn saved_specs(agents: Seq<JsonView>, catalog: Seq<DefinitionView>, n: int) -> Result<
    Seq<SpecView>,
    Seq<char>,
>
    decreases n,
{
    if n <= 0 {
        Ok(Seq::empty())
    } else {
        match saved_specs(agents, catalog, n - 1) {
            Err(message) => Err(message),
            Ok(before) => match saved_spec(agents[n - 1], catalog) {
                Err(message) => Err(message),
                Ok(spec) => Ok(before.push(spec)),
            },
        }
    }
}

/// Whether each saved agent has an identity.
pub open spec fn all_identified(agents: Seq<JsonView>) -> bool {
    forall|i: int|
        0 <= i < agents.len() ==> text_in(field(#[trigger] agents[i], "identity"@)) is Some
}

/// The handle by which a saved agent takes up its session.
pub open spec fn saved_handle(agent: JsonView) -> Option<Seq<char>> {
    if flag_in(field(agent, "supports_load_session"@)) == Some(true) {
        text_in(field(agent, "session_id"@))
    } else {
        None
    }
}

/// The launch that takes up a saved session. `stored` is the place that the saved
/// workspace leads to, and `cwd` the one that this workspace leads to.
pub open spec fn resumed(
    metadata: JsonView,
    stored: Seq<char>,
    cwd: Seq<char>,
    catalog: Seq<DefinitionView>,
) -> Result<LaunchView, Seq<char>> {
    if text_in(field(metadata, "cwd"@)) is None {
        Err("Saved session has no workspace"@)
    } else if stored != cwd {
        Err("No resumable CodeSwarm session for this project"@)
    } else {
        match saved_agents(metadata) {
            None => Err("Saved session has no agents"@),
            Some(agents) => if agents.len() == 0 {
                Err("Saved session has no active agents"@)
            } else if !all_identified(agents) {
                Err("Saved agent identity is invalid"@)
            } else {
                match saved_specs(agents, catalog, agents.len() as int) {
                    Err(message) => Err(message),
                    Ok(specs) => if forall|i: int|
                        0 <= i < agents.len() ==> saved_handle(#[trigger] agents[i]) is None {
                        Err("The previous agents did not provide a resumable session"@)
                    } else {
                        Ok(resumed_roster(agents, specs))
                    },
                }
            },
        }
    }
}

/// The roster of a session that is taken up.
pub open spec fn resumed_roster(agents: Seq<JsonView>, specs: Seq<SpecView>) -> LaunchView {
    LaunchView::Roster(
        RosterLaunchView {
            specs,
            identities: Seq::new(
                agents.len(),
                |i: int| text_in(field(agents[i], "identity"@))->0,
            ),
            models: Seq::empty(),
            session_ids: Seq::new(agents.len(), |i: int| saved_handle(agents[i])),
            prompt: None,
            first_slot: 0,
            max_rounds: 100,
        },
    )
}

/// A session that is taken up belongs to this workspace, and at least one of its agents
/// has a handle to take it up by.
pub proof fn law_resumed_sessions_have_a_handle(
    metadata: JsonView,
    stored: Seq<char>,
    cwd: Seq<char>,
    catalog: Seq<DefinitionView>,
)
    requires
        resumed(metadata, stored, cwd, catalog) is Ok,
    ensures
        stored == cwd,
        resumed(metadata, stored, cwd, catalog)->Ok_0 matches LaunchView::Roster(roster)
            && exists|i: int|
            0 <= i < roster.session_ids.len() && #[trigger] roster.session_ids[i] is Some,
{
    let agents = saved_agents(metadata)->0;
    let i = choose|i: int| 0 <= i < agents.len() && saved_handle(#[trigger] agents[i]) is Some;
    let launch = resumed(metadata, stored, cwd, catalog)->Ok_0;
    match launch {
        LaunchView::Roster(roster) => {
            assert(roster.session_ids[i] is Some);
        },
        _ => {},
    }
}

/// The specs of saved agents, each as its own agent has it.
proof fn lemma_saved_specs(agents: Seq<JsonView>, catalog: Seq<DefinitionView>, n: int)
    requires
        0 <= n <= agents.len(),
    ensures
        saved_specs(agents, catalog, n) matches Ok(specs) ==> specs.len() == n && forall|i: int|
            0 <= i < n ==> saved_spec(#[trigger] agents[i], catalog) == Ok::<SpecView, Seq<char>>(
                specs[i],
            ),
        saved_specs(agents, catalog, n) is Err ==> exists|i: int|
            0 <= i < n && saved_spec(#[trigger] agents[i], catalog) is Err,
    decreases n,
{
    if n > 0 {
        lemma_saved_specs(agents, catalog, n - 1);
        match saved_specs(agents, catalog, n - 1) {
            Ok(before) => {
                if saved_spec(agents[n - 1], catalog) is Ok {
                    let specs = saved_specs(agents, catalog, n)->Ok_0;
                    assert forall|i: int| 0 <= i < n implies saved_spec(#[trigger] agents[i], catalog)
                        == Ok::<SpecView, Seq<char>>(specs[i]) by {
                        if i < n - 1 {
                            assert(specs[i] == before[i]);
                        }
                    }
                }
            },
            Err(message) => {},
        }
    }
}

/// The command that an agent of the catalog is started with: its own, and behind it the
/// argument that gives it full access, where it has one.
pub open spec fn started_as(spec: SpecView, agent: DefinitionView) -> bool {
    let command = match spec {
        SpecView::Acp(command) => command,
        SpecView::Agy(command) => command,
    };
    &&& spec is Acp <==> agent.adapter == AdapterKind::Acp
    &&& command.len() >= agent.command.len()
    &&& command.take(agent.command.len() as int) == agent.command
    &&& agent.full_access_startup_argument is None ==> command == agent.command
}

/// Each agent of a session that is taken up is started as itself: there is one spec, one
/// identity and one handle for each agent that was saved, in their order. The spec is that
/// of the first active agent of the catalog with the saved identity, or else the protocol
/// and the command that were saved with the agent.
pub proof fn law_every_saved_agent_comes_back_as_itself(
    metadata: JsonView,
    stored: Seq<char>,
    cwd: Seq<char>,
    catalog: Seq<DefinitionView>,
    agents: Seq<JsonView>,
    i: int,
)
    requires
        resumed(metadata, stored, cwd, catalog) is Ok,
        list_in(field(metadata, "agents"@)) == Some(agents),
        0 <= i < agents.len(),
    ensures
        resumed(metadata, stored, cwd, catalog)->Ok_0 matches LaunchView::Roster(roster) && {
            let identity = text_in(field(agents[i], "identity"@));
            let protocol = text_in(field(agents[i], "protocol"@));
            let command = text_in(field(agents[i], "command"@));
            &&& roster.specs.len() == agents.len()
            &&& roster.identities.len() == agents.len()
            &&& roster.session_ids.len() == agents.len()
            &&& identity == Some(roster.identities[i])
            &&& flag_in(field(agents[i], "supports_load_session"@)) == Some(true)
                ==> roster.session_ids[i] == text_in(field(agents[i], "session_id"@))
            &&& flag_in(field(agents[i], "supports_load_session"@)) != Some(true)
                ==> roster.session_ids[i] is None
            &&& forall|k: int|
                0 <= k < catalog.len() && (#[trigger] catalog[k]).active && same_ignoring_case(
                    catalog[k].identity,
                    roster.identities[i],
                ) && (forall|j: int|
                    0 <= j < k ==> !((#[trigger] catalog[j]).active && same_ignoring_case(
                        catalog[j].identity,
                        roster.identities[i],
                    ))) ==> started_as(roster.specs[i], catalog[k])
            &&& (forall|k: int|
                0 <= k < catalog.len() ==> !((#[trigger] catalog[k]).active && same_ignoring_case(
                    catalog[k].identity,
                    roster.identities[i],
                ))) ==> command is Some && (roster.specs[i] == SpecView::Acp(command->0)
                && protocol is Some && same_ignoring_case(protocol->0, "acp"@) || roster.specs[i]
                == SpecView::Agy(command->0) && protocol is Some && (same_ignoring_case(
                protocol->0,
                "native"@,
            ) || same_ignoring_case(protocol->0, "agy"@)))
        },
{
    lemma_saved_specs(agents, catalog, agents.len() as int);
    let identity = text_in(field(agents[i], "identity"@))->0;
    let specs = saved_specs(agents, catalog, agents.len() as int)->Ok_0;
    assert(saved_spec(agents[i], catalog) == Ok::<SpecView, Seq<char>>(specs[i]));
    lemma_agent_with(catalog, identity, 0);
    reveal_strlit("acp");
    reveal_strlit("native");
    reveal_strlit("agy");
    assert(lower("acp"@) =~= "acp"@);
    assert(lower("native"@) =~= "native"@);
    assert(lower("agy"@) =~= "agy"@);
    match agent_with(catalog, identity, 0) {
        Some(k) => {
            lemma_started_as(catalog[k]);
            assert(started_as(specs[i], catalog[k]));
        },
        None => {},
    }
}

pub proof fn lemma_started_as(agent: DefinitionView)
    ensures
        started_as(spec_of(agent), agent),
{
    let command = agent.command;
    assert(command.take(command.len() as int) =~= command);
    match agent.full_access_startup_argument {
        Some(argument) => {
            let whole = command + " "@ + quoted(argument);
            assert(whole.take(command.len() as int) =~= command);
        },
        None => {},
    }
}

pub proof fn lemma_agent_with(catalog: Seq<DefinitionView>, identity: Seq<char>, from: int)
    requires
        0 <= from,
    ensures
        match agent_with(catalog, identity, from) {
            Some(k) => from <= k < catalog.len() && catalog[k].active && same_ignoring_case(
                catalog[k].identity,
                identity,
            ) && forall|j: int|
                from <= j < k ==> !((#[trigger] catalog[j]).active && same_ignoring_case(
                    catalog[j].identity,
                    identity,
                )),
            None => forall|j: int|
                from <= j < catalog.len() ==> !((#[trigger] catalog[j]).active
                    && same_ignoring_case(catalog[j].identity, identity)),
        },
    decreases catalog.len() - from,
{
    if from < catalog.len() {
        lemma_agent_with(catalog, identity, from + 1);
    }
}

fn read_spec(agent: &Json, catalog: &Vec<AgentDefinition>) -> (spec: Result<AgentSpec, String>)
    ensures
        outcome(spec) == saved_spec(agent@, item_contents(catalog@)),
{
    let identity = match agent.text_field("identity") {
        Some(identity) => identity,
        None => {
            return Err("Saved agent identity is invalid".to_owned());
        },
    };
    match find_with(catalog, identity) {
        Some(k) => {
            assert(item_contents(catalog@)[k as int] == catalog@[k as int]@);
            return Ok(agent_spec(&catalog[k]));
        },
        None => {},
    }
    let protocol = match agent.text_field("protocol") {
        Some(protocol) => protocol,
        None => {
            return Err("Saved agent protocol is invalid".to_owned());
        },
    };
    let command = match agent.text_field("command") {
        Some(command) => command,
        None => {
            return Err("Saved agent command is invalid".to_owned());
        },
    };
    if blank(command) {
        return Err("Saved agent command is invalid".to_owned());
    }
    let kind = to_lower(protocol);
    if same(kind.as_str(), "native") || same(kind.as_str(), "agy") {
        Ok(AgentSpec::Agy(command.to_owned()))
    } else if same(kind.as_str(), "acp") {
        Ok(AgentSpec::Acp(command.to_owned()))
    } else {
        let mut message = to_chars("Saved agent protocol is unsupported: ");
        append_text(&mut message, protocol);
        Err(to_text(&message))
    }
}

fn read_handle(agent: &Json) -> (handle: Option<String>)
    ensures
        optional(handle) == saved_handle(agent@),
{
    match agent.flag_field("supports_load_session") {
        Some(true) => match agent.text_field("session_id") {
            Some(id) => Some(id.to_owned()),
            None => None,
        },
        _ => None,
    }
}

fn read_identities(agents: &Vec<Json>) -> (identities: Option<Vec<String>>)
    ensures
        match identities {
            Some(list) => all_identified(list_view(agents@)) && strings(list@) == Seq::new(
                list_view(agents@).len(),
                |i: int| text_in(field(list_view(agents@)[i], "identity"@))->0,
            ),
            None => !all_identified(list_view(agents@)),
        },
{
    let ghost all = list_view(agents@);
    proof {
        lemma_list_view(agents@);
    }
    let mut list: Vec<String> = Vec::new();
    let mut i: usize = 0;
    while i < agents.len()
        invariant
            i <= agents.len(),
            list.len() == i,
            all == list_view(agents@),
            all == Seq::new(agents@.len(), |k: int| json_view(agents@[k])),
            forall|k: int|
                0 <= k < i ==> text_in(field(#[trigger] all[k], "identity"@)) == Some(list@[k]@),
        decreases agents.len() - i,
    {
        assert(all[i as int] == agents@[i as int]@);
        match agents[i].text_field("identity") {
            Some(identity) => {
                list.push(identity.to_owned());
            },
            None => {
                return None;
            },
        }
        i = i + 1;
    }
    assert(strings(list@) =~= Seq::new(
        all.len(),
        |i: int| text_in(field(all[i], "identity"@))->0,
    ));
    Some(list)
}

fn read_specs(agents: &Vec<Json>, catalog: &Vec<AgentDefinition>) -> (specs: Result<
    Vec<AgentSpec>,
    String,
>)
    ensures
        match specs {
            Ok(list) => saved_specs(
                list_view(agents@),
                item_contents(catalog@),
                agents@.len() as int,
            ) == Ok::<Seq<SpecView>, Seq<char>>(item_contents(list@)),
            Err(message) => saved_specs(
                list_view(agents@),
                item_contents(catalog@),
                agents@.len() as int,
            ) == Err::<Seq<SpecView>, Seq<char>>(message@),
        },
{
    let ghost all = list_view(agents@);
    proof {
        lemma_list_view(agents@);
    }
    let mut list: Vec<AgentSpec> = Vec::new();
    let mut i: usize = 0;
    assert(item_contents(list@) =~= Seq::empty());
    while i < agents.len()
        invariant
            i <= agents.len(),
            all == list_view(agents@),
            all == Seq::new(agents@.len(), |k: int| json_view(agents@[k])),
            saved_specs(all, item_contents(catalog@), i as int) == Ok::<Seq<SpecView>, Seq<char>>(
                item_contents(list@),
            ),
        decreases agents.len() - i,
    {
        assert(all[i as int] == agents@[i as int]@);
        match read_spec(&agents[i], catalog) {
            Ok(spec) => {
                list.push(spec);
            },
            Err(message) => {
                proof {
                    lemma_first_error(
                        all,
                        item_contents(catalog@),
                        i + 1,
                        agents@.len() as int,
                        message@,
                    );
                }
                return Err(message);
            },
        }
        i = i + 1;
    }
    Ok(list)
}

proof fn lemma_first_error(
    agents: Seq<JsonView>,
    catalog: Seq<DefinitionView>,
    i: int,
    n: int,
    message: Seq<char>,
)
    requires
        i <= n,
        saved_specs(agents, catalog, i) == Err::<Seq<SpecView>, Seq<char>>(message),
    ensures
        saved_specs(agents, catalog, n) == Err::<Seq<SpecView>, Seq<char>>(message),
    decreases n - i,
{
    if i < n {
        lemma_first_error(agents, catalog, i, n - 1, message);
        assert(n > 0);
    }
}

fn read_handles(agents: &Vec<Json>) -> (handles: Option<Vec<Option<String>>>)
    ensures
        match handles {
            Some(list) => optionals(list@) == Seq::new(
                list_view(agents@).len(),
                |i: int| saved_handle(list_view(agents@)[i]),
            ) && !(forall|i: int|
                0 <= i < list_view(agents@).len() ==> saved_handle(
                    #[trigger] list_view(agents@)[i],
                ) is None),
            None => forall|i: int|
                0 <= i < list_view(agents@).len() ==> saved_handle(
                    #[trigger] list_view(agents@)[i],
                ) is None,
        },
{
    let ghost all = list_view(agents@);
    proof {
        lemma_list_view(agents@);
    }
    let mut list: Vec<Option<String>> = Vec::new();
    let mut some = false;
    let mut i: usize = 0;
    while i < agents.len()
        invariant
            i <= agents.len(),
            list.len() == i,
            all == list_view(agents@),
            all == Seq::new(agents@.len(), |k: int| json_view(agents@[k])),
            forall|k: int| 0 <= k < i ==> saved_handle(#[trigger] all[k]) == optional(list@[k]),
            some == !(forall|k: int| 0 <= k < i ==> saved_handle(#[trigger] all[k]) is None),
        decreases agents.len() - i,
    {
        assert(all[i as int] == agents@[i as int]@);
        let handle = read_handle(&agents[i]);
        some = some || handle.is_some();
        list.push(handle);
        i = i + 1;
    }
    if some {
        assert(optionals(list@) =~= Seq::new(all.len(), |i: int| saved_handle(all[i])));
        Some(list)
    } else {
        None
    }
}

/// The workspace of a saved session.
pub fn stored_workspace(metadata: &Json) -> (path: Option<&str>)
    ensures
        match path {
            Some(found) => text_in(field(metadata@, "cwd"@)) == Some(found@),
            None => text_in(field(metadata@, "cwd"@)) is None,
        },
{
    metadata.text_field("cwd")
}

fn agent_list(metadata: &Json) -> (agents: Option<&Vec<Json>>)
    ensures
        match agents {
            Some(list) => saved_agents(metadata@) == Some(list_view(list@)),
            None => saved_agents(metadata@) is None,
        },
{
    match metadata.get("agents") {
        Some(value) => value.as_array(),
        None => None,
    }
}

/// The launch that takes up a saved session. `stored` is the place that the saved
/// workspace leads to, and `cwd` the one that this workspace leads to.
pub fn resume_launch_from_metadata(
    metadata: &Json,
    stored: &str,
    cwd: &str,
    catalog: &Vec<AgentDefinition>,
) -> (launch: Result<Launch, String>)
    ensures
        outcome(launch) == resumed(metadata@, stored@, cwd@, item_contents(catalog@)),
{
    if stored_workspace(metadata).is_none() {
        return Err("Saved session has no workspace".to_owned());
    }
    if !same(stored, cwd) {
        return Err("No resumable CodeSwarm session for this project".to_owned());
    }
    let agents = match agent_list(metadata) {
        Some(agents) => agents,
        None => {
            return Err("Saved session has no agents".to_owned());
        },
    };
    proof {
        lemma_list_view(agents@);
    }
    if agents.len() == 0 {
        return Err("Saved session has no active agents".to_owned());
    }
    let identities = match read_identities(agents) {
        Some(identities) => identities,
        None => {
            return Err("Saved agent identity is invalid".to_owned());
        },
    };
    let specs = match read_specs(agents, catalog) {
        Ok(specs) => specs,
        Err(message) => {
            return Err(message);
        },
    };
    let session_ids = match read_handles(agents) {
        Some(handles) => handles,
        None => {
            return Err("The previous agents did not provide a resumable session".to_owned());
        },
    };
    let launch = RosterLaunch {
        specs,
        identities,
        models: Vec::new(),
        session_ids,
        prompt: None,
        first_slot: 0,
        max_rounds: 100,
    };
    assert(launch@.models =~= Seq::empty());
    Ok(Launch::Roster(launch))
}

/// The first saved agent of an identity that can take up its session, from a place on.
pub open spec fn loadable_agent(agents: Seq<JsonView>, identity: Seq<char>, i: int) -> Option<
    JsonView,
>
    decreases agents.len() - i,
{
    if i < 0 || i >= agents.len() {
        None
    } else {
        let saved = text_in(field(agents[i], "identity"@));
        if saved is Some && same_ignoring_case(saved->0, identity) && flag_in(
            field(agents[i], "supports_load_session"@),
        ) == Some(true) {
            Some(agents[i])
        } else {
            loadable_agent(agents, identity, i + 1)
        }
    }
}

/// The handle by which an agent takes up its session in this workspace.
pub open spec fn session_handle(
    metadata: JsonView,
    stored: Seq<char>,
    cwd: Seq<char>,
    identity: Seq<char>,
) -> Option<Seq<char>> {
    if text_in(field(metadata, "cwd"@)) is None || stored != cwd {
        None
    } else {
        match saved_agents(metadata) {
            Some(agents) => match loadable_agent(agents, identity, 0) {
                Some(agent) => text_in(field(agent, "session_id"@)),
                None => None,
            },
            None => None,
        }
    }
}

/// The handle by which an agent takes up its session in this workspace. `stored` is the
/// place that the saved workspace leads to, and `cwd` the one that this workspace leads
/// to.
pub fn load_agent_session_id(metadata: &Json, stored: &str, cwd: &str, identity: &str) -> (handle:
    Option<String>)
    ensures
        optional(handle) == session_handle(metadata@, stored@, cwd@, identity@),
{
    if stored_workspace(metadata).is_none() || !same(stored, cwd) {
        return None;
    }
    let agents = match agent_list(metadata) {
        Some(agents) => agents,
        None => {
            return None;
        },
    };
    let ghost all = list_view(agents@);
    proof {
        lemma_list_view(agents@);
    }
    let mut i: usize = 0;
    while i < agents.len()
        invariant
            i <= agents.len(),
            all == list_view(agents@),
            all == Seq::new(agents@.len(), |k: int| json_view(agents@[k])),
            saved_agents(metadata@) == Some(all),
            text_in(field(metadata@, "cwd"@)) is Some,
            stored@ == cwd@,
            loadable_agent(all, identity@, 0) == loadable_agent(all, identity@, i as int),
        decreases agents.len() - i,
    {
        assert(all[i as int] == agents@[i as int]@);
        let known = match agents[i].text_field("identity") {
            Some(saved) => eq_ignore_case(saved, identity),
            None => false,
        };
        let loads = match agents[i].flag_field("supports_load_session") {
            Some(true) => true,
            _ => false,
        };
        if known && loads {
            return match agents[i].text_field("session_id") {
                Some(id) => Some(id.to_owned()),
                None => None,
            };
        }
        i = i + 1;
    }
    None
}

/// Whether a saved agent can take up its session: it can load one, and has a handle.
pub open spec fn is_resumable(agent: JsonView) -> bool {
    flag_in(field(agent, "supports_load_session"@)) == Some(true) && match text_in(
        field(agent, "session_id"@),
    ) {
        Some(id) => !is_blank(id),
        None => false,
    }
}

/// The first places whose agents can take up their session.
pub open spec fn resumable_places(agents: Seq<JsonView>, n: int) -> Seq<usize>
    decreases n,
{
    if n <= 0 {
        Seq::empty()
    } else {
        let before = resumable_places(agents, n - 1);
        if is_resumable(agents[n - 1]) {
            before.push((n - 1) as usize)
        } else {
            before
        }
    }
}

/// The agents of a saved session, none where there is no list of them.
pub open spec fn agents_or_none(metadata: JsonView) -> Seq<JsonView> {
    match saved_agents(metadata) {
        Some(agents) => agents,
        None => Seq::empty(),
    }
}

/// The slots whose agents can take up their session.
pub fn resumable_slots(metadata: &Json) -> (slots: Vec<usize>)
    ensures
        slots@ == resumable_places(
            agents_or_none(metadata@),
            agents_or_none(metadata@).len() as int,
        ),
{
    let mut slots: Vec<usize> = Vec::new();
    let agents = match agent_list(metadata) {
        Some(agents) => agents,
        None => {
            assert(slots@ =~= Seq::empty());
            return slots;
        },
    };
    let ghost all = list_view(agents@);
    proof {
        lemma_list_view(agents@);
    }
    let mut i: usize = 0;
    assert(slots@ =~= Seq::empty());
    while i < agents.len()
        invariant
            i <= agents.len(),
            all == list_view(agents@),
            all == Seq::new(agents@.len(), |k: int| json_view(agents@[k])),
            slots@ == resumable_places(all, i as int),
        decreases agents.len() - i,
    {
        assert(all[i as int] == agents@[i as int]@);
        let loads = match agents[i].flag_field("supports_load_session") {
            Some(true) => true,
            _ => false,
        };
        let handled = match agents[i].text_field("session_id") {
            Some(id) => !blank(id),
            None => false,
        };
        if loads && handled {
            slots.push(i);
        }
        i = i + 1;
    }
    slots
}

/// How a saved agent is called: by its name where that is there, else by its identity.
pub open spec fn called(agent: JsonView) -> Option<Seq<char>> {
    match field(agent, "name"@) {
        Some(name) => text_in(Some(name)),
        None => text_in(field(agent, "identity"@)),
    }
}

/// How the first saved agents are called.
pub open spec fn names_in(agents: Seq<JsonView>, n: int) -> Seq<Seq<char>>
    decreases n,
{
    if n <= 0 {
        Seq::empty()
    } else {
        let before = names_in(agents, n - 1);
        match called(agents[n - 1]) {
            Some(name) => before.push(name),
            None => before,
        }
    }
}

/// How the agents of a saved session are called.
pub fn metadata_roster(metadata: &Json) -> (names: Vec<String>)
    ensures
        strings(names@) == names_in(
            agents_or_none(metadata@),
            agents_or_none(metadata@).len() as int,
        ),
{
    let mut names: Vec<String> = Vec::new();
    assert(strings(names@) =~= Seq::empty());
    let agents = match agent_list(metadata) {
        Some(agents) => agents,
        None => {
            return names;
        },
    };
    let ghost all = list_view(agents@);
    proof {
        lemma_list_view(agents@);
    }
    let mut i: usize = 0;
    while i < agents.len()
        invariant
            i <= agents.len(),
            all == list_view(agents@),
            all == Seq::new(agents@.len(), |k: int| json_view(agents@[k])),
            strings(names@) == names_in(all, i as int),
        decreases agents.len() - i,
    {
        assert(all[i as int] == agents@[i as int]@);
        let name = match agents[i].get("name") {
            Some(value) => value.as_str(),
            None => agents[i].text_field("identity"),
        };
        match name {
            Some(name) => {
                names.push(name.to_owned());
            },
            None => {},
        }
        i = i + 1;
    }
    names
}

/// What is saved of an agent that runs by itself.
pub open spec fn agent_metadata(
    name: Seq<char>,
    identity: Seq<char>,
    protocol: Seq<char>,
    command: Seq<char>,
    supports_load: bool,
    session_id: Option<Seq<char>>,
) -> JsonView {
    let fields = seq![
        ("name"@, JsonView::Text(name)),
        ("identity"@, JsonView::Text(identity)),
        ("protocol"@, JsonView::Text(protocol)),
        ("command"@, JsonView::Text(command)),
        ("supports_load_session"@, JsonView::Bool(supports_load)),
    ];
    match session_id {
        Some(id) => JsonView::Object(fields.push(("session_id"@, JsonView::Text(id)))),
        None => JsonView::Object(fields),
    }
}

/// What is saved of the session of an agent that runs by itself.
pub open spec fn standalone_metadata(cwd: Seq<char>, agent: JsonView) -> JsonView {
    JsonView::Object(
        seq![
            ("cwd"@, JsonView::Text(cwd)),
            ("title"@, JsonView::Text("CodeSwarm"@)),
            ("agents"@, JsonView::List(seq![agent])),
        ],
    )
}

/// What is saved of the session of an agent that runs by itself.
pub fn standalone_session_metadata(
    cwd: &str,
    name: &str,
    identity: &str,
    protocol: &str,
    command: &str,
    supports_load: bool,
    session_id: &Option<String>,
) -> (metadata: Json)
    ensures
        metadata@ == standalone_metadata(
            cwd@,
            agent_metadata(
                name@,
                identity@,
                protocol@,
                command@,
                supports_load,
                optional(*session_id),
            ),
        ),
{
    let mut agent: Vec<(String, Json)> = Vec::new();
    agent.push(("name".to_owned(), Json::Text(name.to_owned())));
    agent.push(("identity".to_owned(), Json::Text(identity.to_owned())));
    agent.push(("protocol".to_owned(), Json::Text(protocol.to_owned())));
    agent.push(("command".to_owned(), Json::Text(command.to_owned())));
    agent.push(("supports_load_session".to_owned(), Json::Bool(supports_load)));
    match session_id {
        Some(id) => {
            agent.push(("session_id".to_owned(), Json::Text(id.clone())));
        },
        None => {},
    }
    let ghost view = agent_metadata(
        name@,
        identity@,
        protocol@,
        command@,
        supports_load,
        optional(*session_id),
    );
    proof {
        lemma_fields_view(agent@);
        assert(fields_view(agent@) =~= fields_of(view));
    }
    let mut agents: Vec<Json> = Vec::new();
    agents.push(Json::Object(agent));
    let mut fields: Vec<(String, Json)> = Vec::new();
    proof {
        lemma_list_view(agents@);
        assert(list_view(agents@) =~= seq![view]);
    }
    fields.push(("cwd".to_owned(), Json::Text(cwd.to_owned())));
    fields.push(("title".to_owned(), Json::Text("CodeSwarm".to_owned())));
    fields.push(("agents".to_owned(), Json::List(agents)));
    proof {
        lemma_fields_view(fields@);
        assert(fields_view(fields@) =~= fields_of(standalone_metadata(cwd@, view)));
    }
    Json::Object(fields)
}

proof fn lemma_keys_differ()
    ensures
        "cwd"@ != "agents"@,
        "title"@ != "agents"@,
        "identity"@ != "name"@,
        "protocol"@ != "name"@,
        "protocol"@ != "identity"@,
        "command"@ != "name"@,
        "command"@ != "identity"@,
        "command"@ != "protocol"@,
        "supports_load_session"@ != "name"@,
        "supports_load_session"@ != "identity"@,
        "supports_load_session"@ != "protocol"@,
        "supports_load_session"@ != "command"@,
        "session_id"@ != "name"@,
        "session_id"@ != "identity"@,
        "session_id"@ != "protocol"@,
        "session_id"@ != "command"@,
        "session_id"@ != "supports_load_session"@,
{
    reveal_strlit("cwd");
    reveal_strlit("title");
    reveal_strlit("agents");
    reveal_strlit("name");
    reveal_strlit("identity");
    reveal_strlit("protocol");
    reveal_strlit("command");
    reveal_strlit("supports_load_session");
    reveal_strlit("session_id");
    assert("cwd"@.len() == 3);
    assert("title"@.len() == 5);
    assert("agents"@.len() == 6);
    assert("name"@.len() == 4);
    assert("identity"@.len() == 8 && "identity"@[0] == 'i');
    assert("protocol"@.len() == 8 && "protocol"@[0] == 'p');
    assert("command"@.len() == 7);
    assert("supports_load_session"@.len() == 21);
    assert("session_id"@.len() == 10);
}

proof fn lemma_field_at(fields: Seq<(Seq<char>, JsonView)>, key: Seq<char>, i: int)
    requires
        0 <= i < fields.len(),
        fields[i].0 == key,
        forall|k: int| 0 <= k < i ==> (#[trigger] fields[k]).0 != key,
    ensures
        field_place(fields, key) == i,
        field(JsonView::Object(fields), key) == Some(fields[i].1),
    decreases i,
{
    if i > 0 {
        let rest = fields.drop_first();
        assert forall|k: int| 0 <= k < i - 1 implies (#[trigger] rest[k]).0 != key by {
            assert(rest[k] == fields[k + 1]);
        }
        lemma_field_at(rest, key, i - 1);
        assert(fields[0].0 != key);
    }
}

/// The session of an agent that runs by itself can be taken up from what is saved of it:
/// with the same command, under the same identity and by the same handle. Where the
/// catalog knows the identity, its command is the one.
pub proof fn law_saved_sessions_can_be_resumed(
    cwd: Seq<char>,
    name: Seq<char>,
    identity: Seq<char>,
    command: Seq<char>,
    id: Seq<char>,
    catalog: Seq<DefinitionView>,
)
    requires
        !is_blank(command),
    ensures
        ({
            let agent = agent_metadata(name, identity, "acp"@, command, true, Some(id));
            let spec = match agent_with(catalog, identity, 0) {
                Some(k) => spec_of(catalog[k]),
                None => SpecView::Acp(command),
            };
            resumed(standalone_metadata(cwd, agent), cwd, cwd, catalog) == Ok::<
                LaunchView,
                Seq<char>,
            >(
                LaunchView::Roster(
                    RosterLaunchView {
                        specs: seq![spec],
                        identities: seq![identity],
                        models: Seq::empty(),
                        session_ids: seq![Some(id)],
                        prompt: None,
                        first_slot: 0,
                        max_rounds: 100,
                    },
                ),
            )
        }),
{
    let agent = agent_metadata(name, identity, "acp"@, command, true, Some(id));
    let metadata = standalone_metadata(cwd, agent);
    let spec = match agent_with(catalog, identity, 0) {
        Some(k) => spec_of(catalog[k]),
        None => SpecView::Acp(command),
    };
    lemma_keys_differ();
    lemma_field_at(fields_of(metadata), "cwd"@, 0);
    lemma_field_at(fields_of(metadata), "agents"@, 2);
    lemma_field_at(fields_of(agent), "identity"@, 1);
    lemma_field_at(fields_of(agent), "protocol"@, 2);
    lemma_field_at(fields_of(agent), "command"@, 3);
    lemma_field_at(fields_of(agent), "supports_load_session"@, 4);
    lemma_field_at(fields_of(agent), "session_id"@, 5);
    let agents = saved_agents(metadata)->0;
    assert(agents =~= seq![agent]);
    assert(agents[0] == agent);
    reveal_strlit("acp");
    reveal_strlit("native");
    reveal_strlit("agy");
    assert(lower("acp"@) =~= "acp"@);
    assert("acp"@.len() == 3 && "acp"@[1] == 'c');
    assert("agy"@.len() == 3 && "agy"@[1] == 'g');
    assert("native"@.len() == 6);
    assert(saved_spec(agent, catalog) == Ok::<SpecView, Seq<char>>(spec));
    reveal_with_fuel(saved_specs, 2);
    assert(Seq::<SpecView>::empty().push(spec) =~= seq![spec]);
    assert(saved_handle(agents[0]) == Some(id));
    let roster = resumed_roster(agents, seq![spec]);
    match roster {
        LaunchView::Roster(made) => {
            assert(made.identities =~= seq![identity]);
            assert(made.session_ids =~= seq![Some(id)]);
        },
        _ => {},
    }
}

/// Whether a saved agent has an identity and can load a session.
pub open spec fn can_load_as(agent: JsonView, identity: Seq<char>) -> bool {
    let saved = text_in(field(agent, "identity"@));
    saved is Some && same_ignoring_case(saved->0, identity) && flag_in(
        field(agent, "supports_load_session"@),
    ) == Some(true)
}

proof fn lemma_loadable_agent(agents: Seq<JsonView>, identity: Seq<char>, i: int, k: int)
    requires
        0 <= i <= k <= agents.len(),
        forall|j: int| i <= j < k ==> !can_load_as(#[trigger] agents[j], identity),
        k < agents.len() ==> can_load_as(agents[k], identity),
    ensures
        k < agents.len() ==> loadable_agent(agents, identity, i) == Some(agents[k]),
        k == agents.len() ==> loadable_agent(agents, identity, i) is None,
    decreases k - i,
{
    if i < k {
        assert(!can_load_as(agents[i], identity));
        lemma_loadable_agent(agents, identity, i + 1, k);
    }
}

/// An agent takes up its own session: the handle is that of the first saved agent of its
/// identity that can load one, whatever other agents were saved, and there is none from
/// another workspace or where no such agent was saved. Here `k` is the place of that agent,
/// or the number of agents where there is none.
pub proof fn law_agents_take_up_their_own_session(
    metadata: JsonView,
    stored: Seq<char>,
    cwd: Seq<char>,
    identity: Seq<char>,
    agents: Seq<JsonView>,
    k: int,
)
    requires
        list_in(field(metadata, "agents"@)) == Some(agents),
        text_in(field(metadata, "cwd"@)) is Some,
        0 <= k <= agents.len(),
        forall|j: int| 0 <= j < k ==> !can_load_as(#[trigger] agents[j], identity),
        k < agents.len() ==> can_load_as(agents[k], identity),
    ensures
        stored != cwd ==> session_handle(metadata, stored, cwd, identity) is None,
        stored == cwd && k < agents.len() ==> session_handle(metadata, stored, cwd, identity)
            == text_in(field(agents[k], "session_id"@)),
        k == agents.len() ==> session_handle(metadata, stored, cwd, identity) is None,
{
    lemma_loadable_agent(agents, identity, 0, k);
}

proof fn lemma_resumable_places(agents: Seq<JsonView>, n: int)
    requires
        0 <= n <= agents.len() <= usize::MAX,
    ensures
        forall|k: usize|
            #[trigger] resumable_places(agents, n).contains(k) <==> k < n && is_resumable(
                agents[k as int],
            ),
        forall|i: int, j: int|
            0 <= i < j < resumable_places(agents, n).len() ==> #[trigger] resumable_places(
                agents,
                n,
            )[i] < #[trigger] resumable_places(agents, n)[j],
    decreases n,
{
    if n > 0 {
        lemma_resumable_places(agents, n - 1);
        let before = resumable_places(agents, n - 1);
        let places = resumable_places(agents, n);
        assert forall|i: int| 0 <= i < before.len() implies #[trigger] before[i] < n - 1 by {
            assert(before.contains(before[i]));
        }
        assert forall|k: usize| #[trigger] places.contains(k) <==> k < n && is_resumable(
            agents[k as int],
        ) by {
            assert(before.contains(k) <==> k < n - 1 && is_resumable(agents[k as int]));
            if is_resumable(agents[n - 1]) {
                assert(places.last() == n - 1);
                if before.contains(k) {
                    let i = choose|i: int| 0 <= i < before.len() && before[i] == k;
                    assert(places[i] == k);
                }
                if k == n - 1 {
                    assert(places[places.len() - 1] == k);
                }
                if places.contains(k) && k != n - 1 {
                    let i = choose|i: int| 0 <= i < places.len() && places[i] == k;
                    assert(before[i] == k);
                }
            }
        }
    }
}

/// The places that are offered to be taken up are those of the agents that can load a
/// session and have a handle that is not blank, each once and in their order.
pub proof fn law_resumable_places_are_those_with_a_handle(agents: Seq<JsonView>, k: usize)
    requires
        agents.len() <= usize::MAX,
    ensures
        resumable_places(agents, agents.len() as int).contains(k) <==> k < agents.len() && flag_in(
            field(agents[k as int], "supports_load_session"@),
        ) == Some(true) && text_in(field(agents[k as int], "session_id"@)) is Some && !is_blank(
            text_in(field(agents[k as int], "session_id"@))->0,
        ),
        forall|i: int, j: int|
            0 <= i < j < resumable_places(agents, agents.len() as int).len()
                ==> #[trigger] resumable_places(agents, agents.len() as int)[i]
                < #[trigger] resumable_places(agents, agents.len() as int)[j],
{
    lemma_resumable_places(agents, agents.len() as int);
}

/// Saved agents that have names are called by them, each in its place, and those without
/// one by their identity.
pub proof fn law_saved_agents_are_called_by_their_names(agents: Seq<JsonView>, n: int)
    requires
        0 <= n <= agents.len(),
        forall|i: int|
            0 <= i < n ==> text_in(field(#[trigger] agents[i], "name"@)) is Some || field(
                agents[i],
                "name"@,
            ) is None && text_in(field(agents[i], "identity"@)) is Some,
    ensures
        names_in(agents, n).len() == n,
        forall|i: int|
            0 <= i < n ==> Some(#[trigger] names_in(agents, n)[i]) == (if field(
                agents[i],
                "name"@,
            ) is Some {
                text_in(field(agents[i], "name"@))
            } else {
                text_in(field(agents[i], "identity"@))
            }),
    decreases n,
{
    if n > 0 {
        law_saved_agents_are_called_by_their_names(agents, n - 1);
        let before = names_in(agents, n - 1);
        assert(text_in(field(agents[n - 1], "name"@)) is Some || field(agents[n - 1], "name"@) is None);
        assert(called(agents[n - 1]) is Some);
        assert(names_in(agents, n) == before.push(called(agents[n - 1])->0));
        assert forall|i: int| 0 <= i < n implies Some(#[trigger] names_in(agents, n)[i]) == (if field(
            agents[i],
            "name"@,
        ) is Some {
            text_in(field(agents[i], "name"@))
        } else {
            text_in(field(agents[i], "identity"@))
        }) by {
            if i < n - 1 {
                assert(names_in(agents, n)[i] == before[i]);
            }
        }
    }
}

} // verus!
