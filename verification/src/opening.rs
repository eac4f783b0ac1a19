//! How a conversation opens, and short reports that are shown in it.

use crate::app::{App, AppView};
use crate::commands::saying;
use crate::fixtures::{five_thousand_word_reply, numbered_words};
use crate::history::person_shown;
use crate::json::{nested, text_in, Json, JsonView};
use crate::layout::{BlockKind, BlockView};
use crate::resume::{agents_or_none, resumable_places, resumable_slots};
use crate::roster::{identified, name_of, record_of, renamed, AgentState, RecordView};
use crate::roster_laws::{law_named_agents_keep_their_state, lemma_with_record};
use crate::slots::in_slot_order;
use crate::text::{
    append_decimal, append_text, decimal, join, optional, strings, to_chars, to_text,
};
use vstd::prelude::*;

verus! {

/// The surface with an agent that is about to start.
pub open spec fn agent_seated(
    app: AppView,
    name: Seq<char>,
    identity: Seq<char>,
    prompt: Option<Seq<char>>,
) -> AppView {
    let named = AppView { roster: renamed(app.roster, 0, name), ..app };
    let known = AppView { roster: identified(named.roster, 0, identity), ..named };
    let headed = AppView { active_agent: name, status: "starting"@, ..known };
    match prompt {
        Some(text) => person_shown(headed, text, false),
        None => headed,
    }
}

/// The surface with the first agents of a roster in their slots.
pub open spec fn agents_seated(
    app: AppView,
    names: Seq<Seq<char>>,
    identities: Seq<Seq<char>>,
    n: int,
) -> AppView
    decreases n,
{
    if n <= 0 {
        app
    } else {
        let before = agents_seated(app, names, identities, n - 1);
        let slot = (n - 1) as usize;
        let named = AppView { roster: renamed(before.roster, slot, names[n - 1]), ..before };
        if n - 1 < identities.len() {
            AppView { roster: identified(named.roster, slot, identities[n - 1]), ..named }
        } else {
            named
        }
    }
}

/// The surface with a roster that is about to start.
pub open spec fn roster_seated(
    app: AppView,
    names: Seq<Seq<char>>,
    identities: Seq<Seq<char>>,
    prompt: Option<Seq<char>>,
    first_slot: usize,
) -> AppView {
    let seated = agents_seated(app, names, identities, names.len() as int);
    let said = match prompt {
        Some(text) => person_shown(seated, text, false),
        None => seated,
    };
    AppView {
        active_agent: name_of(said.roster.agents, first_slot),
        status: "starting"@,
        ..said
    }
}

/// The commands that the prompt completes before the agents advertise theirs.
pub open spec fn first_commands() -> Seq<Seq<char>> {
    seq![
        "/cancel"@,
        "/clear"@,
        "/close"@,
        "/config"@,
        "/export"@,
        "/help"@,
        "/reload"@,
        "/select"@,
        "/to"@,
    ]
}

/// The commands that the prompt completes before the agents advertise theirs.
pub fn prompt_commands() -> (commands: Vec<String>)
    ensures
        strings(commands@) == first_commands(),
{
    let commands = vec![
        "/cancel".to_owned(),
        "/clear".to_owned(),
        "/close".to_owned(),
        "/config".to_owned(),
        "/export".to_owned(),
        "/help".to_owned(),
        "/reload".to_owned(),
        "/select".to_owned(),
        "/to".to_owned(),
    ];
    assert(strings(commands@) =~= first_commands());
    commands
}

impl App {
    /// Opens the conversation with an agent that runs by itself.
    pub fn seat_agent(&mut self, name: &str, identity: &str, prompt: &Option<String>)
        requires
            old(self).wf(),
        ensures
            final(self).wf(),
            final(self)@ == agent_seated(old(self)@, name@, identity@, optional(*prompt)),
    {
        self.set_agent_name(0, name);
        self.set_agent_identity(0, identity);
        self.set_header(name, "starting");
        match prompt {
            Some(text) => self.record_human_message(text.as_str(), false),
            None => {},
        }
    }

    fn seat_agents(&mut self, names: &Vec<String>, identities: &Vec<String>)
        requires
            old(self).wf(),
        ensures
            final(self).wf(),
            final(self)@ == agents_seated(
                old(self)@,
                strings(names@),
                strings(identities@),
                names@.len() as int,
            ),
    {
        let ghost start = self@;
        let mut slot: usize = 0;
        while slot < names.len()
            invariant
                slot <= names.len(),
                self.wf(),
                self@ == agents_seated(
                    start,
                    strings(names@),
                    strings(identities@),
                    slot as int,
                ),
            decreases names.len() - slot,
        {
            self.set_agent_name(slot, names[slot].as_str());
            if slot < identities.len() {
                self.set_agent_identity(slot, identities[slot].as_str());
            }
            slot = slot + 1;
        }
    }

    /// Opens the conversation with a roster.
    pub fn seat_roster(
        &mut self,
        names: &Vec<String>,
        identities: &Vec<String>,
        prompt: &Option<String>,
        first_slot: usize,
    )
        requires
            old(self).wf(),
        ensures
            final(self).wf(),
            final(self)@ == roster_seated(
                old(self)@,
                strings(names@),
                strings(identities@),
                optional(*prompt),
                first_slot,
            ),
    {
        self.seat_agents(names, identities);
        assert(strings(names@).len() == names@.len());
        match prompt {
            Some(text) => self.record_human_message(text.as_str(), false),
            None => {},
        }
        let name = self.agent_name(first_slot);
        self.set_header(name.as_str(), "starting");
    }

    /// Opens the preview, which needs no agent.
    pub fn open_preview(&mut self)
        requires
            old(self).wf(),
        ensures
            final(self).wf(),
            final(self)@ == previewed(old(self)@),
    {
        self.set_header("CodeSwarm preview", "press q to quit");
        self.transcript.append(
            BlockKind::Notice,
            "Ratatui preview uses a viewport-only transcript.",
            false,
        );
        let reply = five_thousand_word_reply();
        self.transcript.append(BlockKind::Agent, reply.as_str(), false);
    }

    /// Shows what became of an export.
    pub fn finish_export(&mut self, exported: Result<String, String>)
        requires
            old(self).wf(),
        ensures
            final(self).wf(),
            final(self)@ == saying(
                old(self)@,
                match exported {
                    Ok(path) => "conversation exported to "@ + path@,
                    Err(reason) => "export failed: "@ + reason@,
                },
            ),
    {
        let status = match &exported {
            Ok(path) => {
                let mut status = to_chars("conversation exported to ");
                append_text(&mut status, path.as_str());
                status
            },
            Err(reason) => {
                let mut status = to_chars("export failed: ");
                append_text(&mut status, reason.as_str());
                status
            },
        };
        self.show_status(to_text(&status).as_str());
    }
}

/// The surface with one block more.
pub open spec fn with_block(app: AppView, kind: BlockKind, source: Seq<char>) -> AppView {
    AppView {
        transcript: app.transcript.push(
            BlockView {
                id: app.transcript.len() as u64,
                kind,
                source,
                collapsed: false,
            },
        ),
        ..app
    }
}

/// The surface of the preview.
pub open spec fn previewed(app: AppView) -> AppView {
    let headed = AppView {
        active_agent: "CodeSwarm preview"@,
        status: "press q to quit"@,
        ..app
    };
    let noted = with_block(
        headed,
        BlockKind::Notice,
        "Ratatui preview uses a viewport-only transcript."@,
    );
    with_block(noted, BlockKind::Agent, join(numbered_words(5000), " "@))
}

/// Slots in a list.
pub open spec fn slot_list(slots: Seq<usize>, n: int) -> Seq<char>
    decreases n,
{
    if n <= 0 {
        Seq::empty()
    } else if n == 1 {
        decimal(slots[0] as nat)
    } else {
        slot_list(slots, n - 1) + ", "@ + decimal(slots[n - 1] as nat)
    }
}

/// A line of a report, where there is something to say.
pub open spec fn report_line(label: Seq<char>, value: Option<Seq<char>>) -> Seq<char> {
    match value {
        Some(text) => label + text + "\n"@,
        None => Seq::empty(),
    }
}

/// A field of the workflow that was saved with a session.
pub open spec fn workflow_field(metadata: Option<JsonView>, key: Seq<char>) -> Option<Seq<char>> {
    match metadata {
        Some(value) => text_in(nested(value, "workflow"@, key)),
        None => None,
    }
}

/// What is reported of the running program.
pub open spec fn diagnostics(
    version: Seq<char>,
    executable: Seq<char>,
    cwd: Seq<char>,
    metadata: Option<JsonView>,
    offline: bool,
) -> Seq<char> {
    let slots = match metadata {
        Some(value) => resumable_places(agents_or_none(value), agents_or_none(value).len() as int),
        None => Seq::empty(),
    };
    "CodeSwarm "@ + version + "\nRunning executable: "@ + executable + "\nWorkspace: "@ + cwd
        + "\nConnection: "@ + (if offline {
        "offline history (no provider processes started)"@
    } else {
        "live session"@
    }) + "\nSaved resumable slots: "@ + (if slots.len() == 0 {
        "none"@
    } else {
        slot_list(slots, slots.len() as int)
    }) + "\n"@ + report_line(
        "Pair workflow worker: "@,
        workflow_field(metadata, "worker"@),
    ) + report_line("Last handoff from: "@, workflow_field(metadata, "handoff_from"@))
}

fn append_slots(report: &mut Vec<char>, slots: &Vec<usize>)
    ensures
        final(report)@ == old(report)@ + slot_list(slots@, slots@.len() as int),
{
    let ghost before = report@;
    let mut i: usize = 0;
    assert(before + slot_list(slots@, 0) =~= before);
    while i < slots.len()
        invariant
            i <= slots.len(),
            report@ == before + slot_list(slots@, i as int),
        decreases slots.len() - i,
    {
        if i > 0 {
            append_text(report, ", ");
        }
        append_decimal(report, slots[i] as u64);
        assert(report@ =~= before + slot_list(slots@, i + 1));
        i = i + 1;
    }
}

fn append_line(report: &mut Vec<char>, label: &str, value: Option<&str>)
    ensures
        final(report)@ == old(report)@ + report_line(
            label@,
            match value {
                Some(text) => Some(text@),
                None => None,
            },
        ),
{
    let ghost before = report@;
    match value {
        Some(text) => {
            append_text(report, label);
            append_text(report, text);
            append_text(report, "\n");
            assert(report@ =~= before + (label@ + text@ + "\n"@));
        },
        None => {
            assert(report@ =~= before + Seq::empty());
        },
    }
}

/// What is reported of the running program: the version, the executable and the workspace
/// are those of this process.
pub fn runtime_diagnostics(
    version: &str,
    executable: &str,
    cwd: &str,
    metadata: Option<&Json>,
    offline: bool,
) -> (report: String)
    ensures
        report@ == diagnostics(
            version@,
            executable@,
            cwd@,
            match metadata {
                Some(value) => Some(value@),
                None => None,
            },
            offline,
        ),
{
    let mut report = to_chars("CodeSwarm ");
    append_text(&mut report, version);
    append_text(&mut report, "\nRunning executable: ");
    append_text(&mut report, executable);
    append_text(&mut report, "\nWorkspace: ");
    append_text(&mut report, cwd);
    append_text(&mut report, "\nConnection: ");
    append_text(
        &mut report,
        if offline {
            "offline history (no provider processes started)"
        } else {
            "live session"
        },
    );
    append_text(&mut report, "\nSaved resumable slots: ");
    let slots = match metadata {
        Some(value) => resumable_slots(value),
        None => Vec::new(),
    };
    if slots.len() == 0 {
        append_text(&mut report, "none");
    } else {
        append_slots(&mut report, &slots);
    }
    append_text(&mut report, "\n");
    let worker = match metadata {
        Some(value) => value.text_at("workflow", "worker"),
        None => None,
    };
    append_line(&mut report, "Pair workflow worker: ", worker);
    let previous = match metadata {
        Some(value) => value.text_at("workflow", "handoff_from"),
        None => None,
    };
    append_line(&mut report, "Last handoff from: ", previous);
    to_text(&report)
}

proof fn lemma_agents_seated(
    app: AppView,
    names: Seq<Seq<char>>,
    identities: Seq<Seq<char>>,
    n: int,
    i: int,
)
    requires
        in_slot_order(app.roster.agents),
        0 <= i < n <= names.len() <= usize::MAX,
    ensures
        ({
            let after = agents_seated(app, names, identities, n);
            &&& in_slot_order(after.roster.agents)
            &&& after.transcript == app.transcript
            &&& record_of(after.roster.agents, i as usize).name == Some(names[i])
            &&& i < identities.len() ==> record_of(after.roster.agents, i as usize).identity == Some(
                identities[i],
            )
        }),
    decreases n,
{
    reveal(renamed);
    reveal(identified);
    let before = agents_seated(app, names, identities, n - 1);
    let slot = (n - 1) as usize;
    if n > 1 {
        lemma_agents_seated(app, names, identities, n - 1, if i < n - 1 { i } else { 0 });
    }
    law_named_agents_keep_their_state(before.roster, slot, names[n - 1]);
    let named = renamed(before.roster, slot, names[n - 1]);
    let was = record_of(before.roster.agents, slot);
    lemma_with_record(
        before.roster,
        slot,
        RecordView {
            name: Some(names[n - 1]),
            state: if was.state is None {
                Some(AgentState::Starting)
            } else {
                was.state
            },
            ..was
        },
    );
    if n - 1 < identities.len() {
        lemma_with_record(
            named,
            slot,
            RecordView { identity: Some(identities[n - 1]), ..record_of(named.agents, slot) },
        );
    }
}

/// Every agent of a roster is seated in its own slot, under its own name and identity, and
/// what the person asked first is shown in the person's words.
pub proof fn law_agents_are_seated_in_their_slots(
    app: AppView,
    names: Seq<Seq<char>>,
    identities: Seq<Seq<char>>,
    prompt: Seq<char>,
    first_slot: usize,
    i: int,
)
    requires
        in_slot_order(app.roster.agents),
        0 <= i < names.len() <= usize::MAX,
        identities.len() == names.len(),
    ensures
        ({
            let after = roster_seated(app, names, identities, Some(prompt), first_slot);
            &&& record_of(after.roster.agents, i as usize).name == Some(names[i])
            &&& record_of(after.roster.agents, i as usize).identity == Some(identities[i])
            &&& after.active_agent == name_of(after.roster.agents, first_slot)
            &&& after.transcript.len() == app.transcript.len() + 1
            &&& after.transcript.drop_last() == app.transcript
            &&& after.transcript.last().kind is Human
            &&& after.transcript.last().source == "You: "@ + prompt
        }),
        roster_seated(app, names, identities, None, first_slot).transcript == app.transcript,
{
    lemma_agents_seated(app, names, identities, names.len() as int, i);
    let after = roster_seated(app, names, identities, Some(prompt), first_slot);
    assert(after.transcript.drop_last() =~= app.transcript);
}

/// Numbers in a list stand in their order, with a comma between any two, and one more only
/// adds to the end.
pub proof fn law_slots_are_listed_in_order(slots: Seq<usize>, slot: usize)
    ensures
        slot_list(seq![slot], 1) == decimal(slot as nat),
        slots.len() > 0 ==> slot_list(slots.push(slot), slots.len() as int + 1) == slot_list(
            slots,
            slots.len() as int,
        ) + ", "@ + decimal(slot as nat),
{
    if slots.len() > 0 {
        lemma_slot_list(slots.push(slot), slots, slots.len() as int);
    }
}

proof fn lemma_slot_list(first: Seq<usize>, second: Seq<usize>, n: int)
    requires
        0 <= n <= second.len(),
        n <= first.len(),
        forall|i: int| 0 <= i < n ==> #[trigger] first[i] == second[i],
    ensures
        slot_list(first, n) == slot_list(second, n),
    decreases n,
{
    if n > 0 {
        lemma_slot_list(first, second, n - 1);
        assert(first[n - 1] == second[n - 1]);
        assert(first[0] == second[0]);
    }
}

} // verus!
