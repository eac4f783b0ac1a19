//! The command palette: what can be typed behind a slash, with what it does.

use crate::app::{App, AppView};
use crate::commands::known_command;
use crate::order::{item_contents, lemma_item_contents_push};
use crate::roster::{all_commands, with_commands};
use crate::text::{
    begins_with, has_first, has_prefix, is_space, lower, space, starts_with, strings, to_chars,
    to_lower,
};
use vstd::prelude::*;

verus! {

broadcast use lemma_item_contents_push;

/// A row of the palette.
#[derive(Clone, Debug, Eq, PartialEq)]
pub struct PaletteRow {
    pub command: String,
    pub description: String,
}

pub struct PaletteView {
    pub command: Seq<char>,
    pub description: Seq<char>,
}

impl View for PaletteRow {
    type V = PaletteView;

    open spec fn view(&self) -> PaletteView {
        PaletteView { command: self.command@, description: self.description@ }
    }
}

/// A row of the palette.
pub open spec fn entry(command: Seq<char>, description: Seq<char>) -> PaletteView {
    PaletteView { command, description }
}

/// The commands of the surface.
pub open spec fn local_rows() -> Seq<PaletteView> {
    seq![
        entry("/add"@, "start another agent"@),
        entry("/agent"@, "select the agent for the next message"@),
        entry("/agents"@, "open the roster settings"@),
        entry("/cancel"@, "cancel active work"@),
        entry("/clear"@, "clear the local transcript"@),
        entry("/collab"@, "choose how the agents work together"@),
        entry("/diff"@, "show diffs split or unified"@),
        entry("/drop"@, "drop an agent"@),
        entry("/exit"@, "exit the session"@),
        entry("/export"@, "write the conversation to Markdown"@),
        entry("/goal"@, "set, run or end a shared goal"@),
        entry("/help"@, "show keyboard and command help"@),
        entry("/loop"@, "repeat a request"@),
        entry("/mode"@, "choose a permission mode"@),
        entry("/promote"@, "move an agent to the front"@),
        entry("/reload"@, "restart a silent or crashed agent"@),
        entry("/resume"@, "open previous history"@),
        entry("/select"@, "select text with the mouse"@),
        entry("/sessions"@, "browse saved conversations"@),
        entry("/settings"@, "open settings"@),
        entry("/status"@, "show version, roster and connection"@),
        entry("/summary"@, "show tool outcomes and the last response"@),
        entry("/swap"@, "let two agents change places"@),
    ]
}

/// Whether the palette is open: the prompt is the beginning of a command.
pub open spec fn opens_palette(text: Seq<char>) -> bool {
    begins_with(text, '/') && forall|i: int| 0 <= i < text.len() ==> !is_space(#[trigger] text[i])
}

/// Those of the first `n` rows whose command begins with a text.
pub open spec fn matching(rows: Seq<PaletteView>, text: Seq<char>, n: int) -> Seq<PaletteView>
    decreases n,
{
    if n <= 0 {
        Seq::empty()
    } else if starts_with(rows[n - 1].command, text) {
        matching(rows, text, n - 1).push(rows[n - 1])
    } else {
        matching(rows, text, n - 1)
    }
}

/// The commands that agents advertise, as rows.
pub open spec fn agent_rows(commands: Seq<Seq<char>>) -> Seq<PaletteView> {
    Seq::new(commands.len(), |i: int| entry(commands[i], "command of an agent"@))
}

/// All the rows that the palette can show: the commands of the surface, and then those of
/// the agents.
pub open spec fn all_rows(app: AppView) -> Seq<PaletteView> {
    local_rows() + agent_rows(with_commands(Seq::empty(), all_commands(app.roster.agents)))
}

/// The rows of the palette for what stands in the prompt.
pub open spec fn palette_of(app: AppView, text: Seq<char>) -> Seq<PaletteView> {
    if opens_palette(text) {
        matching(all_rows(app), lower(text), all_rows(app).len() as int)
    } else {
        Seq::empty()
    }
}

proof fn lemma_matching(rows: Seq<PaletteView>, text: Seq<char>, n: int)
    requires
        0 <= n <= rows.len(),
    ensures
        forall|i: int|
            0 <= i < matching(rows, text, n).len() ==> starts_with(
                (#[trigger] matching(rows, text, n)[i]).command,
                text,
            ),
        forall|j: int|
            0 <= j < n && starts_with((#[trigger] rows[j]).command, text) ==> matching(
                rows,
                text,
                n,
            ).contains(rows[j]),
    decreases n,
{
    if n > 0 {
        lemma_matching(rows, text, n - 1);
        let before = matching(rows, text, n - 1);
        let after = matching(rows, text, n);
        assert forall|j: int| 0 <= j < n && starts_with((#[trigger] rows[j]).command, text) implies
            after.contains(rows[j]) by {
            if j < n - 1 {
                assert(before.contains(rows[j]));
                let k = choose|k: int| 0 <= k < before.len() && before[k] == rows[j];
                assert(after[k] == rows[j]);
            } else {
                assert(after[before.len() as int] == rows[j]);
            }
        }
    }
}

/// The palette shows exactly the commands that begin with what was typed, and none where the
/// prompt is not the beginning of a command.
pub proof fn law_the_palette_shows_what_was_begun(app: AppView, text: Seq<char>, row: PaletteView)
    ensures
        opens_palette(text) ==> (palette_of(app, text).contains(row) <==> all_rows(app).contains(
            row,
        ) && starts_with(row.command, lower(text))),
        !opens_palette(text) ==> palette_of(app, text).len() == 0,
{
    let rows = all_rows(app);
    lemma_matching(rows, lower(text), rows.len() as int);
    lemma_matching_comes_from(rows, lower(text), rows.len() as int);
    let shown = palette_of(app, text);
    if opens_palette(text) {
        if shown.contains(row) {
            let k = choose|k: int| 0 <= k < shown.len() && shown[k] == row;
            assert(rows.contains(shown[k]));
        }
        if rows.contains(row) && starts_with(row.command, lower(text)) {
            let j = choose|j: int| 0 <= j < rows.len() && rows[j] == row;
            assert(shown.contains(rows[j]));
        }
    }
}

proof fn lemma_matching_comes_from(rows: Seq<PaletteView>, text: Seq<char>, n: int)
    requires
        0 <= n <= rows.len(),
    ensures
        forall|i: int|
            0 <= i < matching(rows, text, n).len() ==> rows.contains(
                #[trigger] matching(rows, text, n)[i],
            ),
    decreases n,
{
    if n > 0 {
        lemma_matching_comes_from(rows, text, n - 1);
        let before = matching(rows, text, n - 1);
        let after = matching(rows, text, n);
        assert forall|i: int| 0 <= i < after.len() implies rows.contains(#[trigger] after[i]) by {
            if i < before.len() {
                assert(rows.contains(before[i]));
                assert(after[i] == before[i]);
            } else {
                assert(after[i] == rows[n - 1]);
            }
        }
    }
}

/// Every command of the surface that the palette offers is one that the surface knows.
pub proof fn law_the_palette_offers_known_commands(app: AppView, i: int)
    requires
        0 <= i < local_rows().len(),
    ensures
        ({
            let command = local_rows()[i].command;
            ||| known_command(app, command, Seq::empty()) is Some
            ||| command == "/loop"@
            ||| command == "/goal"@
        }),
{
}

fn row(command: &str, description: &str) -> (row: PaletteRow)
    ensures
        row@ == entry(command@, description@),
{
    PaletteRow { command: command.to_owned(), description: description.to_owned() }
}

/// The commands of the surface.
pub fn local_palette() -> (rows: Vec<PaletteRow>)
    ensures
        item_contents(rows@) == local_rows(),
{
    let rows = vec![
        row("/add", "start another agent"),
        row("/agent", "select the agent for the next message"),
        row("/agents", "open the roster settings"),
        row("/cancel", "cancel active work"),
        row("/clear", "clear the local transcript"),
        row("/collab", "choose how the agents work together"),
        row("/diff", "show diffs split or unified"),
        row("/drop", "drop an agent"),
        row("/exit", "exit the session"),
        row("/export", "write the conversation to Markdown"),
        row("/goal", "set, run or end a shared goal"),
        row("/help", "show keyboard and command help"),
        row("/loop", "repeat a request"),
        row("/mode", "choose a permission mode"),
        row("/promote", "move an agent to the front"),
        row("/reload", "restart a silent or crashed agent"),
        row("/resume", "open previous history"),
        row("/select", "select text with the mouse"),
        row("/sessions", "browse saved conversations"),
        row("/settings", "open settings"),
        row("/status", "show version, roster and connection"),
        row("/summary", "show tool outcomes and the last response"),
        row("/swap", "let two agents change places"),
    ];
    assert(item_contents(rows@) =~= local_rows());
    rows
}

fn is_begun(text: &str) -> (yes: bool)
    ensures
        yes == opens_palette(text@),
{
    if !has_first(text, '/') {
        return false;
    }
    let chars = to_chars(text);
    let mut i: usize = 0;
    while i < chars.len()
        invariant
            i <= chars@.len(),
            chars@ == text@,
            forall|k: int| 0 <= k < i ==> !is_space(#[trigger] text@[k]),
        decreases chars@.len() - i,
    {
        if space(chars[i]) {
            assert(is_space(text@[i as int]));
            return false;
        }
        i = i + 1;
    }
    true
}

impl App {
    fn palette_candidates(&self) -> (rows: Vec<PaletteRow>)
        requires
            self.wf(),
        ensures
            item_contents(rows@) == all_rows(self@),
    {
        let mut rows = local_palette();
        let none: Vec<String> = Vec::new();
        assert(strings(none@) =~= Seq::<Seq<char>>::empty());
        let commands = self.roster.completions(none);
        let ghost names = strings(commands@);
        let mut i: usize = 0;
        assert(item_contents(rows@) =~= local_rows() + agent_rows(names).take(0));
        while i < commands.len()
            invariant
                i <= commands@.len(),
                names == strings(commands@),
                item_contents(rows@) == local_rows() + agent_rows(names).take(i as int),
            decreases commands@.len() - i,
        {
            let next = row(commands[i].as_str(), "command of an agent");
            rows.push(next);
            proof {
                assert(agent_rows(names)[i as int] == next@);
                assert(agent_rows(names).take(i + 1) =~= agent_rows(names).take(i as int).push(
                    next@,
                ));
                assert(item_contents(rows@) =~= local_rows() + agent_rows(names).take(i + 1));
            }
            i = i + 1;
        }
        assert(agent_rows(names).take(i as int) =~= agent_rows(names));
        rows
    }

    /// The rows of the palette for what stands in the prompt.
    pub fn palette(&self, text: &str) -> (shown: Vec<PaletteRow>)
        requires
            self.wf(),
        ensures
            item_contents(shown@) == palette_of(self@, text@),
    {
        let mut shown: Vec<PaletteRow> = Vec::new();
        assert(item_contents(shown@) =~= Seq::empty());
        if !is_begun(text) {
            return shown;
        }
        let rows = self.palette_candidates();
        let typed = to_lower(text);
        let mut i: usize = 0;
        while i < rows.len()
            invariant
                i <= rows@.len(),
                item_contents(rows@) == all_rows(self@),
                typed@ == lower(text@),
                item_contents(shown@) == matching(all_rows(self@), lower(text@), i as int),
            decreases rows@.len() - i,
        {
            assert(item_contents(rows@)[i as int] == rows@[i as int]@);
            if has_prefix(rows[i].command.as_str(), typed.as_str()) {
                let shown_row = row(rows[i].command.as_str(), rows[i].description.as_str());
                assert(shown_row@ == rows@[i as int]@);
                shown.push(shown_row);
            }
            i = i + 1;
        }
        assert(all_rows(self@).len() == rows@.len());
        shown
    }
}

} // verus!
