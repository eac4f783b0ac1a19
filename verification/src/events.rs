//! The normalized vocabulary in which agents report to the conversation.

use crate::order::item_contents;
use crate::text::{optional, same, strings};
use vstd::prelude::*;

verus! {

/// Values that can be compared by what they hold.
pub trait Same: View {
    fn same(&self, other: &Self) -> (equal: bool)
        ensures
            equal == (self@ == other@),
    ;
}

impl Same for String {
    fn same(&self, other: &Self) -> (equal: bool) {
        same(self.as_str(), other.as_str())
    }
}

/// Whether two lists hold the same, item by item.
pub fn same_list<T: Same>(left: &Vec<T>, right: &Vec<T>) -> (equal: bool)
    ensures
        equal == (item_contents(left@) == item_contents(right@)),
{
    if left.len() != right.len() {
        assert(item_contents(left@).len() != item_contents(right@).len());
        return false;
    }
    let mut i: usize = 0;
    while i < left.len()
        invariant
            i <= left@.len(),
            left@.len() == right@.len(),
            forall|j: int| 0 <= j < i ==> (#[trigger] left@[j])@ == right@[j]@,
        decreases left@.len() - i,
    {
        if !left[i].same(&right[i]) {
            assert(item_contents(left@)[i as int] != item_contents(right@)[i as int]);
            return false;
        }
        i = i + 1;
    }
    assert(item_contents(left@) =~= item_contents(right@));
    true
}

/// Whether two lists of strings hold the same.
pub fn same_strings(left: &Vec<String>, right: &Vec<String>) -> (equal: bool)
    ensures
        equal == (strings(left@) == strings(right@)),
{
    if left.len() != right.len() {
        assert(strings(left@).len() != strings(right@).len());
        return false;
    }
    let mut i: usize = 0;
    while i < left.len()
        invariant
            i <= left@.len(),
            left@.len() == right@.len(),
            forall|j: int| 0 <= j < i ==> (#[trigger] left@[j])@ == right@[j]@,
        decreases left@.len() - i,
    {
        if left[i] != right[i] {
            assert(strings(left@)[i as int] != strings(right@)[i as int]);
            return false;
        }
        i = i + 1;
    }
    assert(strings(left@) =~= strings(right@));
    true
}

/// Whether two optional strings hold the same.
pub fn same_optional(left: &Option<String>, right: &Option<String>) -> (equal: bool)
    ensures
        equal == (optional(*left) == optional(*right)),
{
    match (left, right) {
        (Some(l), Some(r)) => *l == *r,
        (None, None) => true,
        _ => false,
    }
}

/// A copy of an optional string.
pub fn copy_optional(value: &Option<String>) -> (copy: Option<String>)
    ensures
        optional(copy) == optional(*value),
{
    match value {
        Some(text) => Some(text.clone()),
        None => None,
    }
}

/// A copy of a list of strings.
pub fn copy_strings(list: &Vec<String>) -> (copy: Vec<String>)
    ensures
        strings(copy@) == strings(list@),
{
    broadcast use crate::text::lemma_strings_push;

    let mut copy: Vec<String> = Vec::new();
    let mut i: usize = 0;
    assert(strings(copy@) =~= strings(list@).take(0));
    while i < list.len()
        invariant
            i <= list@.len(),
            strings(copy@) == strings(list@).take(i as int),
        decreases list@.len() - i,
    {
        copy.push(list[i].clone());
        assert(strings(list@).take(i + 1) =~= strings(list@).take(i as int).push(list@[i as int]@));
        i = i + 1;
    }
    assert(strings(list@).take(i as int) =~= strings(list@));
    copy
}

/// What an agent can do.
#[derive(Clone, Copy, Debug, Eq, PartialEq, Structural)]
pub struct AgentCapabilities {
    pub supports_cancel: bool,
    pub supports_modes: bool,
    pub supports_models: bool,
    pub supports_terminals: bool,
    pub supports_session_load: bool,
}

impl Default for AgentCapabilities {
    fn default() -> (capabilities: Self)
        ensures
            capabilities == (AgentCapabilities {
                supports_cancel: false,
                supports_modes: false,
                supports_models: false,
                supports_terminals: false,
                supports_session_load: false,
            }),
    {
        AgentCapabilities {
            supports_cancel: false,
            supports_modes: false,
            supports_models: false,
            supports_terminals: false,
            supports_session_load: false,
        }
    }
}

/// A mode that an agent offers.
#[derive(Clone, Debug, Eq, PartialEq)]
pub struct Mode {
    pub id: String,
    pub label: String,
}

pub struct ModeView {
    pub id: Seq<char>,
    pub label: Seq<char>,
}

impl View for Mode {
    type V = ModeView;

    open spec fn view(&self) -> ModeView {
        ModeView { id: self.id@, label: self.label@ }
    }
}

impl Same for Mode {
    fn same(&self, other: &Self) -> (equal: bool) {
        self.id == other.id && self.label == other.label
    }
}

impl Mode {
    pub fn copy(&self) -> (mode: Mode)
        ensures
            mode@ == self@,
    {
        Mode { id: self.id.clone(), label: self.label.clone() }
    }
}

/// A copy of a list of modes.
pub fn copy_modes(list: &Vec<Mode>) -> (copy: Vec<Mode>)
    ensures
        item_contents(copy@) == item_contents(list@),
{
    let mut copy: Vec<Mode> = Vec::new();
    let mut i: usize = 0;
    while i < list.len()
        invariant
            i <= list@.len(),
            copy@.len() == i,
            forall|j: int| 0 <= j < i ==> (#[trigger] copy@[j])@ == list@[j]@,
        decreases list@.len() - i,
    {
        copy.push(list[i].copy());
        i = i + 1;
    }
    assert(item_contents(copy@) =~= item_contents(list@));
    copy
}

/// A command that an agent advertises.
#[derive(Clone, Debug, Eq, PartialEq)]
pub struct AgentCommand {
    pub name: String,
}

impl View for AgentCommand {
    type V = Seq<char>;

    open spec fn view(&self) -> Seq<char> {
        self.name@
    }
}

impl Same for AgentCommand {
    fn same(&self, other: &Self) -> (equal: bool) {
        self.name == other.name
    }
}

/// A copy of a list of commands.
pub fn copy_commands(list: &Vec<AgentCommand>) -> (copy: Vec<AgentCommand>)
    ensures
        item_contents(copy@) == item_contents(list@),
{
    let mut copy: Vec<AgentCommand> = Vec::new();
    let mut i: usize = 0;
    while i < list.len()
        invariant
            i <= list@.len(),
            copy@.len() == i,
            forall|j: int| 0 <= j < i ==> (#[trigger] copy@[j])@ == list@[j]@,
        decreases list@.len() - i,
    {
        copy.push(AgentCommand { name: list[i].name.clone() });
        i = i + 1;
    }
    assert(item_contents(copy@) =~= item_contents(list@));
    copy
}

/// How much of its context an agent has used.
#[derive(Clone, Copy, Debug, Eq, PartialEq, Structural)]
pub struct UsageUpdate {
    pub used: u64,
    pub size: u64,
}

#[derive(Clone, Copy, Debug, Eq, PartialEq, Structural)]
pub enum ToolStatus {
    Pending,
    Running,
    Completed,
    Failed,
}

/// The state of one tool call.
#[derive(Clone, Debug, Eq, PartialEq)]
pub struct ToolUpdate {
    pub id: String,
    pub title: String,
    pub status: ToolStatus,
    pub detail: Option<String>,
}

pub struct ToolView {
    pub id: Seq<char>,
    pub title: Seq<char>,
    pub status: ToolStatus,
    pub detail: Option<Seq<char>>,
}

impl View for ToolUpdate {
    type V = ToolView;

    open spec fn view(&self) -> ToolView {
        ToolView {
            id: self.id@,
            title: self.title@,
            status: self.status,
            detail: optional(self.detail),
        }
    }
}

impl Same for ToolUpdate {
    fn same(&self, other: &Self) -> (equal: bool) {
        self.id == other.id && self.title == other.title && self.status == other.status
            && same_optional(&self.detail, &other.detail)
    }
}

impl ToolUpdate {
    pub fn copy(&self) -> (update: ToolUpdate)
        ensures
            update@ == self@,
    {
        ToolUpdate {
            id: self.id.clone(),
            title: self.title.clone(),
            status: self.status,
            detail: copy_optional(&self.detail),
        }
    }
}

/// A question that an agent waits on.
#[derive(Clone, Debug, Eq, PartialEq)]
pub struct PermissionRequest {
    pub id: String,
    pub title: String,
    pub options: Vec<String>,
    pub option_ids: Vec<String>,
}

pub struct RequestView {
    pub id: Seq<char>,
    pub title: Seq<char>,
    pub options: Seq<Seq<char>>,
    pub option_ids: Seq<Seq<char>>,
}

impl View for PermissionRequest {
    type V = RequestView;

    open spec fn view(&self) -> RequestView {
        RequestView {
            id: self.id@,
            title: self.title@,
            options: strings(self.options@),
            option_ids: strings(self.option_ids@),
        }
    }
}

impl Same for PermissionRequest {
    fn same(&self, other: &Self) -> (equal: bool) {
        self.id == other.id && self.title == other.title && same_strings(
            &self.options,
            &other.options,
        ) && same_strings(&self.option_ids, &other.option_ids)
    }
}

/// The life of a terminal that an agent runs.
#[derive(Clone, Debug, Eq, PartialEq)]
pub enum TerminalEvent {
    Created { id: String, command: String },
    Output { id: String, text: String },
    Exited { id: String, code: i32 },
    Released { id: String },
}

pub enum TerminalView {
    Created { id: Seq<char>, command: Seq<char> },
    Output { id: Seq<char>, text: Seq<char> },
    Exited { id: Seq<char>, code: i32 },
    Released { id: Seq<char> },
}

impl View for TerminalEvent {
    type V = TerminalView;

    open spec fn view(&self) -> TerminalView {
        match self {
            TerminalEvent::Created { id, command } => TerminalView::Created {
                id: id@,
                command: command@,
            },
            TerminalEvent::Output { id, text } => TerminalView::Output { id: id@, text: text@ },
            TerminalEvent::Exited { id, code } => TerminalView::Exited { id: id@, code: *code },
            TerminalEvent::Released { id } => TerminalView::Released { id: id@ },
        }
    }
}

impl Same for TerminalEvent {
    fn same(&self, other: &Self) -> (equal: bool) {
        match (self, other) {
            (
                TerminalEvent::Created { id, command },
                TerminalEvent::Created { id: id2, command: command2 },
            ) => *id == *id2 && *command == *command2,
            (TerminalEvent::Output { id, text }, TerminalEvent::Output { id: id2, text: text2 }) => *id
                == *id2 && *text == *text2,
            (TerminalEvent::Exited { id, code }, TerminalEvent::Exited { id: id2, code: code2 }) => *id
                == *id2 && *code == *code2,
            (TerminalEvent::Released { id }, TerminalEvent::Released { id: id2 }) => *id == *id2,
            _ => false,
        }
    }
}

/// A change of the roster that the coordinator has confirmed or refused.
#[derive(Clone, Debug, Eq, PartialEq)]
pub enum RosterUpdate {
    Added { slot: usize, name: String, identity: String },
    Reloaded { slot: usize },
    Dropped { slot: usize },
    Promoted { from: usize },
    Swapped { first: usize, second: usize },
    Rejected { action: String, detail: String },
}

pub enum RosterUpdateView {
    Added { slot: usize, name: Seq<char>, identity: Seq<char> },
    Reloaded { slot: usize },
    Dropped { slot: usize },
    Promoted { from: usize },
    Swapped { first: usize, second: usize },
    Rejected { action: Seq<char>, detail: Seq<char> },
}

impl View for RosterUpdate {
    type V = RosterUpdateView;

    open spec fn view(&self) -> RosterUpdateView {
        match self {
            RosterUpdate::Added { slot, name, identity } => RosterUpdateView::Added {
                slot: *slot,
                name: name@,
                identity: identity@,
            },
            RosterUpdate::Reloaded { slot } => RosterUpdateView::Reloaded { slot: *slot },
            RosterUpdate::Dropped { slot } => RosterUpdateView::Dropped { slot: *slot },
            RosterUpdate::Promoted { from } => RosterUpdateView::Promoted { from: *from },
            RosterUpdate::Swapped { first, second } => RosterUpdateView::Swapped {
                first: *first,
                second: *second,
            },
            RosterUpdate::Rejected { action, detail } => RosterUpdateView::Rejected {
                action: action@,
                detail: detail@,
            },
        }
    }
}

impl Same for RosterUpdate {
    fn same(&self, other: &Self) -> (equal: bool) {
        match (self, other) {
            (
                RosterUpdate::Added { slot, name, identity },
                RosterUpdate::Added { slot: slot2, name: name2, identity: identity2 },
            ) => *slot == *slot2 && *name == *name2 && *identity == *identity2,
            (RosterUpdate::Reloaded { slot }, RosterUpdate::Reloaded { slot: slot2 }) => *slot
                == *slot2,
            (RosterUpdate::Dropped { slot }, RosterUpdate::Dropped { slot: slot2 }) => *slot
                == *slot2,
            (RosterUpdate::Promoted { from }, RosterUpdate::Promoted { from: from2 }) => *from
                == *from2,
            (
                RosterUpdate::Swapped { first, second },
                RosterUpdate::Swapped { first: first2, second: second2 },
            ) => *first == *first2 && *second == *second2,
            (
                RosterUpdate::Rejected { action, detail },
                RosterUpdate::Rejected { action: action2, detail: detail2 },
            ) => *action == *action2 && *detail == *detail2,
            _ => false,
        }
    }
}

/// Something that a saved conversation shows again.
#[derive(Clone, Debug, Eq, PartialEq)]
pub enum HistoryContent {
    UserText(String),
    Text(String),
    Thought(String),
    Tool(ToolUpdate),
}

pub enum HistoryView {
    UserText(Seq<char>),
    Text(Seq<char>),
    Thought(Seq<char>),
    Tool(ToolView),
}

impl View for HistoryContent {
    type V = HistoryView;

    open spec fn view(&self) -> HistoryView {
        match self {
            HistoryContent::UserText(text) => HistoryView::UserText(text@),
            HistoryContent::Text(text) => HistoryView::Text(text@),
            HistoryContent::Thought(text) => HistoryView::Thought(text@),
            HistoryContent::Tool(update) => HistoryView::Tool(update@),
        }
    }
}

impl Same for HistoryContent {
    fn same(&self, other: &Self) -> (equal: bool) {
        match (self, other) {
            (HistoryContent::UserText(l), HistoryContent::UserText(r)) => *l == *r,
            (HistoryContent::Text(l), HistoryContent::Text(r)) => *l == *r,
            (HistoryContent::Thought(l), HistoryContent::Thought(r)) => *l == *r,
            (HistoryContent::Tool(l), HistoryContent::Tool(r)) => l.same(r),
            _ => false,
        }
    }
}

/// What an agent, or the coordinator on its behalf, reports.
#[derive(Clone, Debug, Eq, PartialEq)]
pub enum AgentEvent {
    Ready { slot: usize, capabilities: AgentCapabilities },
    ModesReplaced { slot: usize, modes: Vec<Mode>, current_mode: Option<String> },
    ModeUpdated { slot: usize, current_mode: String },
    ModelsReplaced {
        slot: usize,
        config_id: String,
        models: Vec<String>,
        current_model: Option<String>,
    },
    ModelUpdated { slot: usize, current_model: String },
    CommandsReplaced { slot: usize, commands: Vec<AgentCommand> },
    UsageUpdated { slot: usize, usage: UsageUpdate },
    UserText { slot: usize, text: String },
    Text { slot: usize, text: String },
    Thought { slot: usize, text: String },
    Tool { slot: usize, update: ToolUpdate },
    History { slot: usize, content: HistoryContent },
    Permission { slot: usize, request: PermissionRequest },
    Terminal { slot: usize, event: TerminalEvent },
    TurnStarted { slot: usize },
    TurnComplete { slot: usize },
    /// The whole relay batch is done, with the seconds that each agent worked.
    BatchComplete { elapsed: Vec<u64> },
    UsageLimitReached { slot: usize, detail: String },
    Failed { slot: usize, started: bool, detail: String },
    RosterUpdated { update: RosterUpdate },
}

/// What an event holds.
pub enum AgentEventView {
    Ready { slot: usize, capabilities: AgentCapabilities },
    ModesReplaced { slot: usize, modes: Seq<ModeView>, current_mode: Option<Seq<char>> },
    ModeUpdated { slot: usize, current_mode: Seq<char> },
    ModelsReplaced {
        slot: usize,
        config_id: Seq<char>,
        models: Seq<Seq<char>>,
        current_model: Option<Seq<char>>,
    },
    ModelUpdated { slot: usize, current_model: Seq<char> },
    CommandsReplaced { slot: usize, commands: Seq<Seq<char>> },
    UsageUpdated { slot: usize, usage: UsageUpdate },
    UserText { slot: usize, text: Seq<char> },
    Text { slot: usize, text: Seq<char> },
    Thought { slot: usize, text: Seq<char> },
    Tool { slot: usize, update: ToolView },
    History { slot: usize, content: HistoryView },
    Permission { slot: usize, request: RequestView },
    Terminal { slot: usize, event: TerminalView },
    TurnStarted { slot: usize },
    TurnComplete { slot: usize },
    BatchComplete { elapsed: Seq<u64> },
    UsageLimitReached { slot: usize, detail: Seq<char> },
    Failed { slot: usize, started: bool, detail: Seq<char> },
    RosterUpdated { update: RosterUpdateView },
}

impl View for AgentEvent {
    type V = AgentEventView;

    open spec fn view(&self) -> AgentEventView {
        match self {
            AgentEvent::Ready { slot, capabilities } => AgentEventView::Ready {
                slot: *slot,
                capabilities: *capabilities,
            },
            AgentEvent::ModesReplaced { slot, modes, current_mode } => AgentEventView::ModesReplaced {
                slot: *slot,
                modes: item_contents(modes@),
                current_mode: optional(*current_mode),
            },
            AgentEvent::ModeUpdated { slot, current_mode } => AgentEventView::ModeUpdated {
                slot: *slot,
                current_mode: current_mode@,
            },
            AgentEvent::ModelsReplaced { slot, config_id, models, current_model } =>
            AgentEventView::ModelsReplaced {
                slot: *slot,
                config_id: config_id@,
                models: strings(models@),
                current_model: optional(*current_model),
            },
            AgentEvent::ModelUpdated { slot, current_model } => AgentEventView::ModelUpdated {
                slot: *slot,
                current_model: current_model@,
            },
            AgentEvent::CommandsReplaced { slot, commands } => AgentEventView::CommandsReplaced {
                slot: *slot,
                commands: item_contents(commands@),
            },
            AgentEvent::UsageUpdated { slot, usage } => AgentEventView::UsageUpdated {
                slot: *slot,
                usage: *usage,
            },
            AgentEvent::UserText { slot, text } => AgentEventView::UserText {
                slot: *slot,
                text: text@,
            },
            AgentEvent::Text { slot, text } => AgentEventView::Text { slot: *slot, text: text@ },
            AgentEvent::Thought { slot, text } => AgentEventView::Thought {
                slot: *slot,
                text: text@,
            },
            AgentEvent::Tool { slot, update } => AgentEventView::Tool {
                slot: *slot,
                update: update@,
            },
            AgentEvent::History { slot, content } => AgentEventView::History {
                slot: *slot,
                content: content@,
            },
            AgentEvent::Permission { slot, request } => AgentEventView::Permission {
                slot: *slot,
                request: request@,
            },
            AgentEvent::Terminal { slot, event } => AgentEventView::Terminal {
                slot: *slot,
                event: event@,
            },
            AgentEvent::TurnStarted { slot } => AgentEventView::TurnStarted { slot: *slot },
            AgentEvent::TurnComplete { slot } => AgentEventView::TurnComplete { slot: *slot },
            AgentEvent::BatchComplete { elapsed } => AgentEventView::BatchComplete {
                elapsed: elapsed@,
            },
            AgentEvent::UsageLimitReached { slot, detail } => AgentEventView::UsageLimitReached {
                slot: *slot,
                detail: detail@,
            },
            AgentEvent::Failed { slot, started, detail } => AgentEventView::Failed {
                slot: *slot,
                started: *started,
                detail: detail@,
            },
            AgentEvent::RosterUpdated { update } => AgentEventView::RosterUpdated {
                update: update@,
            },
        }
    }
}

fn same_numbers(left: &Vec<u64>, right: &Vec<u64>) -> (equal: bool)
    ensures
        equal == (left@ == right@),
{
    if left.len() != right.len() {
        return false;
    }
    let mut i: usize = 0;
    while i < left.len()
        invariant
            i <= left@.len(),
            left@.len() == right@.len(),
            forall|j: int| 0 <= j < i ==> left@[j] == right@[j],
        decreases left@.len() - i,
    {
        if left[i] != right[i] {
            return false;
        }
        i = i + 1;
    }
    assert(left@ =~= right@);
    true
}

impl Same for AgentEvent {
    fn same(&self, other: &Self) -> (equal: bool) {
        match (self, other) {
            (
                AgentEvent::Ready { slot, capabilities },
                AgentEvent::Ready { slot: s, capabilities: c },
            ) => *slot == *s && *capabilities == *c,
            (
                AgentEvent::ModesReplaced { slot, modes, current_mode },
                AgentEvent::ModesReplaced { slot: s, modes: m, current_mode: c },
            ) => *slot == *s && same_list(modes, m) && same_optional(current_mode, c),
            (
                AgentEvent::ModeUpdated { slot, current_mode },
                AgentEvent::ModeUpdated { slot: s, current_mode: c },
            ) => *slot == *s && *current_mode == *c,
            (
                AgentEvent::ModelsReplaced { slot, config_id, models, current_model },
                AgentEvent::ModelsReplaced {
                    slot: s,
                    config_id: i,
                    models: m,
                    current_model: c,
                },
            ) => *slot == *s && *config_id == *i && same_strings(models, m) && same_optional(
                current_model,
                c,
            ),
            (
                AgentEvent::ModelUpdated { slot, current_model },
                AgentEvent::ModelUpdated { slot: s, current_model: c },
            ) => *slot == *s && *current_model == *c,
            (
                AgentEvent::CommandsReplaced { slot, commands },
                AgentEvent::CommandsReplaced { slot: s, commands: c },
            ) => *slot == *s && same_list(commands, c),
            (
                AgentEvent::UsageUpdated { slot, usage },
                AgentEvent::UsageUpdated { slot: s, usage: u },
            ) => *slot == *s && *usage == *u,
            (AgentEvent::UserText { slot, text }, AgentEvent::UserText { slot: s, text: t }) => *slot
                == *s && *text == *t,
            (AgentEvent::Text { slot, text }, AgentEvent::Text { slot: s, text: t }) => *slot == *s
                && *text == *t,
            (AgentEvent::Thought { slot, text }, AgentEvent::Thought { slot: s, text: t }) => *slot
                == *s && *text == *t,
            (AgentEvent::Tool { slot, update }, AgentEvent::Tool { slot: s, update: u }) => *slot
                == *s && update.same(u),
            (
                AgentEvent::History { slot, content },
                AgentEvent::History { slot: s, content: c },
            ) => *slot == *s && content.same(c),
            (
                AgentEvent::Permission { slot, request },
                AgentEvent::Permission { slot: s, request: r },
            ) => *slot == *s && request.same(r),
            (AgentEvent::Terminal { slot, event }, AgentEvent::Terminal { slot: s, event: e }) =>
            *slot == *s && event.same(e),
            (AgentEvent::TurnStarted { slot }, AgentEvent::TurnStarted { slot: s }) => *slot == *s,
            (AgentEvent::TurnComplete { slot }, AgentEvent::TurnComplete { slot: s }) => *slot
                == *s,
            (AgentEvent::BatchComplete { elapsed }, AgentEvent::BatchComplete { elapsed: e }) =>
            same_numbers(elapsed, e),
            (
                AgentEvent::UsageLimitReached { slot, detail },
                AgentEvent::UsageLimitReached { slot: s, detail: d },
            ) => *slot == *s && *detail == *d,
            (
                AgentEvent::Failed { slot, started, detail },
                AgentEvent::Failed { slot: s, started: st, detail: d },
            ) => *slot == *s && *started == *st && *detail == *d,
            (AgentEvent::RosterUpdated { update }, AgentEvent::RosterUpdated { update: u }) =>
            update.same(u),
            _ => false,
        }
    }
}

impl PermissionRequest {
    pub fn copy(&self) -> (request: PermissionRequest)
        ensures
            request@ == self@,
    {
        PermissionRequest {
            id: self.id.clone(),
            title: self.title.clone(),
            options: copy_strings(&self.options),
            option_ids: copy_strings(&self.option_ids),
        }
    }
}

impl TerminalEvent {
    pub fn copy(&self) -> (event: TerminalEvent)
        ensures
            event@ == self@,
    {
        match self {
            TerminalEvent::Created { id, command } => TerminalEvent::Created {
                id: id.clone(),
                command: command.clone(),
            },
            TerminalEvent::Output { id, text } => TerminalEvent::Output {
                id: id.clone(),
                text: text.clone(),
            },
            TerminalEvent::Exited { id, code } => TerminalEvent::Exited {
                id: id.clone(),
                code: *code,
            },
            TerminalEvent::Released { id } => TerminalEvent::Released { id: id.clone() },
        }
    }
}

impl RosterUpdate {
    pub fn copy(&self) -> (update: RosterUpdate)
        ensures
            update@ == self@,
    {
        match self {
            RosterUpdate::Added { slot, name, identity } => RosterUpdate::Added {
                slot: *slot,
                name: name.clone(),
                identity: identity.clone(),
            },
            RosterUpdate::Reloaded { slot } => RosterUpdate::Reloaded { slot: *slot },
            RosterUpdate::Dropped { slot } => RosterUpdate::Dropped { slot: *slot },
            RosterUpdate::Promoted { from } => RosterUpdate::Promoted { from: *from },
            RosterUpdate::Swapped { first, second } => RosterUpdate::Swapped {
                first: *first,
                second: *second,
            },
            RosterUpdate::Rejected { action, detail } => RosterUpdate::Rejected {
                action: action.clone(),
                detail: detail.clone(),
            },
        }
    }
}

impl HistoryContent {
    pub fn copy(&self) -> (content: HistoryContent)
        ensures
            content@ == self@,
    {
        match self {
            HistoryContent::UserText(text) => HistoryContent::UserText(text.clone()),
            HistoryContent::Text(text) => HistoryContent::Text(text.clone()),
            HistoryContent::Thought(text) => HistoryContent::Thought(text.clone()),
            HistoryContent::Tool(update) => HistoryContent::Tool(update.copy()),
        }
    }
}

fn copy_numbers(list: &Vec<u64>) -> (copy: Vec<u64>)
    ensures
        copy@ == list@,
{
    let mut copy: Vec<u64> = Vec::new();
    let mut i: usize = 0;
    while i < list.len()
        invariant
            i <= list@.len(),
            copy@ == list@.take(i as int),
        decreases list@.len() - i,
    {
        copy.push(list[i]);
        i = i + 1;
        assert(copy@ =~= list@.take(i as int));
    }
    assert(list@.take(i as int) =~= list@);
    copy
}

impl AgentEvent {
    /// A copy of the event with the same contents.
    pub fn copy(&self) -> (event: AgentEvent)
        ensures
            event@ == self@,
    {
        match self {
            AgentEvent::Ready { slot, capabilities } => AgentEvent::Ready {
                slot: *slot,
                capabilities: *capabilities,
            },
            AgentEvent::ModesReplaced { slot, modes, current_mode } => AgentEvent::ModesReplaced {
                slot: *slot,
                modes: copy_modes(modes),
                current_mode: copy_optional(current_mode),
            },
            AgentEvent::ModeUpdated { slot, current_mode } => AgentEvent::ModeUpdated {
                slot: *slot,
                current_mode: current_mode.clone(),
            },
            AgentEvent::ModelsReplaced { slot, config_id, models, current_model } =>
            AgentEvent::ModelsReplaced {
                slot: *slot,
                config_id: config_id.clone(),
                models: copy_strings(models),
                current_model: copy_optional(current_model),
            },
            AgentEvent::ModelUpdated { slot, current_model } => AgentEvent::ModelUpdated {
                slot: *slot,
                current_model: current_model.clone(),
            },
            AgentEvent::CommandsReplaced { slot, commands } => AgentEvent::CommandsReplaced {
                slot: *slot,
                commands: copy_commands(commands),
            },
            AgentEvent::UsageUpdated { slot, usage } => AgentEvent::UsageUpdated {
                slot: *slot,
                usage: *usage,
            },
            AgentEvent::UserText { slot, text } => AgentEvent::UserText {
                slot: *slot,
                text: text.clone(),
            },
            AgentEvent::Text { slot, text } => AgentEvent::Text { slot: *slot, text: text.clone() },
            AgentEvent::Thought { slot, text } => AgentEvent::Thought {
                slot: *slot,
                text: text.clone(),
            },
            AgentEvent::Tool { slot, update } => AgentEvent::Tool {
                slot: *slot,
                update: update.copy(),
            },
            AgentEvent::History { slot, content } => AgentEvent::History {
                slot: *slot,
                content: content.copy(),
            },
            AgentEvent::Permission { slot, request } => AgentEvent::Permission {
                slot: *slot,
                request: request.copy(),
            },
            AgentEvent::Terminal { slot, event } => AgentEvent::Terminal {
                slot: *slot,
                event: event.copy(),
            },
            AgentEvent::TurnStarted { slot } => AgentEvent::TurnStarted { slot: *slot },
            AgentEvent::TurnComplete { slot } => AgentEvent::TurnComplete { slot: *slot },
            AgentEvent::BatchComplete { elapsed } => AgentEvent::BatchComplete {
                elapsed: copy_numbers(elapsed),
            },
            AgentEvent::UsageLimitReached { slot, detail } => AgentEvent::UsageLimitReached {
                slot: *slot,
                detail: detail.clone(),
            },
            AgentEvent::Failed { slot, started, detail } => AgentEvent::Failed {
                slot: *slot,
                started: *started,
                detail: detail.clone(),
            },
            AgentEvent::RosterUpdated { update } => AgentEvent::RosterUpdated {
                update: update.copy(),
            },
        }
    }
}

} // verus!
