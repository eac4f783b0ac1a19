//! The permission prompt: one pending question of an agent.

use crate::events::{copy_strings, PermissionRequest, RequestView};
use crate::text::strings;
use vstd::prelude::*;

verus! {

/// Keyboard actions understood by the focused permission prompt. A frontend maps its
/// native key events to this small vocabulary.
#[derive(Clone, Copy, Debug, Eq, PartialEq, Structural)]
pub enum PermissionKey {
    Up,
    Down,
    Confirm,
    Cancel,
}

/// Result of handling one focused permission key.
#[derive(Clone, Debug, Eq, PartialEq)]
pub enum PermissionAction {
    Ignored,
    SelectionChanged { index: usize },
    Answer {
        slot: usize,
        request_id: String,
        option_index: usize,
        option: String,
        option_id: String,
    },
    Cancel { slot: usize, request_id: String },
}

pub enum PermissionActionView {
    Ignored,
    SelectionChanged { index: usize },
    Answer {
        slot: usize,
        request_id: Seq<char>,
        option_index: usize,
        option: Seq<char>,
        option_id: Seq<char>,
    },
    Cancel { slot: usize, request_id: Seq<char> },
}

impl View for PermissionAction {
    type V = PermissionActionView;

    open spec fn view(&self) -> PermissionActionView {
        match self {
            PermissionAction::Ignored => PermissionActionView::Ignored,
            PermissionAction::SelectionChanged { index } => PermissionActionView::SelectionChanged {
                index: *index,
            },
            PermissionAction::Answer { slot, request_id, option_index, option, option_id } =>
            PermissionActionView::Answer {
                slot: *slot,
                request_id: request_id@,
                option_index: *option_index,
                option: option@,
                option_id: option_id@,
            },
            PermissionAction::Cancel { slot, request_id } => PermissionActionView::Cancel {
                slot: *slot,
                request_id: request_id@,
            },
        }
    }
}

/// One pending permission request.
///
/// The request is copied from the normalized event, and the selected index remains
/// deterministic until the person confirms or cancels the request.
#[derive(Clone, Debug, Eq, PartialEq)]
pub struct PermissionPrompt {
    pub slot: usize,
    pub request_id: String,
    pub title: String,
    pub options: Vec<String>,
    pub option_ids: Vec<String>,
    selected: usize,
}

pub struct PermissionView {
    pub slot: usize,
    pub request_id: Seq<char>,
    pub title: Seq<char>,
    pub options: Seq<Seq<char>>,
    pub option_ids: Seq<Seq<char>>,
    pub selected: usize,
}

impl View for PermissionPrompt {
    type V = PermissionView;

    closed spec fn view(&self) -> PermissionView {
        PermissionView {
            slot: self.slot,
            request_id: self.request_id@,
            title: self.title@,
            options: strings(self.options@),
            option_ids: strings(self.option_ids@),
            selected: self.selected,
        }
    }
}

/// The prompt for a request: its first option is selected.
pub open spec fn prompt_for(slot: usize, request: RequestView) -> PermissionView {
    PermissionView {
        slot,
        request_id: request.id,
        title: request.title,
        options: request.options,
        option_ids: request.option_ids,
        selected: 0,
    }
}

/// The selection one step down or up, within the options.
pub open spec fn stepped(prompt: PermissionView, down: bool) -> usize {
    let last = prompt.options.len() - 1;
    if prompt.options.len() == 0 {
        prompt.selected
    } else if down {
        if prompt.selected < last {
            (prompt.selected + 1) as usize
        } else {
            last as usize
        }
    } else if prompt.selected > 0 {
        (prompt.selected - 1) as usize
    } else {
        0
    }
}

/// The answer that the selected option stands for: its identifier, or the option
/// itself where it has none.
pub open spec fn answer_of(prompt: PermissionView) -> Option<PermissionActionView> {
    let k = prompt.selected as int;
    if k < prompt.options.len() {
        Some(
            PermissionActionView::Answer {
                slot: prompt.slot,
                request_id: prompt.request_id,
                option_index: prompt.selected,
                option: prompt.options[k],
                option_id: if k < prompt.option_ids.len() && prompt.option_ids[k].len() > 0 {
                    prompt.option_ids[k]
                } else {
                    prompt.options[k]
                },
            },
        )
    } else {
        None
    }
}

/// What a key does to the prompt, if it stays, and the action.
pub open spec fn permission_response(prompt: PermissionView, key: PermissionKey) -> (
    Option<PermissionView>,
    PermissionActionView,
) {
    match key {
        PermissionKey::Confirm => match answer_of(prompt) {
            Some(answer) => (None, answer),
            None => (Some(prompt), PermissionActionView::Ignored),
        },
        PermissionKey::Cancel => (
            None,
            PermissionActionView::Cancel { slot: prompt.slot, request_id: prompt.request_id },
        ),
        _ => {
            let next = stepped(prompt, key == PermissionKey::Down);
            (
                Some(PermissionView { selected: next, ..prompt }),
                if next != prompt.selected {
                    PermissionActionView::SelectionChanged { index: next }
                } else {
                    PermissionActionView::Ignored
                },
            )
        },
    }
}

/// What is confirmed is the option that is selected, for the agent and the question that
/// asked; a cancellation goes there too. Keys move the selection one option at a time and
/// change nothing else of the question.
pub proof fn law_the_selected_option_is_the_answer(prompt: PermissionView)
    requires
        prompt.selected < prompt.options.len() <= usize::MAX,
    ensures
        permission_response(prompt, PermissionKey::Confirm).1 matches PermissionActionView::Answer {
            slot,
            request_id,
            option_index,
            option,
            option_id,
        } && slot == prompt.slot && request_id == prompt.request_id && option_index
            == prompt.selected && option == prompt.options[prompt.selected as int] && (
        prompt.selected < prompt.option_ids.len() && prompt.option_ids[prompt.selected as int].len()
            > 0 ==> option_id == prompt.option_ids[prompt.selected as int]) && (prompt.selected
            >= prompt.option_ids.len() ==> option_id == option),
        permission_response(prompt, PermissionKey::Cancel).1 == (PermissionActionView::Cancel {
            slot: prompt.slot,
            request_id: prompt.request_id,
        }),
        permission_response(prompt, PermissionKey::Down).0 matches Some(after) && after
            == (PermissionView { selected: after.selected, ..prompt }) && after.selected == (
        if prompt.selected + 1 < prompt.options.len() {
            prompt.selected + 1
        } else {
            prompt.selected as int
        }),
        permission_response(prompt, PermissionKey::Up).0 matches Some(after) && after
            == (PermissionView { selected: after.selected, ..prompt }) && after.selected == (
        if prompt.selected > 0 {
            prompt.selected - 1
        } else {
            0
        }),
{
}

/// A decision clears the prompt, so that the same decision cannot be submitted twice;
/// nothing else does.
pub proof fn law_decisions_clear_the_prompt(prompt: PermissionView, key: PermissionKey)
    ensures
        permission_response(prompt, key).0 is None <==> (permission_response(prompt, key).1 is Answer
            || permission_response(prompt, key).1 is Cancel),
{
}

impl PermissionPrompt {
    pub fn new(slot: usize, request: &PermissionRequest) -> (prompt: Self)
        ensures
            prompt@ == prompt_for(slot, request@),
    {
        PermissionPrompt {
            slot,
            request_id: request.id.clone(),
            title: request.title.clone(),
            options: copy_strings(&request.options),
            option_ids: copy_strings(&request.option_ids),
            selected: 0,
        }
    }

    pub fn selected_index(&self) -> (index: usize)
        ensures
            index == self@.selected,
    {
        self.selected
    }

    pub fn selected_option(&self) -> (option: Option<&str>)
        ensures
            match option {
                Some(text) => self@.selected < self@.options.len()
                    && self@.options[self@.selected as int] == text@,
                None => self@.selected >= self@.options.len(),
            },
    {
        if self.selected < self.options.len() {
            assert(self@.options[self.selected as int] == self.options@[self.selected as int]@);
            Some(self.options[self.selected].as_str())
        } else {
            None
        }
    }

    /// What is asked.
    pub fn asked(&self) -> (title: &str)
        ensures
            title@ == self@.title,
    {
        self.title.as_str()
    }

    /// An option.
    pub fn option(&self, index: usize) -> (option: &str)
        requires
            index < self@.options.len(),
        ensures
            option@ == self@.options[index as int],
    {
        self.options[index].as_str()
    }

    /// The slot of the agent that asks.
    pub fn asked_by(&self) -> (slot: usize)
        ensures
            slot == self@.slot,
    {
        self.slot
    }

    /// How many options there are.
    pub fn option_count(&self) -> (count: usize)
        ensures
            count == self@.options.len(),
    {
        self.options.len()
    }

    fn step(&mut self, down: bool) -> (moved: bool)
        ensures
            final(self)@ == (PermissionView { selected: stepped(old(self)@, down), ..old(self)@ }),
            moved == (stepped(old(self)@, down) != old(self)@.selected),
    {
        if self.options.len() == 0 {
            return false;
        }
        let previous: usize = self.selected;
        let last: usize = self.options.len() - 1;
        self.selected = if down {
            if previous < last {
                previous + 1
            } else {
                last
            }
        } else if previous > 0 {
            previous - 1
        } else {
            0
        };
        self.selected != previous
    }

    fn answer(&self) -> (action: Option<PermissionAction>)
        ensures
            match action {
                Some(answer) => answer_of(self@) == Some(answer@),
                None => answer_of(self@) is None,
            },
    {
        let k: usize = self.selected;
        if k >= self.options.len() {
            return None;
        }
        let option = self.options[k].clone();
        assert(self@.options[k as int] == self.options@[k as int]@);
        assert(self@.option_ids.len() == self.option_ids@.len());
        assert(k < self.option_ids@.len() ==> self@.option_ids[k as int]
            == self.option_ids@[k as int]@);
        let option_id = if k < self.option_ids.len() && self.option_ids[k].as_str().unicode_len()
            > 0 {
            self.option_ids[k].clone()
        } else {
            option.clone()
        };
        Some(
            PermissionAction::Answer {
                slot: self.slot,
                request_id: self.request_id.clone(),
                option_index: k,
                option,
                option_id,
            },
        )
    }

    /// Handles one key; the prompt is handed back where it stays.
    pub fn respond(self, key: PermissionKey) -> (response: (Option<PermissionPrompt>, PermissionAction))
        ensures
            ({
                let (left, action) = permission_response(self@, key);
                action == response.1@ && match response.0 {
                    Some(prompt) => left == Some(prompt@),
                    None => left is None,
                }
            }),
    {
        let mut prompt = self;
        match key {
            PermissionKey::Confirm => match prompt.answer() {
                Some(answer) => (None, answer),
                None => (Some(prompt), PermissionAction::Ignored),
            },
            PermissionKey::Cancel => {
                let action = PermissionAction::Cancel {
                    slot: prompt.slot,
                    request_id: prompt.request_id.clone(),
                };
                (None, action)
            },
            _ => {
                let moved = prompt.step(key == PermissionKey::Down);
                let index: usize = prompt.selected;
                (
                    Some(prompt),
                    if moved {
                        PermissionAction::SelectionChanged { index }
                    } else {
                        PermissionAction::Ignored
                    },
                )
            },
        }
    }
}

} // verus!
