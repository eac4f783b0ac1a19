//! The shared goal of a conversation: `/goal OBJECTIVE` sets it, and every prompt carries it
//! until it is done or cleared.

use crate::encoding::{byte_len, byte_length};
use crate::json::{
    fields_view, flag_in, law_removed_fields_are_gone, law_set_values_are_found, nested,
    remove_field, set_value, text_in, with_value, without_field, Json, JsonView,
};
use crate::text::{
    append_text, is_space, occurs_at, optional, same, to_chars, to_text, trim, trimmed_text,
};
use vstd::prelude::*;

verus! {

/// The most bytes of an objective.
pub const MAX_OBJECTIVE: usize = 16_000;

/// What the agents work towards.
#[derive(Clone, Debug, Eq, PartialEq)]
pub struct Goal {
    pub objective: String,
    pub completed: bool,
}

#[verifier::ext_equal]
pub struct GoalView {
    pub objective: Seq<char>,
    pub completed: bool,
}

impl View for Goal {
    type V = GoalView;

    open spec fn view(&self) -> GoalView {
        GoalView { objective: self.objective@, completed: self.completed }
    }
}

/// The contents of an optional goal.
pub open spec fn goal_in(goal: Option<Goal>) -> Option<GoalView> {
    match goal {
        Some(value) => Some(value@),
        None => None,
    }
}

/// What the text behind `/goal` comes to.
#[verifier::ext_equal]
pub struct Asked {
    /// The goal afterwards.
    pub goal: Option<GoalView>,
    /// What the person is told.
    pub line: Seq<char>,
    /// What the selected agent is asked for, where work starts.
    pub request: Option<Seq<char>>,
}

/// The line that shows a goal.
pub open spec fn goal_line(goal: Option<GoalView>) -> Seq<char> {
    match goal {
        Some(value) => (if value.completed {
            "goal completed · "@
        } else {
            "goal active · "@
        }) + value.objective,
        None => "no goal is set"@,
    }
}

/// What the text behind `/goal` does. Only `done` completes a goal, and only a goal that is
/// not completed is run.
pub open spec fn asked(goal: Option<GoalView>, text: Seq<char>) -> Asked {
    let written = trim(text);
    if written.len() == 0 {
        Asked { goal, line: goal_line(goal), request: None }
    } else if written == "run"@ {
        Asked {
            goal,
            line: goal_line(goal),
            request: match goal {
                Some(value) if !value.completed => Some(value.objective),
                _ => None,
            },
        }
    } else if written == "done"@ {
        let done = match goal {
            Some(value) => Some(GoalView { completed: true, ..value }),
            None => None,
        };
        Asked { goal: done, line: goal_line(done), request: None }
    } else if written == "clear"@ {
        Asked { goal: None, line: "goal cleared"@, request: None }
    } else if byte_len(written) > MAX_OBJECTIVE {
        Asked { goal, line: "goal may be up to 16000 bytes"@, request: None }
    } else {
        let set = Some(GoalView { objective: written, completed: false });
        Asked { goal: set, line: goal_line(set), request: Some(written) }
    }
}

/// A prompt as an agent receives it: with the goal that is worked towards in front.
pub open spec fn with_goal(goal: Option<GoalView>, prompt: Seq<char>) -> Seq<char> {
    match goal {
        Some(value) if !value.completed => "Shared goal:\n"@ + value.objective + "\n\n"@ + prompt,
        _ => prompt,
    }
}

/// A prompt reaches an agent whole: it stands at the end of what the agent receives, with
/// the goal in front while that is worked towards, and alone otherwise.
pub proof fn law_prompts_stay_whole_behind_the_goal(goal: Option<GoalView>, prompt: Seq<char>)
    ensures
        ({
            let whole = with_goal(goal, prompt);
            &&& whole.len() >= prompt.len()
            &&& whole.skip(whole.len() - prompt.len()) == prompt
            &&& goal is Some && !goal->0.completed ==> occurs_at(
                whole,
                goal->0.objective,
                "Shared goal:\n"@.len() as int,
            ) && whole.len() > goal->0.objective.len() + prompt.len()
            &&& goal is None || goal->0.completed ==> whole == prompt
        }),
{
    let whole = with_goal(goal, prompt);
    match goal {
        Some(value) if !value.completed => {
            let head = "Shared goal:\n"@;
            reveal_strlit("Shared goal:\n");
            assert(whole.skip(whole.len() - prompt.len()) =~= prompt);
            assert(whole.subrange(head.len() as int, (head.len() + value.objective.len()) as int)
                =~= value.objective);
        },
        _ => {
            assert(whole.skip(0) =~= whole);
        },
    }
}

/// A text that is no word of the command becomes the goal, as it was written, and is worked
/// on at once. Only the end of the goal is written down by `done`, and `clear` forgets it.
pub proof fn law_what_is_written_becomes_the_goal(goal: Option<GoalView>, text: Seq<char>)
    ensures
        ({
            let written = trim(text);
            let after = asked(goal, text);
            let plain = written.len() > 0 && written != "run"@ && written != "done"@ && written
                != "clear"@;
            &&& plain && byte_len(written) <= MAX_OBJECTIVE ==> after.goal == Some(
                GoalView { objective: written, completed: false },
            ) && after.request == Some(written)
            &&& plain && byte_len(written) > MAX_OBJECTIVE ==> after.goal == goal
                && after.request is None
            &&& written.len() == 0 || written == "run"@ ==> after.goal == goal
            &&& written.len() == 0 ==> after.request is None
        }),
        asked(Some(GoalView { objective: text, completed: false }), "run"@).request == Some(text),
        asked(Some(GoalView { objective: text, completed: true }), "run"@).request is None,
        asked(Some(GoalView { objective: text, completed: false }), "done"@).goal == Some(
            GoalView { objective: text, completed: true },
        ),
        asked(goal, "clear"@).goal is None,
{
    reveal_strlit("run");
    reveal_strlit("done");
    reveal_strlit("clear");
    assert("run"@.len() == 3 && "done"@.len() == 4 && "clear"@.len() == 5);
    lemma_trimmed_word("run"@);
    lemma_trimmed_word("done"@);
    lemma_trimmed_word("clear"@);
}

proof fn lemma_trimmed_word(word: Seq<char>)
    requires
        word.len() > 0,
        !is_space(word[0]),
        !is_space(word.last()),
    ensures
        trim(word) == word,
{
}

/// The session metadata with a goal.
pub open spec fn goal_saved(fields: Seq<(Seq<char>, JsonView)>, goal: Option<GoalView>) -> Seq<
    (Seq<char>, JsonView),
> {
    let without = without_field(fields, "goal"@);
    match goal {
        Some(value) => with_value(
            with_value(without, "goal"@, "objective"@, JsonView::Text(value.objective)),
            "goal"@,
            "completed"@,
            JsonView::Bool(value.completed),
        ),
        None => without,
    }
}

/// The goal that session metadata holds.
pub open spec fn goal_restored(metadata: JsonView) -> Option<GoalView> {
    match (
        text_in(nested(metadata, "goal"@, "objective"@)),
        flag_in(nested(metadata, "goal"@, "completed"@)),
    ) {
        (Some(objective), Some(completed)) => Some(GoalView { objective, completed }),
        _ => None,
    }
}

/// A saved goal is restored as it was, and no goal as none.
pub proof fn law_saved_goals_are_restored(
    fields: Seq<(Seq<char>, JsonView)>,
    goal: Option<GoalView>,
)
    ensures
        goal_restored(JsonView::Object(goal_saved(fields, goal))) == goal,
{
    let without = without_field(fields, "goal"@);
    law_removed_fields_are_gone(fields, "goal"@, "goal"@);
    match goal {
        Some(value) => {
            reveal_strlit("objective");
            reveal_strlit("completed");
            assert("objective"@[0] != "completed"@[0]);
            let text = JsonView::Text(value.objective);
            let named = with_value(without, "goal"@, "objective"@, text);
            let flag = JsonView::Bool(value.completed);
            law_set_values_are_found(
                without,
                "goal"@,
                "objective"@,
                text,
                "goal"@,
                "objective"@,
            );
            law_set_values_are_found(named, "goal"@, "completed"@, flag, "goal"@, "objective"@);
            law_set_values_are_found(named, "goal"@, "completed"@, flag, "goal"@, "completed"@);
        },
        None => {
            assert(nested(JsonView::Object(without), "goal"@, "objective"@) is None);
        },
    }
}

/// A goal becomes completed only where the person says so, and nothing else that is asked
/// completes it: what was set stays active whatever is shown and run.
pub proof fn law_only_the_person_completes_a_goal(goal: Option<GoalView>, text: Seq<char>)
    requires
        trim(text) != "done"@,
    ensures
        asked(goal, text).goal matches Some(after) ==> after.completed ==> goal == Some(after),
        asked(goal, text).request is Some ==> asked(goal, text).goal == Some(
            GoalView { objective: asked(goal, text).request->0, completed: false },
        ),
{
}

fn show(goal: &Option<Goal>) -> (line: String)
    ensures
        line@ == goal_line(goal_in(*goal)),
{
    match goal {
        Some(value) => {
            let mut line = to_chars(
                if value.completed {
                    "goal completed · "
                } else {
                    "goal active · "
                },
            );
            append_text(&mut line, value.objective.as_str());
            to_text(&line)
        },
        None => "no goal is set".to_owned(),
    }
}

/// Handles the text behind `/goal`. Gives what the person is told, and what the selected
/// agent is asked for.
pub fn ask_goal(goal: &mut Option<Goal>, text: &str) -> (told: (String, Option<String>))
    ensures
        ({
            let done = asked(goal_in(*old(goal)), text@);
            &&& goal_in(*final(goal)) == done.goal
            &&& told.0@ == done.line
            &&& optional(told.1) == done.request
        }),
{
    let written = trimmed_text(text);
    if written.as_str().unicode_len() == 0 {
        return (show(goal), None);
    }
    if same(written.as_str(), "run") {
        let line = show(goal);
        let request = match goal {
            Some(value) => if value.completed {
                None
            } else {
                Some(value.objective.clone())
            },
            None => None,
        };
        return (line, request);
    }
    if same(written.as_str(), "done") {
        if let Some(value) = goal.take() {
            *goal = Some(Goal { objective: value.objective, completed: true });
        }
        return (show(goal), None);
    }
    if same(written.as_str(), "clear") {
        *goal = None;
        return ("goal cleared".to_owned(), None);
    }
    if byte_length(written.as_str()) > MAX_OBJECTIVE {
        return ("goal may be up to 16000 bytes".to_owned(), None);
    }
    *goal = Some(Goal { objective: written.clone(), completed: false });
    (show(goal), Some(written))
}

/// A prompt as an agent receives it.
pub fn prompt_with_goal(goal: &Option<Goal>, prompt: &str) -> (full: String)
    ensures
        full@ == with_goal(goal_in(*goal), prompt@),
{
    match goal {
        Some(value) => if !value.completed {
            let mut full = to_chars("Shared goal:\n");
            append_text(&mut full, value.objective.as_str());
            append_text(&mut full, "\n\n");
            append_text(&mut full, prompt);
            to_text(&full)
        } else {
            prompt.to_owned()
        },
        None => prompt.to_owned(),
    }
}

/// Puts a goal into session metadata.
pub fn save_goal(fields: &mut Vec<(String, Json)>, goal: &Option<Goal>)
    ensures
        fields_view(final(fields)@) == goal_saved(fields_view(old(fields)@), goal_in(*goal)),
{
    remove_field(fields, "goal");
    if let Some(value) = goal {
        set_value(fields, "goal", "objective", Json::Text(value.objective.clone()));
        set_value(fields, "goal", "completed", Json::Bool(value.completed));
    }
}

/// The goal that session metadata holds.
pub fn saved_goal(metadata: &Json) -> (goal: Option<Goal>)
    ensures
        goal_in(goal) == goal_restored(metadata@),
{
    match (metadata.text_at("goal", "objective"), metadata.flag_at("goal", "completed")) {
        (Some(objective), Some(completed)) => Some(
            Goal { objective: objective.to_owned(), completed },
        ),
        _ => None,
    }
}

} // verus!
