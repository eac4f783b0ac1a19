//! What holds of every typed line: a command is about the agents and the words that stand
//! behind it, and a line that is no command is left to the agents.

use crate::app::AppView;
use crate::commands::{mode_command, slot_in, slots_in, typed, LocalView};
use crate::launch_laws::lemma_number_is_read;
use crate::looping::{interval_of, is_request, parsed, CommandView, LAST_TIME, SECOND};
use crate::roster::{advertises, all_commands};
use crate::settings::known_mode;
use crate::shown_text::{is_word, lemma_words_apart, lemma_words_of_a_word};
use crate::text::{
    begins_with, decimal, is_digit, is_space, join, law_written_numbers_are_read_back,
    lemma_word_length, lower, lower_char, parse_number, trim, word_length, words,
};
use vstd::prelude::*;

verus! {

proof fn lemma_number_is_a_word(n: nat)
    ensures
        is_word(decimal(n)),
        lower(decimal(n)) == decimal(n),
{
    law_written_numbers_are_read_back(n);
    let digits = decimal(n);
    assert forall|i: int| 0 <= i < digits.len() implies !is_space(#[trigger] digits[i]) by {
        assert(is_digit(digits[i]));
    }
    assert forall|i: int| 0 <= i < digits.len() implies lower_char(#[trigger] digits[i])
        == digits[i] by {
        assert(is_digit(digits[i]));
    }
    assert(lower(digits) =~= digits);
}

proof fn lemma_two_words(first: Seq<char>, second: Seq<char>)
    requires
        is_word(first),
        is_word(second),
    ensures
        words(first.push(' ') + second) == seq![first, second],
{
    lemma_words_apart(first, ' ', second);
    lemma_words_of_a_word(first);
    lemma_words_of_a_word(second);
    assert(seq![first] + seq![second] =~= seq![first, second]);
}

/// Whether a word is one of the surface's, written in lower case.
spec fn plain_command(word: Seq<char>) -> bool {
    is_word(word) && lower(word) == word
}

proof fn lemma_command_words()
    ensures
        plain_command("/drop"@),
        plain_command("/promote"@),
        plain_command("/to"@),
        plain_command("/swap"@),
{
    reveal_strlit("/drop");
    reveal_strlit("/promote");
    reveal_strlit("/to");
    reveal_strlit("/swap");
    assert(lower("/drop"@) =~= "/drop"@);
    assert(lower("/promote"@) =~= "/promote"@);
    assert(lower("/to"@) =~= "/to"@);
    assert(lower("/swap"@) =~= "/swap"@);
}

proof fn lemma_commands_differ()
    ensures
        "/quit"@.len() == 5 && "/quit"@[1] == 'q',
        "/exit"@.len() == 5 && "/exit"@[1] == 'e',
        "/close"@.len() == 6,
        "/cancel"@.len() == 7 && "/cancel"@[1] == 'c',
        "/mode"@.len() == 5 && "/mode"@[1] == 'm',
        "/collab"@.len() == 7 && "/collab"@[1] == 'c',
        "/collaboration"@.len() == 14,
        "/export"@.len() == 7 && "/export"@[1] == 'e',
        "/agents"@.len() == 7 && "/agents"@[1] == 'a',
        "/add"@.len() == 4,
        "/reload"@.len() == 7 && "/reload"@[1] == 'r',
        "/drop"@.len() == 5 && "/drop"@[1] == 'd',
        "/promote"@.len() == 8,
        "/swap"@.len() == 5 && "/swap"@[1] == 's',
        "/to"@.len() == 3,
        "/agent"@.len() == 6 && "/agent"@[1] == 'a',
{
    reveal_strlit("/quit");
    reveal_strlit("/exit");
    reveal_strlit("/close");
    reveal_strlit("/cancel");
    reveal_strlit("/mode");
    reveal_strlit("/collab");
    reveal_strlit("/collaboration");
    reveal_strlit("/export");
    reveal_strlit("/agents");
    reveal_strlit("/add");
    reveal_strlit("/reload");
    reveal_strlit("/drop");
    reveal_strlit("/promote");
    reveal_strlit("/swap");
    reveal_strlit("/to");
    reveal_strlit("/agent");
}

/// A number behind a command about an agent names the slot that the command is about.
pub proof fn law_typed_slots_are_the_ones_meant(app: AppView, slot: usize)
    ensures
        typed(app, "/drop"@.push(' ') + decimal(slot as nat)) == Some(
            (app, LocalView::DropSlot(slot)),
        ),
        typed(app, "/promote"@.push(' ') + decimal(slot as nat)) == Some(
            (app, LocalView::Promote(slot)),
        ),
        typed(app, "/to"@.push(' ') + decimal(slot as nat)) == Some(
            (app, LocalView::SelectAgent(slot)),
        ),
{
    let number = decimal(slot as nat);
    lemma_command_words();
    lemma_commands_differ();
    lemma_number_is_a_word(slot as nat);
    lemma_number_is_read(slot as nat);
    lemma_two_words("/drop"@, number);
    lemma_two_words("/promote"@, number);
    lemma_two_words("/to"@, number);
    assert(seq!["/drop"@, number].drop_first() =~= seq![number]);
    assert(seq!["/promote"@, number].drop_first() =~= seq![number]);
    assert(seq!["/to"@, number].drop_first() =~= seq![number]);
    assert(join(seq![number], " "@) == number);
    assert(slot_in(number) == Some(slot));
}

/// Two numbers behind `/swap` name the agents that change places, in the order in which they
/// were typed.
pub proof fn law_typed_swaps_name_both_agents(app: AppView, first: usize, second: usize)
    ensures
        typed(
            app,
            "/swap"@.push(' ') + (decimal(first as nat).push(' ') + decimal(second as nat)),
        ) == Some((app, LocalView::Swap(first, second))),
{
    let (a, b) = (decimal(first as nat), decimal(second as nat));
    lemma_command_words();
    lemma_commands_differ();
    lemma_number_is_a_word(first as nat);
    lemma_number_is_a_word(second as nat);
    lemma_number_is_read(first as nat);
    lemma_number_is_read(second as nat);
    lemma_two_words(a, b);
    lemma_words_of_a_word("/swap"@);
    lemma_words_apart("/swap"@, ' ', a.push(' ') + b);
    let all = seq!["/swap"@, a, b];
    assert(seq!["/swap"@] + seq![a, b] =~= all);
    let rest = all.drop_first();
    assert(rest =~= seq![a, b]);
    assert(rest.drop_last() =~= seq![a]);
    assert(seq![a].drop_last() =~= Seq::<Seq<char>>::empty());
    reveal_with_fuel(slots_in, 3);
    assert(slots_in(rest) =~= seq![first, second]);
}

/// A line that begins with a slash and is no command is told to the person, and is not sent
/// to the agents, unless one of them advertises it.
pub proof fn law_unknown_commands_are_not_sent(app: AppView, input: Seq<char>)
    requires
        words(input).len() > 0,
        begins_with(lower(words(input)[0]), '/'),
        !advertises(all_commands(app.roster.agents), lower(words(input)[0])),
    ensures
        typed(app, input) is Some,
{
}

/// A mode that is chosen is the one that is shown and the one that the agents are asked
/// for; nothing else of the conversation changes. A name that stands for no mode changes
/// none, and talking needs no policy.
pub proof fn law_chosen_modes_are_asked_for(app: AppView, argument: Seq<char>)
    requires
        argument.len() > 0,
    ensures
        ({
            let (after, done) = mode_command(app, argument);
            let talk = lower(argument) == "chat"@ || lower(argument) == "discuss"@ || lower(
                argument,
            ) == "discussion"@;
            &&& after.transcript == app.transcript
            &&& after.roster == app.roster
            &&& after.queue == app.queue
            &&& talk ==> done is Mode && after.settings.mode == "Chat"@
                && after.settings.mode_policy is None && after.requested_mode is None
            &&& !talk ==> match known_mode(argument) {
                Some((policy, label)) => done is Mode && after.settings.mode == label
                    && after.settings.mode_policy == Some(policy) && after.requested_mode == Some(
                    policy,
                ),
                None => !(done is Mode) && after.settings == app.settings && after.requested_mode
                    == app.requested_mode,
            }
        }),
{
    reveal(crate::commands::mode_adopted);
}

/// Clearing a conversation leaves none of it on the screen, and leaves the agents, the
/// settings and what waits alone.
pub proof fn law_clearing_leaves_the_agents(app: AppView)
    ensures
        ({
            let after = crate::commands::cleared(app);
            &&& after.transcript.len() == 0
            &&& after.streams.len() == 0
            &&& after.roster == app.roster
            &&& after.settings == app.settings
            &&& after.queue == app.queue
            &&& after.prompt == app.prompt
        }),
{
    reveal(crate::commands::cleared);
}

// Loops.

proof fn lemma_trimmed_ends(s: Seq<char>)
    requires
        s.len() > 0,
        !is_space(s[0]),
        !is_space(s.last()),
    ensures
        trim(s) == s,
{
}

/// Minutes in front of a request are its interval, in seconds, and the request is what
/// stands behind them. A request without minutes has no interval.
pub proof fn law_loops_are_read_as_written(minutes: nat, prompt: Seq<char>, now: u128)
    requires
        0 < minutes,
        minutes * 60 <= u64::MAX,
        now + minutes * 60 * SECOND <= LAST_TIME,
        is_request(prompt),
        !is_space(prompt[0]),
        !is_space(prompt.last()),
        !is_digit(prompt[0]),
        prompt[0] != '-',
        prompt[0] != '+',
        prompt != "stop"@,
    ensures
        parsed(decimal(minutes).push('m').push(' ') + prompt, now) == Ok::<
            CommandView,
            Seq<char>,
        >(CommandView::Start { interval: (minutes * 60) as u64, prompt }),
        parsed(prompt, now) == Ok::<CommandView, Seq<char>>(
            CommandView::Start { interval: 0, prompt },
        ),
{
    law_written_numbers_are_read_back(minutes);
    let digits = decimal(minutes);
    let first = digits.push('m');
    let input = first.push(' ') + prompt;
    assert(is_digit(digits[0]));
    assert(input[0] == digits[0]);
    lemma_number_is_a_word(minutes);
    lemma_trimmed_ends(input);
    let k = first.len() as int;
    lemma_word_length(input);
    assert forall|j: int| 0 <= j < k implies !is_space(#[trigger] input[j]) by {
        if j < digits.len() {
            assert(input[j] == digits[j]);
        }
    }
    assert(is_space(input[k]));
    assert(word_length(input) == k) by {
        let found = word_length(input);
        if found < k {
            assert(is_space(input[found]));
        }
        if k < found {
            assert(!is_space(input[k]));
        }
    }
    assert(input.take(k) =~= first);
    assert(input.skip(k + 1) =~= prompt);
    lemma_trimmed_ends(prompt);
    assert(first.drop_last() =~= digits);
    assert(!begins_with(digits, '+'));
    assert(parse_number(digits, u64::MAX as nat) == Some(minutes));
    assert(interval_of(first, now) == Some((minutes * 60) as u64));
    reveal_strlit("stop");
    assert(input[0] != "stop"@[0]);
    lemma_word_length(prompt);
    let own = prompt.take(word_length(prompt));
    assert(own.len() > 0 ==> own[0] == prompt[0]);
}

} // verus!
