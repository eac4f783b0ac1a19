//! Deterministic conversations for performance harnesses and previews.

use crate::layout::{BlockKind, BlockView};
use crate::text::{
    append_chars, append_decimal, append_text, contents, decimal, join, joined, lemma_contents_push,
    to_chars, to_text,
};
use crate::transcript::Transcript;
use vstd::prelude::*;

verus! {

/// The words `word0`, `word1` and so on.
pub open spec fn numbered_words(count: nat) -> Seq<Seq<char>> {
    Seq::new(count, |i: int| "word"@ + decimal(i as nat))
}

fn numbered_message(count: u64) -> (message: Vec<char>)
    ensures
        message@ == join(numbered_words(count as nat), " "@),
{
    broadcast use lemma_contents_push;

    let mut parts: Vec<Vec<char>> = Vec::new();
    let mut i: u64 = 0;
    assert(contents(parts@) =~= numbered_words(0));
    while i < count
        invariant
            i <= count,
            contents(parts@) == numbered_words(i as nat),
        decreases count - i,
    {
        let mut word = to_chars("word");
        append_decimal(&mut word, i);
        parts.push(word);
        assert(numbered_words((i + 1) as nat) =~= numbered_words(i as nat).push(word@));
        i = i + 1;
    }
    joined(&parts, " ")
}

/// A reply of five thousand numbered words.
pub fn five_thousand_word_reply() -> (reply: String)
    ensures
        reply@ == join(numbered_words(5000), " "@),
{
    to_text(&numbered_message(5000))
}

/// The text of one message of the hundred-turn conversation.
pub open spec fn turn_message(speaker: Seq<char>, index: nat) -> Seq<char> {
    speaker + decimal(index) + " "@ + join(numbered_words(300), " "@)
}

/// The block at a place of the hundred-turn conversation: people and agents take turns.
pub open spec fn turn_block(place: int) -> BlockView {
    BlockView {
        id: place as u64,
        kind: if place % 2 == 0 {
            BlockKind::Human
        } else {
            BlockKind::Agent
        },
        source: turn_message(
            if place % 2 == 0 {
                "human "@
            } else {
                "agent "@
            },
            (place / 2) as nat,
        ),
        collapsed: false,
    }
}

fn message_text(speaker: &str, index: u64, message: &Vec<char>) -> (text: String)
    requires
        message@ == join(numbered_words(300), " "@),
    ensures
        text@ == turn_message(speaker@, index as nat),
{
    let mut out = to_chars(speaker);
    append_decimal(&mut out, index);
    append_text(&mut out, " ");
    append_chars(&mut out, message);
    to_text(&out)
}

/// A conversation of a hundred questions and a hundred answers.
pub fn hundred_turn_transcript() -> (transcript: Transcript)
    ensures
        transcript.wf(),
        transcript@ == Seq::new(200, |i: int| turn_block(i)),
{
    let message = numbered_message(300);
    let mut transcript = Transcript::default();
    let mut index: u64 = 0;
    assert(transcript@ =~= Seq::new(0, |i: int| turn_block(i)));
    while index < 100
        invariant
            index <= 100,
            message@ == join(numbered_words(300), " "@),
            transcript.wf(),
            transcript@ == Seq::new((2 * index) as nat, |i: int| turn_block(i)),
        decreases 100 - index,
    {
        let ghost before = transcript@;
        let human = message_text("human ", index, &message);
        transcript.append(BlockKind::Human, human.as_str(), false);
        let agent = message_text("agent ", index, &message);
        transcript.append(BlockKind::Agent, agent.as_str(), false);
        proof {
            let next = Seq::new((2 * (index + 1)) as nat, |i: int| turn_block(i));
            assert((2 * index as int) % 2 == 0 && (2 * index as int) / 2 == index);
            assert((2 * index as int + 1) % 2 == 1 && (2 * index as int + 1) / 2 == index);
            assert(transcript@ =~= next);
        }
        index = index + 1;
    }
    transcript
}

} // verus!
