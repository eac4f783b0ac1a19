//! Bounded public context shared between sequential relay participants.

use crate::encoding::{
    byte_len, byte_length, char_bytes, law_prefix_is_longest, law_suffix_is_longest,
    lemma_byte_len_bounds, lemma_byte_len_concat, prefix_length, prefix_within, suffix_length,
    suffix_within,
};
use crate::text::{
    join, joined_text, lemma_join_first, lemma_strings_push, occurs_at, optional, slice_to_string,
    strings, to_chars,
};
use vstd::prelude::*;

verus! {

/// One thing that was said in public.
#[derive(Clone, Debug, Eq, PartialEq)]
pub struct PublicEvent {
    pub speaker: String,
    pub text: String,
}

/// What a public event holds.
pub struct EventView {
    pub speaker: Seq<char>,
    pub text: Seq<char>,
}

impl View for PublicEvent {
    type V = EventView;

    open spec fn view(&self) -> EventView {
        EventView { speaker: self.speaker@, text: self.text@ }
    }
}

/// The contents of a list of events.
pub open spec fn event_contents(events: Seq<PublicEvent>) -> Seq<EventView> {
    Seq::new(events.len(), |i: int| events[i]@)
}

/// The public journal, and for each agent how much of it has been sent to it.
#[derive(Clone, Debug, Eq, PartialEq)]
pub struct CollaborationContext {
    shared_task: Option<String>,
    events: Vec<PublicEvent>,
    seen: Vec<usize>,
    truncated: Vec<bool>,
}

/// The state of a collaboration context.
pub struct ContextView {
    pub shared_task: Option<Seq<char>>,
    pub events: Seq<EventView>,
    /// For each agent, how many of the events it has seen.
    pub seen: Seq<usize>,
    /// For each agent, whether events that it had not seen were dropped.
    pub truncated: Seq<bool>,
}

impl View for CollaborationContext {
    type V = ContextView;

    closed spec fn view(&self) -> ContextView {
        ContextView {
            shared_task: optional(self.shared_task),
            events: event_contents(self.events@),
            seen: self.seen@,
            truncated: self.truncated@,
        }
    }
}

// Limits.

/// The bytes of all event texts together.
pub open spec fn total_bytes(events: Seq<EventView>) -> nat
    decreases events.len(),
{
    if events.len() == 0 {
        0
    } else {
        byte_len(events[0].text) + total_bytes(events.drop_first())
    }
}

/// A text of at most 12000 bytes is kept as it is; of a longer one the start and
/// the end are kept, 12000 bytes together, with a note between them.
pub open spec fn compacted(text: Seq<char>) -> Seq<char> {
    if byte_len(text) <= 12_000 {
        text
    } else {
        let head = prefix_within(text, 6_000);
        let tail = suffix_within(text, 12_000 - byte_len(text.take(head)));
        text.take(head)
            + "\n\n[CodeSwarm omitted the middle of this response to protect context.]\n\n"@
            + text.skip(text.len() - tail)
    }
}

/// A short text is kept as it is. Of a long one both ends are kept, as much of them as the
/// limit leaves room for, and a note says where the middle was.
pub proof fn law_long_texts_keep_both_ends(text: Seq<char>)
    ensures
        byte_len(text) <= 12_000 ==> compacted(text) == text,
        byte_len(text) > 12_000 ==> exists|head: int, tail: int|
            0 <= head && 0 <= tail && head + tail < text.len() && compacted(text)
                == #[trigger] text.take(head)
                + "\n\n[CodeSwarm omitted the middle of this response to protect context.]\n\n"@
                + #[trigger] text.skip(text.len() - tail) && byte_len(text.take(head)) <= 6_000
                && byte_len(text.take(head + 1)) > 6_000 && byte_len(text.take(head)) + byte_len(
                text.skip(text.len() - tail),
            ) <= 12_000 && byte_len(text.take(head)) + byte_len(
                text.skip(text.len() - tail - 1),
            ) > 12_000,
{
    if byte_len(text) > 12_000 {
        let head = prefix_within(text, 6_000);
        law_prefix_is_longest(text, 6_000);
        let budget = 12_000 - byte_len(text.take(head));
        let tail = suffix_within(text, budget);
        law_suffix_is_longest(text, budget);
        assert(text.take(head) + text.skip(head) =~= text);
        lemma_byte_len_concat(text.take(head), text.skip(head));
        if head == text.len() {
            assert(text.take(head) =~= text);
        }
        if tail == text.len() {
            assert(text.skip(0) =~= text);
        }
        if head + tail >= text.len() {
            let end = text.skip(text.len() - tail);
            assert(end =~= text.subrange(text.len() - tail, head) + text.skip(head));
            lemma_byte_len_concat(text.subrange(text.len() - tail, head), text.skip(head));
            assert(false);
        }
        assert(compacted(text) == text.take(head)
            + "\n\n[CodeSwarm omitted the middle of this response to protect context.]\n\n"@
            + text.skip(text.len() - tail));
    }
}

proof fn lemma_compacted_bounded(text: Seq<char>)
    ensures
        byte_len(compacted(text)) <= 12_400,
{
    if byte_len(text) > 12_000 {
        let note = "\n\n[CodeSwarm omitted the middle of this response to protect context.]\n\n"@;
        let head = prefix_within(text, 6_000);
        law_prefix_is_longest(text, 6_000);
        let budget = 12_000 - byte_len(text.take(head));
        let tail = suffix_within(text, budget);
        law_suffix_is_longest(text, budget);
        reveal_strlit("\n\n[CodeSwarm omitted the middle of this response to protect context.]\n\n");
        lemma_byte_len_bounds(note);
        lemma_byte_len_concat(text.take(head), note);
        lemma_byte_len_concat(text.take(head) + note, text.skip(text.len() - tail));
    }
}

/// The start and the end of a long text; a short text as it is.
fn compact(text: &str) -> (short: String)
    ensures
        short@ == compacted(text@),
{
    if byte_length(text) <= 12_000 {
        return text.to_owned();
    }
    let chars = to_chars(text);
    let head: usize = prefix_length(&chars, 6_000);
    proof {
        law_prefix_is_longest(text@, 6_000);
    }
    let mut short = slice_to_string(&chars, 0, head);
    assert(short@ =~= text@.take(head as int));
    let tail_budget: usize = 12_000 - byte_length(short.as_str());
    let tail: usize = suffix_length(&chars, tail_budget);
    short.append("\n\n[CodeSwarm omitted the middle of this response to protect context.]\n\n");
    let end = slice_to_string(&chars, chars.len() - tail, chars.len());
    assert(end@ =~= text@.skip(text@.len() - tail));
    short.append(end.as_str());
    short
}

/// What an agent is told in place of updates that were dropped.
pub open spec fn omission_note() -> Seq<char> {
    "[CodeSwarm omitted older unseen updates to protect context.]"@
}

/// How many of the last updates fit the budget, with two bytes between each two.
pub open spec fn kept_updates(updates: Seq<Seq<char>>, budget: int) -> int
    decreases updates.len(),
{
    if updates.len() == 0 || byte_len(updates.last()) + 2 > budget {
        0
    } else {
        1 + kept_updates(updates.drop_last(), budget - byte_len(updates.last()) - 2)
    }
}

/// The updates, apart by an empty line; where they are longer than the limit, a
/// note and as many of the last ones as fit behind it.
pub open spec fn limited(updates: Seq<Seq<char>>, limit: int) -> Seq<char> {
    let all = join(updates, "\n\n"@);
    if byte_len(all) <= limit {
        all
    } else {
        let kept = kept_updates(updates, limit - byte_len(omission_note()) - 2);
        omission_note() + "\n\n"@ + join(updates.skip(updates.len() - kept), "\n\n"@)
    }
}

proof fn lemma_one_byte_each(text: Seq<char>)
    requires
        forall|i: int| 0 <= i < text.len() ==> char_bytes(#[trigger] text[i]) == 1,
    ensures
        byte_len(text) == text.len(),
    decreases text.len(),
{
    if text.len() > 0 {
        let rest = text.drop_last();
        assert forall|i: int| 0 <= i < rest.len() implies char_bytes(#[trigger] rest[i]) == 1 by {
            assert(rest[i] == text[i]);
        }
        lemma_one_byte_each(rest);
        assert(char_bytes(text[text.len() - 1]) == 1);
    }
}

proof fn lemma_note_bounds()
    ensures
        byte_len(omission_note()) == 60,
        byte_len("\n\n"@) == 2,
{
    reveal_strlit("[CodeSwarm omitted older unseen updates to protect context.]");
    reveal_strlit("\n\n");
    lemma_one_byte_each(omission_note());
    lemma_one_byte_each("\n\n"@);
}

proof fn lemma_kept_updates(updates: Seq<Seq<char>>, budget: int)
    requires
        budget >= 0,
    ensures
        0 <= kept_updates(updates, budget) <= updates.len(),
        byte_len(join(updates.skip(updates.len() - kept_updates(updates, budget)), "\n\n"@)) <= budget,
    decreases updates.len(),
{
    lemma_note_bounds();
    let k = kept_updates(updates, budget);
    let kept = updates.skip(updates.len() - k);
    if updates.len() == 0 || byte_len(updates.last()) + 2 > budget {
        assert(kept.len() == 0);
        assert(byte_len(join(kept, "\n\n"@)) == 0);
    } else {
        let left = budget - byte_len(updates.last()) - 2;
        let rest = updates.drop_last();
        lemma_kept_updates(rest, left);
        let inner = rest.skip(rest.len() - (k - 1));
        assert(kept.drop_last() =~= inner);
        assert(kept.last() == updates.last());
        if inner.len() == 0 {
            assert(join(kept, "\n\n"@) == kept[0]);
        } else {
            lemma_byte_len_concat(join(inner, "\n\n"@), "\n\n"@);
            lemma_byte_len_concat(join(inner, "\n\n"@) + "\n\n"@, kept.last());
        }
    }
}

/// Whatever was said, what an agent is sent at once stays within the limit.
pub proof fn law_limited_text_fits(updates: Seq<Seq<char>>, limit: int)
    requires
        limit >= 62,
    ensures
        byte_len(limited(updates, limit)) <= limit,
{
    lemma_note_bounds();
    assert(byte_len(omission_note()) + 2 <= limit);
    let budget = limit - byte_len(omission_note()) - 2;
    lemma_kept_updates(updates, budget);
    let kept = join(updates.skip(updates.len() - kept_updates(updates, budget)), "\n\n"@);
    lemma_byte_len_concat(omission_note(), "\n\n"@);
    lemma_byte_len_concat(omission_note() + "\n\n"@, kept);
}

/// The updates as they are sent, cut to a limit of bytes.
pub fn limit_updates(updates: &Vec<String>, limit: usize) -> (rendered: String)
    requires
        62 <= limit,
    ensures
        rendered@ == limited(strings(updates@), limit as int),
{
    broadcast use lemma_strings_push;

    let rendered = joined_text(updates, "\n\n");
    if byte_length(rendered.as_str()) <= limit {
        return rendered;
    }
    proof {
        lemma_note_bounds();
    }
    let marker = "[CodeSwarm omitted older unseen updates to protect context.]";
    let ghost all = strings(updates@);
    let budget: usize = limit - byte_length(marker) - 2;
    let mut left: usize = budget;
    let mut start: usize = updates.len();
    assert(all.take(start as int) =~= all);
    while start > 0
        invariant
            start <= updates@.len(),
            all == strings(updates@),
            kept_updates(all, budget as int) == updates@.len() - start + kept_updates(
                all.take(start as int),
                left as int,
            ),
            start > 0 || kept_updates(all, budget as int) == updates@.len() - start,
        ensures
            start <= updates@.len(),
            kept_updates(all, budget as int) == updates@.len() - start,
        decreases start,
    {
        let length: usize = byte_length(updates[start - 1].as_str());
        assert(all.take(start as int).last() == updates@[start - 1]@);
        assert(all.take(start as int).drop_last() =~= all.take(start - 1));
        if left < 2 || length > left - 2 {
            break;
        }
        left = left - length - 2;
        start = start - 1;
        assert(start == 0 ==> kept_updates(all.take(start as int), left as int) == 0);
    }
    let mut kept: Vec<String> = Vec::new();
    let mut i: usize = start;
    assert(strings(kept@) =~= all.subrange(start as int, start as int));
    while i < updates.len()
        invariant
            start <= i <= updates@.len(),
            all == strings(updates@),
            strings(kept@) == all.subrange(start as int, i as int),
        decreases updates@.len() - i,
    {
        kept.push(updates[i].clone());
        assert(all.subrange(start as int, i + 1) =~= all.subrange(start as int, i as int).push(
            all[i as int],
        ));
        i = i + 1;
    }
    assert(strings(kept@) =~= all.skip(start as int));
    let mut out = String::from_str(marker);
    out.append("\n\n");
    out.append(joined_text(&kept, "\n\n").as_str());
    out
}

// The journal.

/// An update as it is sent.
pub open spec fn update_text(event: EventView) -> Seq<char> {
    event.speaker + ":\n"@ + event.text
}

/// The events that say something, as they are sent.
pub open spec fn updates_of(events: Seq<EventView>) -> Seq<Seq<char>>
    decreases events.len(),
{
    if events.len() == 0 {
        Seq::empty()
    } else {
        let above = updates_of(events.drop_last());
        if events.last().text.len() == 0 {
            above
        } else {
            above.push(update_text(events.last()))
        }
    }
}

/// How many of the events say something.
pub open spec fn spoken(events: Seq<EventView>) -> nat
    decreases events.len(),
{
    if events.len() == 0 {
        0
    } else {
        spoken(events.drop_first()) + if events[0].text.len() == 0 {
            0nat
        } else {
            1
        }
    }
}

proof fn lemma_spoken_push(events: Seq<EventView>, event: EventView)
    ensures
        spoken(events.push(event)) == spoken(events) + (if event.text.len() == 0 {
            0nat
        } else {
            1
        }),
    decreases events.len(),
{
    let more = events.push(event);
    if events.len() == 0 {
        assert(more.drop_first() =~= events);
    } else {
        assert(more.drop_first() =~= events.drop_first().push(event));
        lemma_spoken_push(events.drop_first(), event);
    }
}

/// The updates are told one after another: those of two stretches of the conversation are
/// those of the first and then those of the second, and an event by itself is told as its
/// speaker and its words, or not at all where it says nothing.
pub proof fn law_updates_follow_the_conversation(first: Seq<EventView>, second: Seq<EventView>)
    ensures
        updates_of(first + second) == updates_of(first) + updates_of(second),
        forall|event: EventView|
            event.text.len() > 0 ==> #[trigger] updates_of(seq![event]) == seq![
                event.speaker + ":\n"@ + event.text,
            ],
        forall|event: EventView|
            event.text.len() == 0 ==> #[trigger] updates_of(seq![event]) == Seq::<
                Seq<char>,
            >::empty(),
    decreases second.len(),
{
    assert forall|event: EventView| event.text.len() > 0 implies #[trigger] updates_of(seq![event])
        == seq![event.speaker + ":\n"@ + event.text] by {
        lemma_updates_of_one(event);
    }
    assert forall|event: EventView| event.text.len() == 0 implies #[trigger] updates_of(seq![event])
        == Seq::<Seq<char>>::empty() by {
        lemma_updates_of_one(event);
    }
    if second.len() == 0 {
        assert(first + second =~= first);
        assert(updates_of(first) + updates_of(second) =~= updates_of(first));
    } else {
        let both = first + second;
        assert(both.drop_last() =~= first + second.drop_last());
        law_updates_follow_the_conversation(first, second.drop_last());
        assert(updates_of(both) =~= updates_of(first) + updates_of(second));
    }
}

proof fn lemma_updates_of_one(event: EventView)
    ensures
        event.text.len() > 0 ==> updates_of(seq![event]) == seq![
            event.speaker + ":\n"@ + event.text,
        ],
        event.text.len() == 0 ==> updates_of(seq![event]) == Seq::<Seq<char>>::empty(),
{
    assert(seq![event].drop_last() =~= Seq::<EventView>::empty());
    assert(updates_of(seq![event].drop_last()) =~= Seq::<Seq<char>>::empty());
    assert(updates_of(seq![event]) =~= if event.text.len() == 0 {
        Seq::<Seq<char>>::empty()
    } else {
        seq![event.speaker + ":\n"@ + event.text]
    });
}

/// Every event that says something is told once and in its place: behind the updates of the
/// events before it, and there is nothing else among the updates.
pub proof fn law_every_event_is_told_in_its_place(events: Seq<EventView>, i: int)
    requires
        0 <= i < events.len(),
        events[i].text.len() > 0,
    ensures
        updates_of(events).len() == spoken(events),
        spoken(events.take(i)) < spoken(events),
        updates_of(events)[spoken(events.take(i)) as int] == events[i].speaker + ":\n"@
            + events[i].text,
    decreases events.len(),
{
    lemma_updates_count(events);
    let last = events.len() - 1;
    let rest = events.drop_last();
    assert(events =~= rest.push(events[last]));
    lemma_spoken_push(rest, events[last]);
    lemma_updates_count(rest);
    if i == last {
        assert(events.take(i) =~= rest);
    } else {
        assert(rest[i] == events[i]);
        law_every_event_is_told_in_its_place(rest, i);
        assert(rest.take(i) =~= events.take(i));
    }
}

proof fn lemma_updates_count(events: Seq<EventView>)
    ensures
        updates_of(events).len() == spoken(events),
    decreases events.len(),
{
    if events.len() > 0 {
        lemma_updates_count(events.drop_last());
        lemma_spoken_push(events.drop_last(), events.last());
        assert(events =~= events.drop_last().push(events.last()));
    }
}

proof fn lemma_join_holds(parts: Seq<Seq<char>>, separator: Seq<char>, i: int, j: int)
    requires
        0 <= i < j < parts.len(),
    ensures
        exists|k: int, l: int| #[trigger]
            occurs_at(join(parts, separator), parts[i], k) && #[trigger] occurs_at(
                join(parts, separator),
                parts[j],
                l,
            ) && k + parts[i].len() <= l,
    decreases parts.len(),
{
    let rest = parts.drop_last();
    let inner = join(rest, separator);
    let whole = join(parts, separator);
    let before = inner + separator;
    assert(whole == before + parts.last());
    if j < parts.len() - 1 {
        lemma_join_holds(rest, separator, i, j);
        let (k, l) = choose|k: int, l: int| #[trigger]
            occurs_at(inner, rest[i], k) && #[trigger] occurs_at(inner, rest[j], l) && k
                + rest[i].len() <= l;
        assert(whole.subrange(k, k + parts[i].len()) =~= inner.subrange(k, k + parts[i].len()));
        assert(whole.subrange(l, l + parts[j].len()) =~= inner.subrange(l, l + parts[j].len()));
        assert(occurs_at(whole, parts[i], k) && occurs_at(whole, parts[j], l));
    } else {
        lemma_join_holds_one(rest, separator, i);
        let k = choose|k: int| #[trigger] occurs_at(inner, rest[i], k);
        let l = before.len() as int;
        assert(whole.subrange(k, k + parts[i].len()) =~= inner.subrange(k, k + parts[i].len()));
        assert(whole.subrange(l, l + parts[j].len()) =~= parts[j]);
        assert(occurs_at(whole, parts[i], k) && occurs_at(whole, parts[j], l));
    }
}

proof fn lemma_join_holds_one(parts: Seq<Seq<char>>, separator: Seq<char>, i: int)
    requires
        0 <= i < parts.len(),
    ensures
        exists|k: int| #[trigger] occurs_at(join(parts, separator), parts[i], k),
    decreases parts.len(),
{
    let whole = join(parts, separator);
    if parts.len() == 1 {
        assert(whole.subrange(0, whole.len() as int) =~= whole);
        assert(occurs_at(whole, parts[i], 0));
    } else {
        let rest = parts.drop_last();
        let inner = join(rest, separator);
        let before = inner + separator;
        assert(whole == before + parts.last());
        if i < parts.len() - 1 {
            lemma_join_holds_one(rest, separator, i);
            let k = choose|k: int| #[trigger] occurs_at(inner, rest[i], k);
            assert(whole.subrange(k, k + parts[i].len()) =~= inner.subrange(k, k + parts[i].len()));
            assert(occurs_at(whole, parts[i], k));
        } else {
            let l = before.len() as int;
            assert(whole.subrange(l, l + parts[i].len()) =~= parts[i]);
            assert(occurs_at(whole, parts[i], l));
        }
    }
}

/// The events that an agent has not seen. A slot without an agent has seen all.
pub open spec fn unseen_events(context: ContextView, slot: int) -> Seq<EventView> {
    if 0 <= slot < context.seen.len() {
        context.events.skip(context.seen[slot] as int)
    } else {
        Seq::empty()
    }
}

/// What an agent is sent: the events that it has not seen, behind a note where
/// some of them were dropped.
pub open spec fn unseen_text(context: ContextView, slot: int) -> Seq<char> {
    let updates = updates_of(unseen_events(context, slot));
    limited(
        if 0 <= slot < context.truncated.len() && context.truncated[slot] {
            seq![omission_note()] + updates
        } else {
            updates
        },
        24_000,
    )
}

/// Where it all fits, an agent is sent every event that it has not seen and that says
/// something, its speaker before its words, in the order in which they were said.
pub proof fn law_unseen_text_holds_every_unseen_event(
    context: ContextView,
    slot: int,
    i: int,
    j: int,
)
    requires
        0 <= slot < context.seen.len(),
        slot < context.truncated.len(),
        0 <= context.seen[slot] <= i <= j < context.events.len(),
        context.events[i].text.len() > 0,
        context.events[j].text.len() > 0,
        byte_len(
            join(updates_of(context.events.skip(context.seen[slot] as int)), "\n\n"@),
        ) + 62 <= 24_000,
    ensures
        exists|k: int, l: int| #[trigger]
            occurs_at(
                unseen_text(context, slot),
                context.events[i].speaker + ":\n"@ + context.events[i].text,
                k,
            ) && #[trigger] occurs_at(
                unseen_text(context, slot),
                context.events[j].speaker + ":\n"@ + context.events[j].text,
                l,
            ) && (i < j ==> k + context.events[i].speaker.len() + 2 + context.events[i].text.len()
                <= l),
{
    let seen = context.seen[slot] as int;
    let events = context.events.skip(seen);
    let updates = updates_of(events);
    let (from, to) = (i - seen, j - seen);
    assert(events[from] == context.events[i] && events[to] == context.events[j]);
    law_every_event_is_told_in_its_place(events, from);
    law_every_event_is_told_in_its_place(events, to);
    let (a, b) = (spoken(events.take(from)) as int, spoken(events.take(to)) as int);
    let all = if context.truncated[slot] {
        seq![omission_note()] + updates
    } else {
        updates
    };
    let shift: int = if context.truncated[slot] {
        1
    } else {
        0
    };
    assert(all[a + shift] == updates[a] && all[b + shift] == updates[b]);
    if i < j {
        lemma_spoken_before(events, from, to);
        lemma_join_holds(all, "\n\n"@, a + shift, b + shift);
    } else {
        lemma_join_holds_one(all, "\n\n"@, a + shift);
    }
    reveal_strlit(":\n");
    lemma_note_bounds();
    if context.truncated[slot] {
        lemma_join_first(omission_note(), updates, "\n\n"@);
        lemma_byte_len_concat(omission_note(), "\n\n"@);
        lemma_byte_len_concat(omission_note() + "\n\n"@, join(updates, "\n\n"@));
    }
    assert(unseen_text(context, slot) == join(all, "\n\n"@));
}

proof fn lemma_spoken_before(events: Seq<EventView>, i: int, j: int)
    requires
        0 <= i < j <= events.len(),
        events[i].text.len() > 0,
    ensures
        spoken(events.take(i)) < spoken(events.take(j)),
    decreases j,
{
    assert(events.take(j) =~= events.take(j - 1).push(events[j - 1]));
    lemma_spoken_push(events.take(j - 1), events[j - 1]);
    if i < j - 1 {
        lemma_spoken_before(events, i, j - 1);
    }
}

/// What an agent is sent is all that it has not seen where that fits, and otherwise begins
/// with a note and ends with the newest updates: no more are left out than have to be, to
/// within a separating empty line.
pub proof fn law_the_newest_updates_are_kept(updates: Seq<Seq<char>>, limit: int)
    requires
        limit >= 62,
    ensures
        byte_len(join(updates, "\n\n"@)) <= limit ==> limited(updates, limit) == join(
            updates,
            "\n\n"@,
        ),
        byte_len(join(updates, "\n\n"@)) > limit ==> exists|left_out: int|
            0 < left_out <= updates.len() && limited(updates, limit) == omission_note() + "\n\n"@
                + join(#[trigger] updates.skip(left_out), "\n\n"@) && byte_len(omission_note()) + 2
                + byte_len(join(updates.skip(left_out - 1), "\n\n"@)) + 2 > limit,
{
    lemma_note_bounds();
    if byte_len(join(updates, "\n\n"@)) > limit {
        let budget = limit - byte_len(omission_note()) - 2;
        let kept = kept_updates(updates, budget);
        lemma_kept_updates(updates, budget);
        if kept == updates.len() {
            assert(updates.skip(0) =~= updates);
        }
        lemma_one_more_is_too_much(updates, budget);
        let left_out = updates.len() - kept;
        assert(limited(updates, limit) == omission_note() + "\n\n"@ + join(
            updates.skip(left_out),
            "\n\n"@,
        ));
    }
}

proof fn lemma_one_more_is_too_much(updates: Seq<Seq<char>>, budget: int)
    requires
        budget >= 0,
        kept_updates(updates, budget) < updates.len(),
    ensures
        byte_len(join(updates.skip(updates.len() - kept_updates(updates, budget) - 1), "\n\n"@)) + 2
            > budget,
    decreases updates.len(),
{
    lemma_note_bounds();
    lemma_kept_updates(updates, budget);
    let k = kept_updates(updates, budget);
    let more = updates.skip(updates.len() - k - 1);
    assert(more.last() == updates.last());
    if byte_len(updates.last()) + 2 > budget {
        assert(more.len() == 1);
        assert(join(more, "\n\n"@) == updates.last());
    } else {
        let rest = updates.drop_last();
        let left = budget - byte_len(updates.last()) - 2;
        lemma_one_more_is_too_much(rest, left);
        let inner = rest.skip(rest.len() - (k - 1) - 1);
        assert(more.drop_last() =~= inner);
        lemma_byte_len_concat(join(inner, "\n\n"@), "\n\n"@);
        lemma_byte_len_concat(join(inner, "\n\n"@) + "\n\n"@, more.last());
    }
}

/// The least number of events that the active agents from slot `from` on have seen.
pub open spec fn least_seen(seen: Seq<usize>, active: Seq<bool>, from: int) -> Option<int>
    decreases active.len() - from,
{
    if from >= active.len() {
        None
    } else {
        let rest = least_seen(seen, active, from + 1);
        if 0 <= from && active[from] {
            let own = if from < seen.len() {
                seen[from] as int
            } else {
                0
            };
            match rest {
                Some(other) if other < own => Some(other),
                _ => Some(own),
            }
        } else {
            rest
        }
    }
}

/// The number of events that every active agent has seen.
pub open spec fn consumed(context: ContextView, active: Seq<bool>) -> int {
    match least_seen(context.seen, active, 0) {
        Some(least) => least,
        None => 0,
    }
}

/// The context without its first `count` events.
pub open spec fn without_first(context: ContextView, count: int) -> ContextView {
    ContextView {
        events: context.events.skip(count),
        seen: Seq::new(
            context.seen.len(),
            |i: int|
                (if context.seen[i] > count {
                    context.seen[i] - count
                } else {
                    0
                }) as usize,
        ),
        ..context
    }
}

/// Whether the journal has to make room.
pub open spec fn too_long(events: Seq<EventView>) -> bool {
    events.len() >= 200 || total_bytes(events) >= 48_000
}

/// The context without its oldest event; an active agent that had not seen it is
/// marked.
pub open spec fn without_oldest(context: ContextView, active: Seq<bool>) -> ContextView {
    ContextView {
        truncated: Seq::new(
            context.truncated.len(),
            |i: int|
                context.truncated[i] || (i < context.seen.len() && context.seen[i] == 0 && i
                    < active.len() && active[i]),
        ),
        ..without_first(context, 1)
    }
}

/// The context without its oldest events, down to its limits.
pub open spec fn shed(context: ContextView, active: Seq<bool>) -> ContextView
    decreases context.events.len(),
{
    if too_long(context.events) && context.events.len() > 0 {
        shed(without_oldest(context, active), active)
    } else {
        context
    }
}

/// The context with room for one event more: what every active agent has seen is
/// dropped, then the oldest events down to the limits.
pub open spec fn pruned(context: ContextView, active: Seq<bool>) -> ContextView {
    shed(without_first(context, consumed(context, active)), active)
}

/// The context with one event more.
pub open spec fn with_event(context: ContextView, event: EventView) -> ContextView {
    ContextView { events: context.events.push(event), ..context }
}

/// The bounds of every context: no agent has seen more than there is, at most 200
/// events, and a bounded number of bytes.
pub open spec fn context_ok(context: ContextView) -> bool {
    &&& context.seen.len() == context.truncated.len()
    &&& context.events.len() <= 200
    &&& total_bytes(context.events) <= 48_000 + 12_400
    &&& forall|i: int| 0 <= i < context.seen.len() ==> #[trigger] context.seen[i] <= context.events.len()
}

proof fn lemma_total_bytes_first(events: Seq<EventView>, count: int)
    requires
        0 <= count <= events.len(),
    ensures
        total_bytes(events.skip(count)) <= total_bytes(events),
    decreases count,
{
    if count > 0 {
        lemma_total_bytes_first(events.drop_first(), count - 1);
        assert(events.drop_first().skip(count - 1) =~= events.skip(count));
    } else {
        assert(events.skip(0) =~= events);
    }
}

proof fn lemma_total_bytes_push(events: Seq<EventView>, event: EventView)
    ensures
        total_bytes(events.push(event)) == total_bytes(events) + byte_len(event.text),
    decreases events.len(),
{
    let more = events.push(event);
    if events.len() == 0 {
        assert(more.drop_first() =~= Seq::<EventView>::empty());
        assert(total_bytes(more.drop_first()) == 0);
    } else {
        assert(more.drop_first() =~= events.drop_first().push(event));
        lemma_total_bytes_push(events.drop_first(), event);
    }
}

proof fn lemma_least_seen(seen: Seq<usize>, active: Seq<bool>, from: int)
    requires
        0 <= from,
    ensures
        match least_seen(seen, active, from) {
            Some(least) => 0 <= least && (exists|i: int|
                from <= i < active.len() && #[trigger] active[i] && least == (if i < seen.len() {
                    seen[i] as int
                } else {
                    0
                })) && forall|i: int|
                from <= i < active.len() && #[trigger] active[i] ==> least <= (if i < seen.len() {
                    seen[i] as int
                } else {
                    0
                }),
            None => forall|i: int| from <= i < active.len() ==> !#[trigger] active[i],
        },
    decreases active.len() - from,
{
    if from < active.len() {
        lemma_least_seen(seen, active, from + 1);
    }
}

proof fn lemma_consumed(context: ContextView, active: Seq<bool>)
    requires
        context_ok(context),
    ensures
        0 <= consumed(context, active) <= context.events.len(),
        forall|i: int|
            0 <= i < active.len() && i < context.seen.len() && #[trigger] active[i] ==> consumed(
                context,
                active,
            ) <= context.seen[i],
{
    lemma_least_seen(context.seen, active, 0);
}

proof fn lemma_without_first_ok(context: ContextView, count: int)
    requires
        context_ok(context),
        0 <= count <= context.events.len(),
    ensures
        context_ok(without_first(context, count)),
{
    lemma_total_bytes_first(context.events, count);
}

proof fn lemma_shed_ok(context: ContextView, active: Seq<bool>)
    requires
        context_ok(context),
    ensures
        context_ok(shed(context, active)),
        shed(context, active).events.len() < 200,
        total_bytes(shed(context, active).events) < 48_000,
        shed(context, active).seen.len() == context.seen.len(),
    decreases context.events.len(),
{
    if too_long(context.events) && context.events.len() > 0 {
        let next = without_oldest(context, active);
        lemma_without_first_ok(context, 1);
        lemma_shed_ok(next, active);
    }
}

/// What an agent has not seen, and no mark on it.
spec fn tells_all(before: ContextView, after: ContextView, slot: int) -> bool {
    after.truncated[slot] || unseen_events(after, slot) == unseen_events(before, slot)
}

proof fn lemma_shed_tells(context: ContextView, active: Seq<bool>, slot: int)
    requires
        context_ok(context),
        0 <= slot < context.seen.len(),
        slot < active.len(),
        active[slot],
    ensures
        tells_all(context, shed(context, active), slot),
        context.truncated[slot] ==> shed(context, active).truncated[slot],
    decreases context.events.len(),
{
    if too_long(context.events) && context.events.len() > 0 {
        let next = without_oldest(context, active);
        lemma_without_first_ok(context, 1);
        lemma_shed_tells(next, active, slot);
        if context.seen[slot] > 0 {
            assert(context.events.skip(1).skip(context.seen[slot] - 1) =~= context.events.skip(
                context.seen[slot] as int,
            ));
        }
    }
}

/// Pruning never hides an update from an active agent without telling it: either
/// all that it had not seen is still there, or the agent is marked and its next
/// text begins with the note.
pub proof fn law_omissions_are_announced(context: ContextView, active: Seq<bool>, slot: int)
    requires
        context_ok(context),
        0 <= slot < context.seen.len(),
        slot < active.len(),
        active[slot],
    ensures
        pruned(context, active).truncated[slot] || unseen_events(pruned(context, active), slot)
            == unseen_events(context, slot),
        context.truncated[slot] ==> pruned(context, active).truncated[slot],
{
    lemma_consumed(context, active);
    let count = consumed(context, active);
    let next = without_first(context, count);
    lemma_without_first_ok(context, count);
    lemma_shed_tells(next, active, slot);
    assert(context.events.skip(count).skip(context.seen[slot] - count) =~= context.events.skip(
        context.seen[slot] as int,
    ));
}

/// The context after an agent has been told that events were dropped.
pub open spec fn told(context: ContextView, slot: int) -> ContextView {
    if slot < context.truncated.len() {
        ContextView { truncated: context.truncated.update(slot, false), ..context }
    } else {
        context
    }
}

/// The context after an agent has seen every event.
pub open spec fn seen_by(context: ContextView, slot: int) -> ContextView {
    if slot < context.seen.len() {
        ContextView {
            seen: context.seen.update(slot, context.events.len() as usize),
            ..context
        }
    } else {
        context
    }
}

/// An agent that was sent what it had not seen, and then marked as having seen it, has
/// nothing new to read, and the other agents have what they had before.
pub proof fn law_nothing_is_sent_twice(context: ContextView, slot: int, other: int)
    requires
        context_ok(context),
        context.events.len() <= usize::MAX,
        0 <= slot < context.seen.len(),
        0 <= other < context.seen.len(),
        other != slot,
    ensures
        unseen_text(seen_by(told(context, slot), slot), slot) == Seq::<char>::empty(),
        unseen_text(seen_by(told(context, slot), slot), other) == unseen_text(context, other),
{
    let after = seen_by(told(context, slot), slot);
    assert(unseen_events(after, slot) =~= Seq::<EventView>::empty());
    assert(updates_of(unseen_events(after, slot)) =~= Seq::<Seq<char>>::empty());
    assert(join(Seq::<Seq<char>>::empty(), "\n\n"@) =~= Seq::<char>::empty());
    assert(byte_len(Seq::<char>::empty()) == 0);
}

/// A recorded event that says something reaches every agent that has not been
/// marked as having seen it.
pub proof fn law_a_new_event_is_unseen_by_all(context: ContextView, event: EventView, slot: int)
    requires
        context_ok(context),
        0 <= slot < context.seen.len(),
        event.text.len() > 0,
    ensures
        unseen_events(with_event(context, event), slot) == unseen_events(context, slot).push(event),
        updates_of(unseen_events(with_event(context, event), slot)).last() == update_text(event),
{
    let more = with_event(context, event);
    assert(more.events.skip(context.seen[slot] as int) =~= context.events.skip(
        context.seen[slot] as int,
    ).push(event));
    assert(unseen_events(more, slot).last() == event);
}

/// The context after two agents exchanged their slots.
pub open spec fn swapped(context: ContextView, first: int, second: int) -> ContextView {
    if first < context.seen.len() && second < context.seen.len() {
        ContextView {
            seen: context.seen.update(first, context.seen[second]).update(
                second,
                context.seen[first],
            ),
            truncated: context.truncated.update(first, context.truncated[second]).update(
                second,
                context.truncated[first],
            ),
            ..context
        }
    } else {
        context
    }
}

/// Exchanging two agents twice changes nothing, and what an agent has not seen
/// moves with it.
pub proof fn law_swapping_follows_the_agents(context: ContextView, first: int, second: int)
    requires
        context_ok(context),
        0 <= first < context.seen.len(),
        0 <= second < context.seen.len(),
    ensures
        swapped(swapped(context, first, second), first, second) == context,
        unseen_text(swapped(context, first, second), second) == unseen_text(context, first),
        unseen_text(swapped(context, first, second), first) == unseen_text(context, second),
{
    let twice = swapped(swapped(context, first, second), first, second);
    assert(twice.seen =~= context.seen);
    assert(twice.truncated =~= context.truncated);
}

impl CollaborationContext {
    pub closed spec fn wf(&self) -> bool {
        context_ok(self@)
    }

    /// Every context keeps its bounds.
    pub proof fn law_contexts_are_bounded(&self)
        requires
            self.wf(),
        ensures
            context_ok(self@),
    {
    }

    pub fn new(agent_count: usize) -> (context: Self)
        ensures
            context.wf(),
            context@ == (ContextView {
                shared_task: None,
                events: Seq::empty(),
                seen: Seq::new(agent_count as nat, |i: int| 0usize),
                truncated: Seq::new(agent_count as nat, |i: int| false),
            }),
    {
        let mut seen: Vec<usize> = Vec::new();
        let mut truncated: Vec<bool> = Vec::new();
        let mut i: usize = 0;
        while i < agent_count
            invariant
                i <= agent_count,
                seen@ == Seq::new(i as nat, |j: int| 0usize),
                truncated@ == Seq::new(i as nat, |j: int| false),
            decreases agent_count - i,
        {
            seen.push(0);
            truncated.push(false);
            i = i + 1;
            assert(seen@ =~= Seq::new(i as nat, |j: int| 0usize));
            assert(truncated@ =~= Seq::new(i as nat, |j: int| false));
        }
        let context = CollaborationContext {
            shared_task: None,
            events: Vec::new(),
            seen,
            truncated,
        };
        assert(context@.events =~= Seq::<EventView>::empty());
        context
    }

    pub fn set_shared_task(&mut self, task: &str)
        requires
            old(self).wf(),
        ensures
            final(self).wf(),
            final(self)@ == (ContextView { shared_task: Some(task@), ..old(self)@ }),
    {
        self.shared_task = Some(task.to_owned());
    }

    pub fn shared_task(&self) -> (task: Option<&str>)
        ensures
            match (task, self@.shared_task) {
                (Some(text), Some(expected)) => text@ == expected,
                (None, None) => true,
                _ => false,
            },
    {
        match &self.shared_task {
            Some(task) => Some(task.as_str()),
            None => None,
        }
    }

    pub fn add_agent(&mut self)
        requires
            old(self).wf(),
        ensures
            final(self).wf(),
            final(self)@ == (ContextView {
                seen: old(self)@.seen.push(0),
                truncated: old(self)@.truncated.push(false),
                ..old(self)@
            }),
    {
        self.seen.push(0);
        self.truncated.push(false);
    }

    /// Records something that was said in public.
    pub fn record(&mut self, speaker: &str, text: &str, active: &[bool])
        requires
            old(self).wf(),
        ensures
            final(self).wf(),
            final(self)@ == with_event(
                pruned(old(self)@, active@),
                EventView { speaker: speaker@, text: compacted(text@) },
            ),
    {
        proof {
            lemma_consumed(self@, active@);
            lemma_without_first_ok(self@, consumed(self@, active@));
            lemma_shed_ok(without_first(self@, consumed(self@, active@)), active@);
        }
        self.prune(active);
        let ghost before = self@;
        let event = PublicEvent { speaker: speaker.to_owned(), text: compact(text) };
        proof {
            lemma_compacted_bounded(text@);
            lemma_total_bytes_push(before.events, event@);
        }
        self.events.push(event);
        assert(self@.events =~= before.events.push(event@));
    }

    pub fn mark_seen(&mut self, slot: usize)
        requires
            old(self).wf(),
        ensures
            final(self).wf(),
            final(self)@ == seen_by(old(self)@, slot as int),
    {
        if slot < self.seen.len() {
            self.seen.set(slot, self.events.len());
        }
    }

    /// Rewind one agent's watermark after a replacement or reload so its next
    /// turn receives the retained public journal again.
    pub fn rewind(&mut self, slot: usize)
        requires
            old(self).wf(),
        ensures
            final(self).wf(),
            final(self)@ == (if slot < old(self)@.seen.len() {
                ContextView { seen: old(self)@.seen.update(slot as int, 0), ..old(self)@ }
            } else {
                old(self)@
            }),
            slot < old(self)@.seen.len() ==> unseen_events(final(self)@, slot as int)
                == old(self)@.events,
    {
        if slot < self.seen.len() {
            self.seen.set(slot, 0);
        }
        assert(self@.events.skip(0) =~= self@.events);
    }

    /// Follow two roster members when their logical slots exchange places.
    /// Watermarks belong to the agent, rather than to the numeric slot, so
    /// moving a live agent must move its context cursor with it as well.
    pub fn swap_agents(&mut self, first: usize, second: usize)
        requires
            old(self).wf(),
        ensures
            final(self).wf(),
            final(self)@ == swapped(old(self)@, first as int, second as int),
    {
        if first < self.seen.len() && second < self.seen.len() {
            let seen_first: usize = self.seen[first];
            let seen_second: usize = self.seen[second];
            self.seen.set(first, seen_second);
            self.seen.set(second, seen_first);
            let cut_first: bool = self.truncated[first];
            let cut_second: bool = self.truncated[second];
            self.truncated.set(first, cut_second);
            self.truncated.set(second, cut_first);
        }
    }

    /// What the agent has not been sent yet. The note on dropped updates is given
    /// once.
    pub fn unseen(&mut self, slot: usize) -> (text: String)
        requires
            old(self).wf(),
        ensures
            final(self).wf(),
            text@ == unseen_text(old(self)@, slot as int),
            byte_len(text@) <= 24_000,
            final(self)@ == told(old(self)@, slot as int),
    {
        broadcast use lemma_strings_push;

        let ghost before = self@;
        let start: usize = if slot < self.seen.len() {
            self.seen[slot]
        } else {
            self.events.len()
        };
        let ghost unseen = before.events.skip(start as int);
        proof {
            if slot >= before.seen.len() {
                assert(unseen =~= Seq::<EventView>::empty());
            }
            assert(unseen == unseen_events(before, slot as int));
        }
        let mut updates: Vec<String> = Vec::new();
        let marked: bool = slot < self.truncated.len() && self.truncated[slot];
        if marked {
            updates.push(
                "[CodeSwarm omitted older unseen updates to protect context.]".to_owned(),
            );
            self.truncated.set(slot, false);
        }
        let ghost front = strings(updates@);
        assert(front =~= if marked {
            seq![omission_note()]
        } else {
            Seq::empty()
        });
        let mut i: usize = start;
        assert(unseen.take(0) =~= Seq::<EventView>::empty());
        assert(strings(updates@) =~= front + updates_of(unseen.take(0)));
        while i < self.events.len()
            invariant
                start <= i <= self.events@.len(),
                self@.events == before.events,
                self@.seen == before.seen,
                self@.shared_task == before.shared_task,
                unseen == before.events.skip(start as int),
                strings(updates@) == front + updates_of(unseen.take(i - start)),
            decreases self.events@.len() - i,
        {
            let ghost next = unseen.take(i + 1 - start);
            proof {
                assert(next.drop_last() =~= unseen.take(i - start));
                assert(next.last() == self@.events[i as int]);
                assert(self@.events[i as int] == self.events@[i as int]@);
            }
            if !self.events[i].text.as_str().is_empty() {
                let mut line = self.events[i].speaker.clone();
                line.append(":\n");
                line.append(self.events[i].text.as_str());
                let ghost shown = strings(updates@);
                assert(front + updates_of(unseen.take(i - start)).push(line@) =~= shown.push(line@));
                updates.push(line);
            }
            i = i + 1;
        }
        assert(unseen.take(i - start) =~= unseen);
        assert(self@.truncated =~= if slot < before.truncated.len() {
            before.truncated.update(slot as int, false)
        } else {
            before.truncated
        });
        let text = limit_updates(&updates, 24_000);
        proof {
            if !marked {
                assert(front + updates_of(unseen) =~= updates_of(unseen));
            }
            law_limited_text_fits(strings(updates@), 24_000);
        }
        text
    }

    fn prune(&mut self, active: &[bool])
        requires
            old(self).wf(),
        ensures
            final(self)@ == pruned(old(self)@, active@),
    {
        let ghost start = self@;
        proof {
            lemma_consumed(start, active@);
        }
        let mut count: usize = 0;
        let mut found: bool = false;
        let mut slot: usize = active.len();
        while slot > 0
            invariant
                slot <= active@.len(),
                self@ == start,
                found == (least_seen(start.seen, active@, slot as int) is Some),
                found ==> least_seen(start.seen, active@, slot as int) == Some(count as int),
                !found ==> count == 0,
            decreases slot,
        {
            slot = slot - 1;
            if active[slot] {
                let own: usize = if slot < self.seen.len() {
                    self.seen[slot]
                } else {
                    0
                };
                if !found || own <= count {
                    count = own;
                }
                found = true;
            }
        }
        assert(count == consumed(start, active@));
        let ghost next = without_first(start, count as int);
        self.drop_first(count);
        proof {
            lemma_without_first_ok(start, count as int);
        }
        let ghost goal = shed(next, active@);
        let mut total: usize = self.text_bytes();
        while self.events.len() >= 200 || total >= 48_000
            invariant
                context_ok(self@),
                total == total_bytes(self@.events),
                goal == shed(self@, active@),
            decreases self.events@.len(),
        {
            let ghost before = self@;
            proof {
                if before.events.len() == 0 {
                    assert(total_bytes(before.events) == 0);
                }
                assert(before.events[0] == self.events@[0]@);
                lemma_without_first_ok(before, 1);
                assert(before.events.skip(1) =~= before.events.drop_first());
            }
            let oldest: usize = byte_length(self.events[0].text.as_str());
            let mut slot: usize = 0;
            while slot < self.seen.len()
                invariant
                    slot <= self.seen@.len(),
                    self@.events == before.events,
                    self@.seen == before.seen,
                    self@.shared_task == before.shared_task,
                    self.truncated@.len() == before.seen.len(),
                    before.truncated.len() == before.seen.len(),
                    forall|i: int|
                        0 <= i < slot ==> #[trigger] self.truncated@[i] == (before.truncated[i] || (
                        before.seen[i] == 0 && i < active@.len() && active@[i])),
                    forall|i: int|
                        slot <= i < self.truncated@.len() ==> #[trigger] self.truncated@[i]
                            == before.truncated[i],
                decreases self.seen@.len() - slot,
            {
                if self.seen[slot] == 0 && slot < active.len() && active[slot] {
                    self.truncated.set(slot, true);
                }
                slot = slot + 1;
            }
            let ghost marked = self@;
            self.drop_first(1);
            total = total - oldest;
            proof {
                let expected = without_oldest(before, active@);
                assert(self@.truncated =~= expected.truncated);
                assert(self@.seen =~= expected.seen);
                assert(self@ == expected);
            }
        }
    }

    /// Drops the first `count` events.
    fn drop_first(&mut self, count: usize)
        requires
            count <= old(self)@.events.len(),
        ensures
            final(self)@ == without_first(old(self)@, count as int),
    {
        let ghost start = self@;
        if count == 0 {
            assert(start.events.skip(0) =~= start.events);
            assert(without_first(start, 0).seen =~= start.seen);
            return;
        }
        let rest = self.events.split_off(count);
        self.events = rest;
        assert(self@.events =~= start.events.skip(count as int));
        let mut slot: usize = 0;
        while slot < self.seen.len()
            invariant
                slot <= self.seen@.len(),
                self.seen@.len() == start.seen.len(),
                self@.events == start.events.skip(count as int),
                self@.truncated == start.truncated,
                self@.shared_task == start.shared_task,
                forall|i: int|
                    0 <= i < slot ==> #[trigger] self.seen@[i] == without_first(
                        start,
                        count as int,
                    ).seen[i],
                forall|i: int|
                    slot <= i < self.seen@.len() ==> #[trigger] self.seen@[i] == start.seen[i],
            decreases self.seen@.len() - slot,
        {
            let own: usize = self.seen[slot];
            self.seen.set(
                slot,
                if own > count {
                    own - count
                } else {
                    0
                },
            );
            slot = slot + 1;
        }
        assert(self@.seen =~= without_first(start, count as int).seen);
    }

    /// The bytes of all event texts together.
    fn text_bytes(&self) -> (total: usize)
        requires
            context_ok(self@),
        ensures
            total == total_bytes(self@.events),
    {
        let mut total: usize = 0;
        let mut i: usize = self.events.len();
        assert(self@.events.skip(i as int) =~= Seq::<EventView>::empty());
        while i > 0
            invariant
                i <= self.events@.len(),
                context_ok(self@),
                total == total_bytes(self@.events.skip(i as int)),
            decreases i,
        {
            i = i - 1;
            proof {
                let rest = self@.events.skip(i as int);
                assert(rest.drop_first() =~= self@.events.skip(i + 1));
                assert(rest[0] == self.events@[i as int]@);
                lemma_total_bytes_first(self@.events, i as int);
            }
            total = total + byte_length(self.events[i].text.as_str());
        }
        assert(self@.events.skip(0) =~= self@.events);
        total
    }
}

} // verus!
