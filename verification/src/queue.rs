//! Prompts that wait for the active turn to finish.

use crate::order::{item_contents, lemma_item_contents_push};
use crate::text::{blank, is_blank};
use vstd::prelude::*;

verus! {

/// The most prompts that wait.
pub const MAX_QUEUED_PROMPTS: usize = 100;

/// A prompt waiting for the currently active turn to finish.
#[derive(Clone, Debug, Eq, PartialEq)]
pub struct QueuedPrompt {
    pub id: u64,
    pub prompt: String,
    pub target: Option<usize>,
    pub direct: bool,
}

pub struct QueuedView {
    pub id: u64,
    pub prompt: Seq<char>,
    pub target: Option<usize>,
    pub direct: bool,
}

impl View for QueuedPrompt {
    type V = QueuedView;

    open spec fn view(&self) -> QueuedView {
        QueuedView {
            id: self.id,
            prompt: self.prompt@,
            target: self.target,
            direct: self.direct,
        }
    }
}

/// The prompts that wait, oldest first, and which of them is selected.
#[derive(Debug)]
pub struct PromptQueue {
    prompts: Vec<QueuedPrompt>,
    next_id: u64,
    selected: Option<usize>,
}

pub struct QueueView {
    pub prompts: Seq<QueuedView>,
    pub next_id: u64,
    pub selected: Option<usize>,
}

impl View for PromptQueue {
    type V = QueueView;

    closed spec fn view(&self) -> QueueView {
        QueueView {
            prompts: item_contents(self.prompts@),
            next_id: self.next_id,
            selected: self.selected,
        }
    }
}

/// The queue is bounded, a selection exists, and identifiers grow from the front to
/// the back as long as there are new ones.
pub open spec fn queue_ok(queue: QueueView) -> bool {
    &&& queue.prompts.len() <= MAX_QUEUED_PROMPTS
    &&& queue.selected matches Some(k) ==> k < queue.prompts.len()
    &&& forall|i: int| 0 <= i < queue.prompts.len() ==> (#[trigger] queue.prompts[i]).id
        <= queue.next_id
    &&& forall|i: int, j: int|
        0 <= i < j < queue.prompts.len() ==> (#[trigger] queue.prompts[i]).id < (
        #[trigger] queue.prompts[j]).id || queue.prompts[j].id == u64::MAX
    &&& queue.next_id < u64::MAX ==> forall|i: int|
        0 <= i < queue.prompts.len() ==> (#[trigger] queue.prompts[i]).id < queue.next_id
}

/// Whether a prompt can wait.
pub open spec fn can_queue(queue: QueueView, prompt: Seq<char>) -> bool {
    !is_blank(prompt) && queue.prompts.len() < MAX_QUEUED_PROMPTS
}

/// The queue with one more prompt, which is selected.
pub open spec fn queued(
    queue: QueueView,
    prompt: Seq<char>,
    target: Option<usize>,
    direct: bool,
) -> QueueView {
    QueueView {
        prompts: queue.prompts.push(QueuedView { id: queue.next_id, prompt, target, direct }),
        next_id: if queue.next_id == u64::MAX {
            u64::MAX
        } else {
            (queue.next_id + 1) as u64
        },
        selected: Some(queue.prompts.len() as usize),
    }
}

/// The place of the first prompt with an identifier.
pub open spec fn place_of(prompts: Seq<QueuedView>, id: u64) -> Option<int>
    decreases prompts.len(),
{
    if prompts.len() == 0 {
        None
    } else if prompts[0].id == id {
        Some(0)
    } else {
        match place_of(prompts.drop_first(), id) {
            Some(k) => Some(k + 1),
            None => None,
        }
    }
}

/// The queue without the prompt at a place. The selection stays as far as it exists.
pub open spec fn without(queue: QueueView, k: int) -> QueueView {
    let left = queue.prompts.remove(k);
    QueueView {
        prompts: left,
        selected: if left.len() == 0 {
            None
        } else {
            let at: int = match queue.selected {
                Some(s) => s as int,
                None => 0,
            };
            Some(
                if at < left.len() {
                    at
                } else {
                    left.len() - 1
                } as usize,
            )
        },
        ..queue
    }
}

/// The selection moved by a number of places, within the queue.
pub open spec fn moved_selection(queue: QueueView, delta: int) -> Option<usize> {
    if queue.prompts.len() == 0 {
        None
    } else {
        let last = queue.prompts.len() - 1;
        let from: int = match queue.selected {
            Some(s) => s as int,
            None => last,
        };
        Some(
            if from + delta < 0 {
                0
            } else if from + delta > last {
                last
            } else {
                from + delta
            } as usize,
        )
    }
}

proof fn lemma_place(prompts: Seq<QueuedView>, id: u64)
    ensures
        match place_of(prompts, id) {
            Some(k) => 0 <= k < prompts.len() && prompts[k].id == id,
            None => true,
        },
    decreases prompts.len(),
{
    if prompts.len() > 0 && prompts[0].id != id {
        lemma_place(prompts.drop_first(), id);
    }
}

/// Prompts wait in the order in which they were queued: a new one goes to the end, with its
/// words and its recipient, and is the selected one; those before it stay as they are.
pub proof fn law_prompts_wait_in_order(
    queue: QueueView,
    prompt: Seq<char>,
    target: Option<usize>,
    direct: bool,
)
    requires
        queue_ok(queue),
        can_queue(queue, prompt),
    ensures
        ({
            let after = queued(queue, prompt, target, direct);
            &&& after.prompts.len() == queue.prompts.len() + 1
            &&& after.prompts.drop_last() == queue.prompts
            &&& after.prompts.last().prompt == prompt
            &&& after.prompts.last().target == target
            &&& after.prompts.last().direct == direct
            &&& after.selected == Some(queue.prompts.len() as usize)
            &&& queue_ok(after)
        }),
{
    let after = queued(queue, prompt, target, direct);
    assert(after.prompts.drop_last() =~= queue.prompts);
}

/// Taking one prompt out of the queue leaves the others, in their order.
pub proof fn law_other_prompts_keep_waiting(queue: QueueView, k: int, i: int)
    requires
        queue_ok(queue),
        0 <= k < queue.prompts.len(),
        0 <= i < queue.prompts.len() - 1,
    ensures
        without(queue, k).prompts.len() == queue.prompts.len() - 1,
        without(queue, k).prompts[i] == (if i < k {
            queue.prompts[i]
        } else {
            queue.prompts[i + 1]
        }),
        without(queue, k).selected matches Some(s) && s < queue.prompts.len() - 1,
{
}

/// The selection moves by as many prompts as were asked for, and stops at either end.
pub proof fn law_the_selection_stays_in_the_queue(queue: QueueView, delta: int)
    requires
        queue_ok(queue),
        queue.prompts.len() > 0,
        queue.selected is Some,
    ensures
        moved_selection(queue, delta) matches Some(after) && after < queue.prompts.len() && (0
            <= queue.selected->0 + delta < queue.prompts.len() ==> after == queue.selected->0
            + delta) && (queue.selected->0 + delta < 0 ==> after == 0) && (queue.selected->0 + delta
            >= queue.prompts.len() ==> after == queue.prompts.len() - 1),
{
}

/// A prompt that is queued can be taken back: removing it by its identifier restores
/// the prompts that were there.
pub proof fn law_queued_prompts_can_be_taken_back(
    queue: QueueView,
    prompt: Seq<char>,
    target: Option<usize>,
    direct: bool,
)
    requires
        queue_ok(queue),
        can_queue(queue, prompt),
        queue.next_id < u64::MAX,
    ensures
        ({
            let after = queued(queue, prompt, target, direct);
            place_of(after.prompts, queue.next_id) == Some(queue.prompts.len() as int) && without(
                after,
                queue.prompts.len() as int,
            ).prompts == queue.prompts
        }),
{
    let after = queued(queue, prompt, target, direct);
    lemma_place_at_end(queue.prompts, after.prompts.last());
    assert(after.prompts.remove(queue.prompts.len() as int) =~= queue.prompts);
}

proof fn lemma_place_at_end(prompts: Seq<QueuedView>, item: QueuedView)
    requires
        forall|i: int| 0 <= i < prompts.len() ==> (#[trigger] prompts[i]).id != item.id,
    ensures
        place_of(prompts.push(item), item.id) == Some(prompts.len() as int),
    decreases prompts.len(),
{
    if prompts.len() > 0 {
        let rest = prompts.drop_first();
        assert forall|i: int| 0 <= i < rest.len() implies (#[trigger] rest[i]).id != item.id by {
            assert(prompts[i + 1].id != item.id);
        }
        lemma_place_at_end(rest, item);
        assert(prompts.push(item).drop_first() =~= rest.push(item));
        assert(prompts.push(item)[0] == prompts[0]);
    } else {
        assert(prompts.push(item)[0] == item);
    }
}

impl PromptQueue {
    pub closed spec fn wf(&self) -> bool {
        queue_ok(self@)
    }

    /// The queue is bounded, and a selection exists.
    pub proof fn law_queues_are_bounded(&self)
        requires
            self.wf(),
        ensures
            queue_ok(self@),
    {
    }

    pub fn new() -> (queue: Self)
        ensures
            queue.wf(),
            queue@ == (QueueView { prompts: Seq::empty(), next_id: 0, selected: None }),
    {
        let queue = PromptQueue { prompts: Vec::new(), next_id: 0, selected: None };
        assert(queue@.prompts =~= Seq::empty());
        queue
    }

    /// Adds a prompt while another turn is active. A blank prompt does not wait, nor
    /// does one for which there is no room.
    pub fn queue_prompt(&mut self, prompt: String, target: Option<usize>, direct: bool) -> (id:
        Option<u64>)
        requires
            old(self).wf(),
        ensures
            final(self).wf(),
            match id {
                Some(id) => can_queue(old(self)@, prompt@) && id == old(self)@.next_id
                    && final(self)@ == queued(old(self)@, prompt@, target, direct),
                None => !can_queue(old(self)@, prompt@) && final(self)@ == old(self)@,
            },
    {
        broadcast use lemma_item_contents_push;

        if blank(prompt.as_str()) || self.prompts.len() >= MAX_QUEUED_PROMPTS {
            return None;
        }
        let id: u64 = self.next_id;
        let place: usize = self.prompts.len();
        if self.next_id < u64::MAX {
            self.next_id = self.next_id + 1;
        }
        self.prompts.push(QueuedPrompt { id, prompt, target, direct });
        self.selected = Some(place);
        proof {
            assert forall|i: int| 0 <= i < self@.prompts.len() implies (
            #[trigger] self@.prompts[i]).id <= self@.next_id by {
                if i < place {
                    assert(self@.prompts[i] == old(self)@.prompts[i]);
                }
            }
            assert forall|i: int, j: int| 0 <= i < j < self@.prompts.len() implies (
            #[trigger] self@.prompts[i]).id < (#[trigger] self@.prompts[j]).id
                || self@.prompts[j].id == u64::MAX by {
                assert(self@.prompts[i] == old(self)@.prompts[i]);
                if j < place {
                    assert(self@.prompts[j] == old(self)@.prompts[j]);
                }
            }
            if self@.next_id < u64::MAX {
                assert forall|i: int| 0 <= i < self@.prompts.len() implies (
                #[trigger] self@.prompts[i]).id < self@.next_id by {
                    if i < place {
                        assert(self@.prompts[i] == old(self)@.prompts[i]);
                    }
                }
            }
        }
        Some(id)
    }

    /// The prompts that wait, oldest first.
    pub fn prompts(&self) -> (prompts: &Vec<QueuedPrompt>)
        ensures
            item_contents(prompts@) == self@.prompts,
    {
        &self.prompts
    }

    pub fn len(&self) -> (count: usize)
        ensures
            count == self@.prompts.len(),
    {
        self.prompts.len()
    }

    pub fn selected(&self) -> (index: Option<usize>)
        ensures
            index == self@.selected,
    {
        self.selected
    }

    /// The prompt that has waited longest.
    pub fn front(&self) -> (prompt: Option<&QueuedPrompt>)
        ensures
            match prompt {
                Some(first) => self@.prompts.len() > 0 && first@ == self@.prompts[0],
                None => self@.prompts.len() == 0,
            },
    {
        if self.prompts.len() > 0 {
            assert(self@.prompts[0] == self.prompts@[0]@);
            Some(&self.prompts[0])
        } else {
            None
        }
    }

    /// Takes a prompt out by its identifier.
    pub fn remove(&mut self, id: u64) -> (taken: Option<QueuedPrompt>)
        requires
            old(self).wf(),
        ensures
            final(self).wf(),
            match (taken, place_of(old(self)@.prompts, id)) {
                (Some(prompt), Some(k)) => prompt@ == old(self)@.prompts[k] && final(self)@
                    == without(old(self)@, k),
                (None, None) => final(self)@ == old(self)@,
                _ => false,
            },
    {
        let ghost before = self@;
        let mut k: usize = 0;
        assert(before.prompts.skip(0) =~= before.prompts);
        while k < self.prompts.len() && self.prompts[k].id != id
            invariant
                self@ == before,
                k <= self.prompts@.len(),
                place_of(before.prompts, id) == (match place_of(
                    before.prompts.skip(k as int),
                    id,
                ) {
                    Some(p) => Some(p + k),
                    None => None,
                }),
            decreases self.prompts@.len() - k,
        {
            assert(before.prompts.skip(k as int).drop_first() =~= before.prompts.skip(k + 1));
            assert(before.prompts.skip(k as int)[0] == self.prompts@[k as int]@);
            k = k + 1;
        }
        if k >= self.prompts.len() {
            assert(before.prompts.skip(k as int).len() == 0);
            return None;
        }
        assert(before.prompts.skip(k as int)[0] == self.prompts@[k as int]@);
        let ghost held = self.prompts@;
        let taken = self.prompts.remove(k);
        proof {
            assert(taken@ == before.prompts[k as int]);
            assert(item_contents(held.remove(k as int)) =~= before.prompts.remove(k as int));
        }
        let left: usize = self.prompts.len();
        self.selected = if left == 0 {
            None
        } else {
            let at: usize = match self.selected {
                Some(s) => s,
                None => 0,
            };
            Some(
                if at < left {
                    at
                } else {
                    left - 1
                },
            )
        };
        proof {
            let after = before.prompts.remove(k as int);
            assert(self@.prompts == after);
            assert forall|i: int| 0 <= i < after.len() implies (#[trigger] after[i]).id
                <= self@.next_id by {
                let m = if i < k {
                    i
                } else {
                    i + 1
                };
                assert(after[i] == before.prompts[m]);
            }
            assert forall|i: int, j: int| 0 <= i < j < after.len() implies (#[trigger] after[i]).id
                < (#[trigger] after[j]).id || after[j].id == u64::MAX by {
                let m = if i < k {
                    i
                } else {
                    i + 1
                };
                let n = if j < k {
                    j
                } else {
                    j + 1
                };
                assert(after[i] == before.prompts[m]);
                assert(after[j] == before.prompts[n]);
            }
            if self@.next_id < u64::MAX {
                assert forall|i: int| 0 <= i < after.len() implies (#[trigger] after[i]).id
                    < self@.next_id by {
                    let m = if i < k {
                        i
                    } else {
                        i + 1
                    };
                    assert(after[i] == before.prompts[m]);
                }
            }
        }
        Some(taken)
    }

    /// Moves the selection by a number of places, within the queue.
    pub fn move_selection(&mut self, delta: isize) -> (index: Option<usize>)
        requires
            old(self).wf(),
        ensures
            final(self).wf(),
            index == moved_selection(old(self)@, delta as int),
            final(self)@ == (QueueView {
                selected: if index is Some {
                    index
                } else {
                    old(self)@.selected
                },
                ..old(self)@
            }),
    {
        if self.prompts.len() == 0 {
            return None;
        }
        let last: usize = self.prompts.len() - 1;
        let from: usize = match self.selected {
            Some(s) => s,
            None => last,
        };
        let wanted: i128 = from as i128 + delta as i128;
        let next: usize = if wanted < 0 {
            0
        } else if wanted > last as i128 {
            last
        } else {
            wanted as usize
        };
        self.selected = Some(next);
        Some(next)
    }
}

} // verus!
