//! Viewport-oriented transcript data with stable logical blocks.
//!
//! Once the rows for a width are cached, rendering a scroll position is a lookup
//! over cached rows; an edit lays out only the blocks from the edited one on.

use crate::layout::{
    at_least_one, lay_block, lay_one, lay_out, row_contents, BlockKind, BlockView, Laid, RenderRow,
    RowView, TranscriptBlock,
};
use crate::text::{optional, to_chars, to_text, trim, trimmed};
use std::collections::BTreeMap;
use vstd::prelude::*;

verus! {

broadcast use vstd::std_specs::btree::group_btree_axioms;

/// The contents of a list of blocks.
pub open spec fn block_contents(blocks: Seq<TranscriptBlock>) -> Seq<BlockView> {
    Seq::new(blocks.len(), |i: int| blocks[i]@)
}

/// The place of the block with the identifier, if there is one.
pub open spec fn place_of(blocks: Seq<BlockView>, id: u64) -> Option<int>
    decreases blocks.len(),
{
    if blocks.len() == 0 {
        None
    } else if blocks[0].id == id {
        Some(0)
    } else {
        match place_of(blocks.drop_first(), id) {
            Some(k) => Some(k + 1),
            None => None,
        }
    }
}

/// Whether a block from place `from` on has the identifier.
#[verifier::opaque]
pub open spec fn has_id(blocks: Seq<BlockView>, from: int, id: u64) -> bool {
    exists|j: int| from <= j < blocks.len() && #[trigger] blocks[j].id == id
}

proof fn lemma_has_id(blocks: Seq<BlockView>, from: int, j: int)
    requires
        from <= j < blocks.len(),
    ensures
        has_id(blocks, from, blocks[j].id),
{
    reveal(has_id);
}

proof fn lemma_place_with_id(blocks: Seq<BlockView>, from: int, id: u64) -> (j: int)
    requires
        has_id(blocks, from, id),
    ensures
        from <= j < blocks.len(),
        blocks[j].id == id,
{
    reveal(has_id);
    choose|j: int| from <= j < blocks.len() && #[trigger] blocks[j].id == id
}

/// No two blocks share an identifier, and every identifier is below the number of blocks.
pub open spec fn ids_in_order(blocks: Seq<BlockView>) -> bool {
    &&& forall|i: int, j: int|
        0 <= i < j < blocks.len() ==> (#[trigger] blocks[i]).id != (#[trigger] blocks[j]).id
    &&& forall|i: int| 0 <= i < blocks.len() ==> (#[trigger] blocks[i]).id < blocks.len()
}

proof fn lemma_place_of(blocks: Seq<BlockView>, id: u64)
    ensures
        match place_of(blocks, id) {
            Some(k) => 0 <= k < blocks.len() && blocks[k].id == id && forall|j: int|
                0 <= j < k ==> (#[trigger] blocks[j]).id != id,
            None => forall|j: int| 0 <= j < blocks.len() ==> (#[trigger] blocks[j]).id != id,
        },
    decreases blocks.len(),
{
    if blocks.len() > 0 && blocks[0].id != id {
        let rest = blocks.drop_first();
        lemma_place_of(rest, id);
        assert forall|j: int|
            0 < j < blocks.len() && rest[j - 1].id != id implies (#[trigger] blocks[j]).id != id by {}
        match place_of(rest, id) {
            Some(k) => {
                assert forall|j: int| 0 <= j < k + 1 implies (#[trigger] blocks[j]).id != id by {
                    if j > 0 {
                        assert(rest[j - 1] == blocks[j]);
                    }
                }
            },
            None => {
                assert forall|j: int| 0 <= j < blocks.len() implies (#[trigger] blocks[j]).id
                    != id by {
                    if j > 0 {
                        assert(rest[j - 1] == blocks[j]);
                    }
                }
            },
        }
    }
}

/// The first row of the block with the identifier, counted from the top of the
/// conversation laid out at a width.
pub open spec fn first_row_of(blocks: Seq<BlockView>, id: u64, width: int) -> Option<int> {
    match place_of(blocks, id) {
        Some(k) => Some(lay_out(blocks.take(k), width).rows.len() as int),
        None => None,
    }
}

proof fn lemma_rows_grow(blocks: Seq<BlockView>, i: int, j: int, width: int)
    requires
        0 <= i <= j <= blocks.len(),
    ensures
        lay_out(blocks.take(i), width).rows.len() <= lay_out(blocks.take(j), width).rows.len(),
        lay_out(blocks.take(j), width).rows.take(lay_out(blocks.take(i), width).rows.len() as int)
            == lay_out(blocks.take(i), width).rows,
    decreases j - i,
{
    let start = lay_out(blocks.take(i), width).rows;
    if i < j {
        lemma_rows_grow(blocks, i, j - 1, width);
        let upper = blocks.take(j);
        assert(upper.drop_last() =~= blocks.take(j - 1));
        let prev = lay_out(blocks.take(j - 1), width);
        let next = lay_out(upper, width);
        assert(next == lay_block(prev, upper.last(), width));
        reveal(lay_block);
        assert(next.rows.take(prev.rows.len() as int) =~= prev.rows);
        assert(next.rows.take(start.len() as int) =~= prev.rows.take(start.len() as int));
    } else {
        assert(start.take(start.len() as int) =~= start);
    }
}

/// The rows of a prefix of the blocks at one width, with what may be left of an
/// earlier layout behind them.
#[derive(Clone, Debug)]
struct RowCache {
    width: usize,
    rows: Vec<RenderRow>,
    block_starts: BTreeMap<u64, usize>,
    valid_blocks: usize,
    headers: Vec<Option<String>>,
}

impl RowCache {
    /// The rows of the valid blocks.
    spec fn done(self, blocks: Seq<BlockView>) -> Laid {
        lay_out(blocks.take(self.valid_blocks as int), self.width as int)
    }

    spec fn shown(self) -> Seq<RowView> {
        row_contents(self.rows@)
    }

    /// What the cache knows of the blocks: their first `valid_blocks` are laid out
    /// as from scratch, and whatever is left of later ones starts behind them.
    spec fn fits(self, blocks: Seq<BlockView>) -> bool {
        let count = self.done(blocks).rows.len();
        &&& 1 <= self.width
        &&& self.valid_blocks <= blocks.len()
        &&& count <= self.shown().len()
        &&& self.shown().take(count as int) == self.done(blocks).rows
        &&& forall|i: int|
            0 <= i < self.valid_blocks ==> self.block_starts@.contains_key(
                (#[trigger] blocks[i]).id,
            ) && self.block_starts@[blocks[i].id] == lay_out(
                blocks.take(i),
                self.width as int,
            ).rows.len()
        &&& forall|id: u64|
            has_id(blocks, self.valid_blocks as int, id) && self.block_starts@.contains_key(id)
                ==> self.block_starts@[id] >= count
        &&& self.shown() == self.done(blocks).rows || exists|id: u64|
            has_id(blocks, self.valid_blocks as int, id) && self.block_starts@.contains_key(id)
                && self.block_starts@[id] == count
        &&& forall|id: u64| self.block_starts@.contains_key(id) ==> has_id(blocks, 0, id)
        &&& (self.valid_blocks == 0 && self.headers@.len() == 0) || (self.headers@.len()
            > self.valid_blocks && forall|i: int|
            0 <= i <= self.valid_blocks ==> optional(#[trigger] self.headers@[i]) == lay_out(
                blocks.take(i),
                self.width as int,
            ).speaker)
    }

    spec fn empty_at(self, width: usize) -> bool {
        &&& self.width == width
        &&& self.rows@.len() == 0
        &&& self.block_starts@ == Map::<u64, usize>::empty()
        &&& self.valid_blocks == 0
        &&& self.headers@.len() == 0
    }
}

/// An edit from `index` on: no identifier is lost, none moves to before `index`,
/// and others are new.
#[verifier::opaque]
spec fn ids_follow(before: Seq<BlockView>, after: Seq<BlockView>, index: int) -> bool {
    &&& forall|k: int, id: u64|
        0 <= k <= index && #[trigger] has_id(before, k, id) ==> has_id(after, k, id)
    &&& forall|k: int, id: u64|
        0 <= k <= index && #[trigger] has_id(after, k, id) ==> has_id(before, k, id) || !has_id(
            before,
            0,
            id,
        )
}

proof fn lemma_ids_after_push(before: Seq<BlockView>, block: BlockView)
    requires
        ids_in_order(before),
        block.id == before.len(),
    ensures
        ids_in_order(before.push(block)),
        ids_follow(before, before.push(block), before.len() as int),
        before.push(block).take(before.len() as int) == before.take(before.len() as int),
{
    reveal(ids_follow);
    let new = before.push(block);
    let index = before.len() as int;
    assert(new.take(index) =~= before.take(index));
    assert forall|i: int, j: int| 0 <= i < j < new.len() implies (#[trigger] new[i]).id != (
    #[trigger] new[j]).id by {
        assert(before[i].id < before.len());
    }
    assert forall|i: int| 0 <= i < new.len() implies (#[trigger] new[i]).id < new.len() by {
        if i < index {
            assert(before[i].id < before.len());
        }
    }
    assert forall|k: int, x: u64| 0 <= k <= index && #[trigger] has_id(before, k, x) implies has_id(
        new,
        k,
        x,
    ) by {
        let j = lemma_place_with_id(before, k, x);
        lemma_has_id(new, k, j);
    }
    assert forall|k: int, x: u64| 0 <= k <= index && #[trigger] has_id(new, k, x) implies has_id(
        before,
        k,
        x,
    ) || !has_id(before, 0, x) by {
        let j = lemma_place_with_id(new, k, x);
        if j < index {
            lemma_has_id(before, k, j);
        } else if has_id(before, 0, x) {
            let m = lemma_place_with_id(before, 0, x);
            assert(before[m].id < before.len());
        }
    }
}

/// Changing a block but not its identifier.
proof fn lemma_ids_after_update(before: Seq<BlockView>, index: int, block: BlockView)
    requires
        ids_in_order(before),
        0 <= index < before.len(),
        block.id == before[index].id,
    ensures
        ids_in_order(before.update(index, block)),
        ids_follow(before, before.update(index, block), index),
        before.update(index, block).take(index) == before.take(index),
{
    reveal(ids_follow);
    let new = before.update(index, block);
    assert(new.take(index) =~= before.take(index));
    assert forall|k: int, x: u64| 0 <= k <= index && #[trigger] has_id(before, k, x) implies has_id(
        new,
        k,
        x,
    ) by {
        let j = lemma_place_with_id(before, k, x);
        lemma_has_id(new, k, j);
    }
    assert forall|k: int, x: u64| 0 <= k <= index && #[trigger] has_id(new, k, x) implies has_id(
        before,
        k,
        x,
    ) by {
        let j = lemma_place_with_id(new, k, x);
        lemma_has_id(before, k, j);
    }
}

/// The blocks with the one at `from` moved to `to`, above it.
pub open spec fn moved(blocks: Seq<BlockView>, from: int, to: int) -> Seq<BlockView> {
    blocks.remove(from).insert(to, blocks[from])
}

proof fn lemma_ids_after_move(before: Seq<BlockView>, from: int, to: int)
    requires
        ids_in_order(before),
        0 <= to < from < before.len(),
    ensures
        ids_in_order(moved(before, from, to)),
        ids_follow(before, moved(before, from, to), to),
        moved(before, from, to).take(to) == before.take(to),
        moved(before, from, to).len() == before.len(),
{
    reveal(ids_follow);
    let new = moved(before, from, to);
    assert(new.len() == before.len());
    let origin = |j: int| if j < to {
        j
    } else if j == to {
        from
    } else if j <= from {
        j - 1
    } else {
        j
    };
    assert forall|j: int| 0 <= j < new.len() implies #[trigger] new[j] == before[origin(j)] by {}
    assert(new.take(to) =~= before.take(to));
    assert forall|i: int, j: int| 0 <= i < j < new.len() implies (#[trigger] new[i]).id != (
    #[trigger] new[j]).id by {
        assert(new[i] == before[origin(i)] && new[j] == before[origin(j)]);
        if origin(i) < origin(j) {
        } else {
            assert(before[origin(j)].id != before[origin(i)].id);
        }
    }
    assert forall|i: int| 0 <= i < new.len() implies (#[trigger] new[i]).id < new.len() by {
        assert(new[i] == before[origin(i)]);
    }
    assert forall|k: int, x: u64| 0 <= k <= to && #[trigger] has_id(before, k, x) implies has_id(
        new,
        k,
        x,
    ) by {
        let j = lemma_place_with_id(before, k, x);
        let target = if j < to {
            j
        } else if j < from {
            j + 1
        } else if j == from {
            to
        } else {
            j
        };
        assert(new[target] == before[origin(target)]);
        lemma_has_id(new, k, target);
    }
    assert forall|k: int, x: u64| 0 <= k <= to && #[trigger] has_id(new, k, x) implies has_id(
        before,
        k,
        x,
    ) by {
        let j = lemma_place_with_id(new, k, x);
        assert(new[j] == before[origin(j)]);
        lemma_has_id(before, k, origin(j));
    }
}

/// A cache that fits keeps fitting when blocks from `index` on change, as long as
/// it forgets those.
proof fn lemma_forget(
    cache: RowCache,
    kept: RowCache,
    before: Seq<BlockView>,
    after: Seq<BlockView>,
    index: int,
)
    requires
        cache.fits(before),
        0 <= index <= before.len(),
        index <= after.len(),
        before.take(index) == after.take(index),
        kept.width == cache.width,
        kept.rows == cache.rows,
        kept.block_starts == cache.block_starts,
        kept.headers == cache.headers,
        kept.valid_blocks == (if cache.valid_blocks < index {
            cache.valid_blocks as int
        } else {
            index
        }),
        ids_follow(before, after, index),
    ensures
        kept.fits(after),
{
    reveal(ids_follow);
    let v = cache.valid_blocks as int;
    let k = kept.valid_blocks as int;
    let w = cache.width as int;
    assert forall|i: int| 0 <= i <= k implies #[trigger] after.take(i) == before.take(i) by {
        assert(after.take(i) =~= after.take(index).take(i));
        assert(before.take(i) =~= before.take(index).take(i));
    }
    lemma_rows_grow(before, k, v, w);
    let count = kept.done(after).rows.len();
    assert(kept.done(after) == lay_out(before.take(k), w));
    let upper = cache.done(before).rows;
    assert(kept.shown().take(count as int) =~= upper.take(count as int));
    assert forall|i: int| 0 <= i < k implies kept.block_starts@.contains_key((#[trigger] after[i]).id)
        && kept.block_starts@[after[i].id] == lay_out(after.take(i), w).rows.len() by {
        assert(after[i] == after.take(index)[i]);
        assert(before[i] == before.take(index)[i]);
    }
    assert forall|id: u64|
        has_id(after, k, id) && kept.block_starts@.contains_key(id) implies kept.block_starts@[id]
        >= count by {
        assert(has_id(before, 0, id));
        assert(has_id(before, k, id));
        let j = lemma_place_with_id(before, k, id);
        if j < v {
            lemma_rows_grow(before, k, j, w);
        } else {
            lemma_has_id(before, v, j);
        }
    }
    if kept.shown() != kept.done(after).rows {
        if k < v {
            lemma_has_id(before, k, k);
            assert(has_id(after, k, before[k].id));
            assert(kept.block_starts@[before[k].id] == count);
        } else {
            let id = choose|id: u64|
                has_id(before, v, id) && cache.block_starts@.contains_key(id)
                    && cache.block_starts@[id] == cache.done(before).rows.len();
            assert(has_id(after, k, id));
        }
    }
    assert forall|id: u64| kept.block_starts@.contains_key(id) implies has_id(after, 0, id) by {
        assert(has_id(before, 0, id));
    }
}

/// The conversation, with its rows cached at the two widths used last.
#[derive(Clone, Debug)]
pub struct Transcript {
    blocks: Vec<TranscriptBlock>,
    next_id: u64,
    current: Option<RowCache>,
    alternate: Option<RowCache>,
}

impl View for Transcript {
    type V = Seq<BlockView>;

    closed spec fn view(&self) -> Seq<BlockView> {
        block_contents(self.blocks@)
    }
}

impl Default for Transcript {
    fn default() -> (transcript: Self)
        ensures
            transcript.wf(),
            transcript@ == Seq::<BlockView>::empty(),
    {
        let transcript = Transcript {
            blocks: Vec::new(),
            next_id: 0,
            current: None,
            alternate: None,
        };
        assert(transcript@ =~= Seq::<BlockView>::empty());
        transcript
    }
}

impl Transcript {
    /// Identifiers are handed out in order and never twice, and both caches hold
    /// rows of the present blocks.
    pub closed spec fn wf(&self) -> bool {
        &&& ids_in_order(self@)
        &&& self.next_id == self.blocks@.len()
        &&& match self.current {
            Some(cache) => cache.fits(self@),
            None => true,
        }
        &&& match self.alternate {
            Some(cache) => cache.fits(self@),
            None => true,
        }
    }

    /// The rows laid out last.
    pub closed spec fn cached(&self) -> Seq<RowView> {
        match self.current {
            Some(cache) => cache.shown(),
            None => Seq::empty(),
        }
    }

    /// In a transcript no two blocks share an identifier, and every identifier is
    /// below the number of blocks.
    pub proof fn law_identifiers_are_distinct(&self)
        requires
            self.wf(),
        ensures
            ids_in_order(self@),
    {
    }

    /// Forgets the rows of the blocks from `index` on.
    fn invalidate_from(&mut self, index: usize)
        ensures
            final(self).blocks == old(self).blocks,
            final(self).next_id == old(self).next_id,
            match (old(self).current, final(self).current) {
                (Some(before), Some(after)) => forgets(before, after, index),
                (None, None) => true,
                _ => false,
            },
            match (old(self).alternate, final(self).alternate) {
                (Some(before), Some(after)) => forgets(before, after, index),
                (None, None) => true,
                _ => false,
            },
    {
        if let Some(mut cache) = self.current.take() {
            if index < cache.valid_blocks {
                cache.valid_blocks = index;
            }
            self.current = Some(cache);
        }
        if let Some(mut cache) = self.alternate.take() {
            if index < cache.valid_blocks {
                cache.valid_blocks = index;
            }
            self.alternate = Some(cache);
        }
    }

    /// Forgets all cached rows.
    pub fn invalidate_rows(&mut self)
        requires
            old(self).wf(),
        ensures
            final(self).wf(),
            final(self)@ == old(self)@,
    {
        self.current = None;
        self.alternate = None;
    }

    /// Both caches fit the changed blocks.
    proof fn lemma_edited(
        before: Transcript,
        after: Transcript,
        index: int,
    )
        requires
            before.wf(),
            0 <= index <= before@.len(),
            index <= after@.len(),
            before@.take(index) == after@.take(index),
            ids_in_order(after@),
            after.next_id == after.blocks@.len(),
            match (before.current, after.current) {
                (Some(b), Some(a)) => forgets(b, a, index as usize),
                (None, None) => true,
                _ => false,
            },
            match (before.alternate, after.alternate) {
                (Some(b), Some(a)) => forgets(b, a, index as usize),
                (None, None) => true,
                _ => false,
            },
            index <= usize::MAX,
            ids_follow(before@, after@, index),
        ensures
            after.wf(),
    {
        if let (Some(b), Some(a)) = (before.current, after.current) {
            lemma_forget(b, a, before@, after@, index);
        }
        if let (Some(b), Some(a)) = (before.alternate, after.alternate) {
            lemma_forget(b, a, before@, after@, index);
        }
    }

    /// The place of the block with the identifier.
    fn position(&self, id: u64) -> (place: Option<usize>)
        ensures
            match place {
                Some(k) => place_of(self@, id) == Some(k as int) && k < self.blocks@.len(),
                None => place_of(self@, id) is None,
            },
    {
        let mut i: usize = 0;
        assert(self@.skip(0) =~= self@);
        while i < self.blocks.len()
            invariant
                i <= self.blocks@.len(),
                match place_of(self@.skip(i as int), id) {
                    Some(k) => place_of(self@, id) == Some(k + i),
                    None => place_of(self@, id) is None,
                },
            decreases self.blocks@.len() - i,
        {
            assert(self@.skip(i as int)[0] == self.blocks@[i as int]@);
            if self.blocks[i].id == id {
                return Some(i);
            }
            assert(self@.skip(i as int).drop_first() =~= self@.skip(i + 1));
            i = i + 1;
        }
        assert(self@.skip(i as int).len() == 0);
        None
    }

    /// Append a logical block. Row materialization is deferred until a
    /// viewport requests it at a concrete width.
    pub fn append(&mut self, kind: BlockKind, source: &str, collapsed: bool) -> (id: u64)
        requires
            old(self).wf(),
        ensures
            final(self).wf(),
            id == old(self)@.len(),
            final(self)@ == old(self)@.push(BlockView { id, kind, source: source@, collapsed }),
    {
        let ghost before = *self;
        let id: u64 = self.next_id;
        let index: usize = self.blocks.len();
        let block = TranscriptBlock { id, kind, source: source.to_owned(), collapsed };
        self.blocks.push(block);
        self.next_id = id.saturating_add(1);
        self.invalidate_from(index);
        proof {
            assert(self.blocks.len() == index + 1);
            assert(self@ =~= before@.push(block@));
            lemma_ids_after_push(before@, block@);
            Self::lemma_edited(before, *self, index as int);
        }
        id
    }
}

/// The heading that the export gives a kind of block.
pub open spec fn heading(kind: BlockKind) -> Seq<char> {
    match kind {
        BlockKind::Human => "User"@,
        BlockKind::Agent => "Agent"@,
        BlockKind::Thought => "Thought"@,
        BlockKind::Tool => "Tool"@,
        BlockKind::Terminal => "Terminal"@,
        BlockKind::Activity => "Tool"@,
        BlockKind::Diff => "Diff"@,
        BlockKind::Notice => "CodeSwarm"@,
    }
}

/// The export of a conversation: each block that is not blank under the heading of
/// its kind, whether it is collapsed or not.
pub open spec fn exported(blocks: Seq<BlockView>) -> Seq<char>
    decreases blocks.len(),
{
    if blocks.len() == 0 {
        "# CodeSwarm Conversation\n\n"@
    } else {
        let above = exported(blocks.drop_last());
        let source = trim(blocks.last().source);
        if source.len() == 0 {
            above
        } else {
            above + "## "@ + heading(blocks.last().kind) + "\n\n"@ + source + "\n\n"@
        }
    }
}

/// The rows from `first` up to `last`, both cut to the number of rows there are.
pub open spec fn window(rows: Seq<RowView>, first: int, last: int) -> Seq<RowView> {
    let len = rows.len() as int;
    rows.subrange(
        if first < len {
            first
        } else {
            len
        },
        if last < len {
            last
        } else {
            len
        },
    )
}

fn heading_text(kind: BlockKind) -> (text: &'static str)
    ensures
        text@ == heading(kind),
{
    match kind {
        BlockKind::Human => "User",
        BlockKind::Agent => "Agent",
        BlockKind::Thought => "Thought",
        BlockKind::Tool => "Tool",
        BlockKind::Terminal => "Terminal",
        BlockKind::Activity => "Tool",
        BlockKind::Diff => "Diff",
        BlockKind::Notice => "CodeSwarm",
    }
}

impl Transcript {
    /// Place a block before another while retaining identifiers, source and
    /// expansion. Only the affected suffix needs layout.
    pub fn move_before(&mut self, id: u64, before: u64) -> (found: bool)
        requires
            old(self).wf(),
        ensures
            final(self).wf(),
            match (place_of(old(self)@, id), place_of(old(self)@, before)) {
                (Some(from), Some(to)) => found && final(self)@ == (if from <= to {
                    old(self)@
                } else {
                    moved(old(self)@, from, to)
                }),
                _ => !found && final(self)@ == old(self)@,
            },
    {
        let from: usize = match self.position(id) {
            Some(from) => from,
            None => {
                return false;
            },
        };
        let to: usize = match self.position(before) {
            Some(to) => to,
            None => {
                return false;
            },
        };
        if from <= to {
            return true;
        }
        let ghost start = *self;
        let block = self.blocks.remove(from);
        self.blocks.insert(to, block);
        self.invalidate_from(to);
        proof {
            assert(self@ =~= moved(start@, from as int, to as int));
            lemma_ids_after_move(start@, from as int, to as int);
            Self::lemma_edited(start, *self, to as int);
        }
        true
    }

    /// Number of durable logical blocks, not currently visible terminal rows.
    pub fn len(&self) -> (count: usize)
        ensures
            count == self@.len(),
    {
        self.blocks.len()
    }

    pub fn is_empty(&self) -> (empty: bool)
        ensures
            empty == (self@.len() == 0),
    {
        self.blocks.len() == 0
    }

    /// Export the retained logical conversation without forcing the terminal
    /// renderer to materialize or rewrap the transcript. Hidden details remain
    /// available in the export even when their on-screen row is collapsed.
    pub fn markdown(&self) -> (output: String)
        ensures
            output@ == exported(self@),
    {
        let mut output = String::from_str("# CodeSwarm Conversation\n\n");
        let mut i: usize = 0;
        assert(self@.take(0).len() == 0);
        while i < self.blocks.len()
            invariant
                i <= self.blocks@.len(),
                output@ == exported(self@.take(i as int)),
            decreases self.blocks@.len() - i,
        {
            let source = trimmed(&to_chars(self.blocks[i].source.as_str()));
            assert(self@.take(i + 1).drop_last() =~= self@.take(i as int));
            assert(self@.take(i + 1).last() == self.blocks@[i as int]@);
            if source.len() > 0 {
                output.append("## ");
                output.append(heading_text(self.blocks[i].kind));
                output.append("\n\n");
                output.append(to_text(&source).as_str());
                output.append("\n\n");
            }
            i = i + 1;
        }
        assert(self@.take(i as int) =~= self@);
        output
    }

    /// Drops every block; identifiers start anew.
    pub fn clear(&mut self)
        ensures
            final(self).wf(),
            final(self)@ == Seq::<BlockView>::empty(),
    {
        self.blocks.clear();
        self.next_id = 0;
        self.current = None;
        self.alternate = None;
        assert(self@ =~= Seq::<BlockView>::empty());
    }

    /// Opens or collapses one block's detail. No other source is laid out again
    /// until a caller asks for a viewport.
    pub fn set_collapsed(&mut self, id: u64, collapsed: bool) -> (found: bool)
        requires
            old(self).wf(),
        ensures
            final(self).wf(),
            match place_of(old(self)@, id) {
                Some(k) => found && final(self)@ == old(self)@.update(
                    k,
                    BlockView { collapsed, ..old(self)@[k] },
                ),
                None => !found && final(self)@ == old(self)@,
            },
    {
        let index: usize = match self.position(id) {
            Some(index) => index,
            None => {
                return false;
            },
        };
        let ghost start = *self;
        let ghost block = BlockView { collapsed, ..start@[index as int] };
        if self.blocks[index].collapsed != collapsed {
            self.blocks[index].collapsed = collapsed;
            self.invalidate_from(index);
            proof {
                assert(self@ =~= start@.update(index as int, block));
                lemma_ids_after_update(start@, index as int, block);
                Self::lemma_edited(start, *self, index as int);
            }
        }
        assert(self@ =~= start@.update(index as int, block));
        true
    }

    /// Turns one block's detail over and gives its new state.
    pub fn toggle_collapsed(&mut self, id: u64) -> (state: Option<bool>)
        requires
            old(self).wf(),
        ensures
            final(self).wf(),
            match place_of(old(self)@, id) {
                Some(k) => state == Some(!old(self)@[k].collapsed) && final(self)@
                    == old(self)@.update(
                    k,
                    BlockView { collapsed: !old(self)@[k].collapsed, ..old(self)@[k] },
                ),
                None => state is None && final(self)@ == old(self)@,
            },
    {
        match self.is_collapsed(id) {
            Some(collapsed) => {
                self.set_collapsed(id, !collapsed);
                Some(!collapsed)
            },
            None => None,
        }
    }

    pub fn is_collapsed(&self, id: u64) -> (state: Option<bool>)
        ensures
            state == (match place_of(self@, id) {
                Some(k) => Some(self@[k].collapsed),
                None => None,
            }),
    {
        match self.position(id) {
            Some(index) => Some(self.blocks[index].collapsed),
            None => None,
        }
    }

    /// The kind of the block with the identifier.
    pub fn kind(&self, id: u64) -> (kind: Option<BlockKind>)
        ensures
            kind == (match place_of(self@, id) {
                Some(k) => Some(self@[k].kind),
                None => None,
            }),
    {
        match self.position(id) {
            Some(index) => Some(self.blocks[index].kind),
            None => None,
        }
    }

    /// Retained source for a stable logical block. Lifecycle reducers use
    /// this to preserve presentation metadata while replacing live details.
    pub fn source(&self, id: u64) -> (source: Option<&str>)
        ensures
            match (source, place_of(self@, id)) {
                (Some(text), Some(k)) => text@ == self@[k].source,
                (None, None) => true,
                _ => false,
            },
    {
        match self.position(id) {
            Some(index) => Some(self.blocks[index].source.as_str()),
            None => None,
        }
    }

    /// Extend an in-progress block without changing its identity. Stream
    /// renderers use this to turn thousands of token chunks into one logical
    /// response rather than thousands of transcript objects.
    pub fn extend(&mut self, id: u64, text: &str) -> (found: bool)
        requires
            old(self).wf(),
        ensures
            final(self).wf(),
            match place_of(old(self)@, id) {
                Some(k) => found && final(self)@ == old(self)@.update(
                    k,
                    BlockView { source: old(self)@[k].source + text@, ..old(self)@[k] },
                ),
                None => !found && final(self)@ == old(self)@,
            },
    {
        let index: usize = match self.position(id) {
            Some(index) => index,
            None => {
                return false;
            },
        };
        let ghost start = *self;
        let ghost block = BlockView {
            source: start@[index as int].source + text@,
            ..start@[index as int]
        };
        self.blocks[index].source.append(text);
        self.invalidate_from(index);
        proof {
            assert(self@ =~= start@.update(index as int, block));
            lemma_ids_after_update(start@, index as int, block);
            Self::lemma_edited(start, *self, index as int);
        }
        true
    }

    /// Replace one logical block in place. An agent reports a tool call once and
    /// updates it several times; updating the existing block keeps a long session
    /// bounded by logical tool calls.
    pub fn replace(&mut self, id: u64, kind: BlockKind, source: &str, collapsed: bool) -> (found: bool)
        requires
            old(self).wf(),
        ensures
            final(self).wf(),
            match place_of(old(self)@, id) {
                Some(k) => found && final(self)@ == old(self)@.update(
                    k,
                    BlockView { id, kind, source: source@, collapsed },
                ),
                None => !found && final(self)@ == old(self)@,
            },
    {
        let index: usize = match self.position(id) {
            Some(index) => index,
            None => {
                return false;
            },
        };
        let ghost start = *self;
        let ghost block = BlockView { id, kind, source: source@, collapsed };
        proof {
            lemma_place_of(self@, id);
        }
        self.blocks.set(
            index,
            TranscriptBlock { id, kind, source: source.to_owned(), collapsed },
        );
        self.invalidate_from(index);
        proof {
            assert(self@ =~= start@.update(index as int, block));
            lemma_ids_after_update(start@, index as int, block);
            Self::lemma_edited(start, *self, index as int);
        }
        true
    }
}

proof fn lemma_complete(cache: RowCache, blocks: Seq<BlockView>)
    requires
        cache.fits(blocks),
        cache.valid_blocks == blocks.len(),
    ensures
        cache.shown() == lay_out(blocks, cache.width as int).rows,
{
    assert(blocks.take(blocks.len() as int) =~= blocks);
    if cache.shown() != cache.done(blocks).rows {
        let id = choose|id: u64|
            has_id(blocks, cache.valid_blocks as int, id) && cache.block_starts@.contains_key(id)
                && cache.block_starts@[id] == cache.done(blocks).rows.len();
        let j = lemma_place_with_id(blocks, cache.valid_blocks as int, id);
    }
}

impl RowCache {
    fn empty(width: usize) -> (cache: RowCache)
        ensures
            cache.empty_at(width),
    {
        RowCache {
            width,
            rows: Vec::new(),
            block_starts: BTreeMap::new(),
            valid_blocks: 0,
            headers: Vec::new(),
        }
    }

    /// Drops what is left of the layout of the blocks that are not valid.
    fn trim(&mut self, blocks: &Vec<TranscriptBlock>)
        requires
            old(self).fits(block_contents(blocks@)),
            ids_in_order(block_contents(blocks@)),
        ensures
            final(self).width == old(self).width,
            final(self).valid_blocks == old(self).valid_blocks,
            final(self).headers == old(self).headers,
            final(self).shown() == old(self).done(block_contents(blocks@)).rows,
            forall|i: int|
                0 <= i < old(self).valid_blocks ==> final(self).block_starts@.contains_key(
                    (#[trigger] blocks@[i]).id,
                ) && final(self).block_starts@[blocks@[i].id] == lay_out(
                    block_contents(blocks@).take(i),
                    old(self).width as int,
                ).rows.len(),
            forall|id: u64|
                final(self).block_starts@.contains_key(id) ==> has_id(
                    block_contents(blocks@).take(old(self).valid_blocks as int),
                    0,
                    id,
                ),
    {
        let ghost views = block_contents(blocks@);
        let ghost start = *self;
        let ghost v = self.valid_blocks as int;
        let ghost count = self.done(views).rows.len() as int;
        let mut row: usize = self.rows.len();
        let mut i: usize = self.valid_blocks;
        while i < blocks.len()
            invariant
                *self == start,
                start.fits(views),
                views == block_contents(blocks@),
                v == start.valid_blocks,
                count == start.done(views).rows.len(),
                v <= i <= blocks@.len(),
                count <= row <= self.rows@.len(),
                forall|j: int|
                    v <= j < i && start.block_starts@.contains_key((#[trigger] views[j]).id) ==> row
                        <= start.block_starts@[views[j].id],
            decreases blocks@.len() - i,
        {
            proof {
                assert(views[i as int].id == blocks@[i as int].id);
                lemma_has_id(views, v, i as int);
            }
            if let Some(first) = self.block_starts.get(&blocks[i].id) {
                if *first < row {
                    row = *first;
                }
            }
            i = i + 1;
        }
        proof {
            if start.shown() != start.done(views).rows {
                let id = choose|id: u64|
                    has_id(views, v, id) && start.block_starts@.contains_key(id)
                        && start.block_starts@[id] == count;
                let j = lemma_place_with_id(views, v, id);
                assert(row <= start.block_starts@[views[j].id]);
            }
            assert(row == count);
        }
        self.rows.truncate(row);
        assert(self.shown() =~= start.shown().take(count));
        i = self.valid_blocks;
        while i < blocks.len()
            invariant
                start.fits(views),
                ids_in_order(views),
                views == block_contents(blocks@),
                v == start.valid_blocks,
                v <= i <= blocks@.len(),
                self.width == start.width,
                self.valid_blocks == start.valid_blocks,
                self.headers == start.headers,
                self.shown() == start.done(views).rows,
                forall|j: int|
                    0 <= j < v ==> self.block_starts@.contains_key((#[trigger] views[j]).id)
                        && self.block_starts@[views[j].id] == start.block_starts@[views[j].id],
                forall|id: u64|
                    self.block_starts@.contains_key(id) ==> start.block_starts@.contains_key(id),
                forall|j: int|
                    v <= j < i ==> !self.block_starts@.contains_key((#[trigger] views[j]).id),
            decreases blocks@.len() - i,
        {
            assert(views[i as int].id == blocks@[i as int].id);
            self.block_starts.remove(&blocks[i].id);
            i = i + 1;
        }
        proof {
            assert forall|j: int| 0 <= j < v implies self.block_starts@.contains_key(
                (#[trigger] blocks@[j]).id,
            ) && self.block_starts@[blocks@[j].id] == lay_out(
                views.take(j),
                start.width as int,
            ).rows.len() by {
                assert(views[j].id == blocks@[j].id);
            }
            assert forall|id: u64| self.block_starts@.contains_key(id) implies has_id(
                views.take(v),
                0,
                id,
            ) by {
                let j = lemma_place_with_id(views, 0, id);
                assert(views[j].id == id);
                assert(j < v);
                assert(views.take(v)[j] == views[j]);
                lemma_has_id(views.take(v), 0, j);
            }
        }
    }

    /// Lays out the blocks that are not valid yet.
    fn complete(&mut self, blocks: &Vec<TranscriptBlock>)
        requires
            old(self).fits(block_contents(blocks@)),
            ids_in_order(block_contents(blocks@)),
        ensures
            final(self).fits(block_contents(blocks@)),
            final(self).width == old(self).width,
            final(self).valid_blocks == blocks@.len(),
    {
        let ghost views = block_contents(blocks@);
        let ghost start = *self;
        let width: usize = self.width;
        let ghost w = width as int;
        let mut speaker: Option<String> = if self.headers.len() > self.valid_blocks {
            match &self.headers[self.valid_blocks] {
                Some(name) => Some(name.clone()),
                None => None,
            }
        } else {
            None
        };
        assert(optional(speaker) == lay_out(views.take(start.valid_blocks as int), w).speaker);
        self.trim(blocks);
        self.headers.truncate(self.valid_blocks);
        let mut i: usize = self.valid_blocks;
        while i < blocks.len()
            invariant
                views == block_contents(blocks@),
                ids_in_order(views),
                w == width,
                width >= 1,
                i <= blocks@.len(),
                self.width == width,
                self.shown() == lay_out(views.take(i as int), w).rows,
                optional(speaker) == lay_out(views.take(i as int), w).speaker,
                self.headers@.len() == i,
                forall|j: int|
                    0 <= j < i ==> optional(#[trigger] self.headers@[j]) == lay_out(
                        views.take(j),
                        w,
                    ).speaker,
                forall|j: int|
                    0 <= j < i ==> self.block_starts@.contains_key((#[trigger] blocks@[j]).id)
                        && self.block_starts@[blocks@[j].id] == lay_out(views.take(j), w).rows.len(),
                forall|id: u64|
                    self.block_starts@.contains_key(id) ==> has_id(views.take(i as int), 0, id),
            decreases blocks@.len() - i,
        {
            let ghost starts = self.block_starts@;
            let ghost named = self.headers@;
            let before: Option<String> = match &speaker {
                Some(name) => Some(name.clone()),
                None => None,
            };
            assert(optional(before) == optional(speaker));
            self.headers.push(before);
            self.block_starts.insert(blocks[i].id, self.rows.len());
            speaker = lay_one(&mut self.rows, speaker, &blocks[i], width);
            proof {
                let next = views.take(i + 1);
                assert(next.drop_last() =~= views.take(i as int));
                assert(next.last() == blocks@[i as int]@);
                assert(lay_out(next, w) == lay_block(
                    lay_out(views.take(i as int), w),
                    next.last(),
                    w,
                ));
                assert forall|j: int| 0 <= j < i + 1 implies optional(#[trigger] self.headers@[j])
                    == lay_out(views.take(j), w).speaker by {
                    if j < i {
                        assert(self.headers@[j] == named[j]);
                    }
                }
                assert forall|j: int| 0 <= j < i + 1 implies self.block_starts@.contains_key(
                    (#[trigger] blocks@[j]).id,
                ) && self.block_starts@[blocks@[j].id] == lay_out(views.take(j), w).rows.len() by {
                    if j < i {
                        assert(views[j].id != views[i as int].id);
                    }
                }
                assert forall|id: u64| self.block_starts@.contains_key(id) implies has_id(
                    next,
                    0,
                    id,
                ) by {
                    if id == blocks@[i as int].id {
                        assert(next[i as int].id == id);
                        lemma_has_id(next, 0, i as int);
                    } else {
                        assert(starts.contains_key(id));
                        let j = lemma_place_with_id(views.take(i as int), 0, id);
                        assert(next[j] == views.take(i as int)[j]);
                        lemma_has_id(next, 0, j);
                    }
                }
            }
            i = i + 1;
        }
        let ghost named = self.headers@;
        self.headers.push(speaker);
        self.valid_blocks = blocks.len();
        proof {
            let n = blocks@.len() as int;
            assert(views.take(n) =~= views);
            assert(self.shown().take(self.shown().len() as int) =~= self.shown());
            assert forall|j: int| 0 <= j <= n implies optional(#[trigger] self.headers@[j]) == lay_out(
                views.take(j),
                w,
            ).speaker by {
                if j < n {
                    assert(self.headers@[j] == named[j]);
                }
            }
            assert forall|j: int| 0 <= j < n implies self.block_starts@.contains_key(
                (#[trigger] views[j]).id,
            ) && self.block_starts@[views[j].id] == lay_out(views.take(j), w).rows.len() by {
                assert(views[j].id == blocks@[j].id);
            }
            assert forall|id: u64|
                has_id(views, n, id) && self.block_starts@.contains_key(id) implies
                self.block_starts@[id] >= self.done(views).rows.len() by {
                let j = lemma_place_with_id(views, n, id);
            }
        }
    }
}

impl Transcript {
    /// Makes the current cache one for the width, with every block laid out.
    fn ensure_rows(&mut self, width: usize)
        requires
            old(self).wf(),
        ensures
            final(self).wf(),
            final(self)@ == old(self)@,
            final(self).current matches Some(cache) && cache.width == at_least_one(width as int)
                && cache.valid_blocks == final(self)@.len() && cache.shown() == lay_out(
                final(self)@,
                at_least_one(width as int),
            ).rows,
    {
        let width: usize = if width < 1 {
            1
        } else {
            width
        };
        let ghost start = *self;
        let mut cache = match self.current.take() {
            Some(current) => if current.width == width {
                current
            } else {
                // Keep two layouts so alternating viewport widths can reuse history.
                let alternate = self.alternate.take();
                self.alternate = Some(current);
                match alternate {
                    Some(other) => if other.width == width {
                        other
                    } else {
                        RowCache::empty(width)
                    },
                    None => RowCache::empty(width),
                }
            },
            None => {
                let alternate = self.alternate.take();
                match alternate {
                    Some(other) => if other.width == width {
                        other
                    } else {
                        RowCache::empty(width)
                    },
                    None => RowCache::empty(width),
                }
            },
        };
        proof {
            if cache.empty_at(width) {
                assert(start@.take(0) =~= Seq::<BlockView>::empty());
                assert(cache.shown() =~= Seq::<RowView>::empty());
                assert(cache.shown().take(0) =~= Seq::<RowView>::empty());
                assert(cache.fits(start@));
            }
        }
        if cache.valid_blocks != self.blocks.len() {
            cache.complete(&self.blocks);
        }
        proof {
            lemma_complete(cache, start@);
        }
        self.current = Some(cache);
    }

    /// Render `height` rows beginning at `scroll_y`, with a bounded overscan
    /// margin. Whatever was edited and at whatever widths rows were asked for
    /// before, the rows are those of the conversation laid out from scratch.
    pub fn viewport(&mut self, width: usize, scroll_y: usize, height: usize, overscan: usize) -> (rows:
        Vec<RenderRow>)
        requires
            old(self).wf(),
        ensures
            final(self).wf(),
            final(self)@ == old(self)@,
            final(self).cached() == lay_out(old(self)@, at_least_one(width as int)).rows,
            row_contents(rows@) == window(
                lay_out(old(self)@, at_least_one(width as int)).rows,
                if scroll_y > overscan {
                    scroll_y - overscan
                } else {
                    0
                },
                scroll_y + height + overscan,
            ),
    {
        broadcast use crate::layout::lemma_row_contents_push;

        self.ensure_rows(width);
        let mut out: Vec<RenderRow> = Vec::new();
        if let Some(cache) = &self.current {
            let ghost all = cache.shown();
            let count: usize = cache.rows.len();
            let first: usize = if scroll_y > overscan {
                scroll_y - overscan
            } else {
                0
            };
            let start: usize = if first < count {
                first
            } else {
                count
            };
            let last: usize = scroll_y.saturating_add(height).saturating_add(overscan);
            let end: usize = if last < count {
                last
            } else {
                count
            };
            let mut i: usize = start;
            assert(row_contents(out@) =~= all.subrange(start as int, start as int));
            while i < end
                invariant
                    start <= i <= end <= cache.rows@.len(),
                    all == cache.shown(),
                    row_contents(out@) == all.subrange(start as int, i as int),
                decreases end - i,
            {
                out.push(cache.rows[i].copy());
                assert(all.subrange(start as int, i + 1) =~= all.subrange(
                    start as int,
                    i as int,
                ).push(all[i as int]));
                i = i + 1;
            }
        }
        out
    }

    /// Total rows at a width. Calling this after a resize performs one
    /// rewrap, never one rewrap per scroll tick.
    pub fn row_count(&mut self, width: usize) -> (count: usize)
        requires
            old(self).wf(),
        ensures
            final(self).wf(),
            final(self)@ == old(self)@,
            final(self).cached() == lay_out(old(self)@, at_least_one(width as int)).rows,
            count == lay_out(old(self)@, at_least_one(width as int)).rows.len(),
    {
        self.ensure_rows(width);
        match &self.current {
            Some(cache) => cache.rows.len(),
            None => 0,
        }
    }

    /// First row of a logical block, for jump-to-message.
    pub fn block_row(&mut self, width: usize, id: u64) -> (row: Option<usize>)
        requires
            old(self).wf(),
        ensures
            final(self).wf(),
            final(self)@ == old(self)@,
            final(self).cached() == lay_out(old(self)@, at_least_one(width as int)).rows,
            match row {
                Some(k) => first_row_of(old(self)@, id, at_least_one(width as int)) == Some(k as int),
                None => first_row_of(old(self)@, id, at_least_one(width as int)) is None,
            },
    {
        self.ensure_rows(width);
        proof {
            lemma_place_of(self@, id);
        }
        match &self.current {
            Some(cache) => match cache.block_starts.get(&id) {
                Some(first) => {
                    proof {
                        let j = lemma_place_with_id(self@, 0, id);
                        let k = place_of(self@, id).unwrap();
                        assert(self@[k].id == id);
                    }
                    Some(*first)
                },
                None => None,
            },
            None => None,
        }
    }

    /// The rows laid out last, whatever their width.
    pub fn cached_rows(&self) -> (rows: &[RenderRow])
        ensures
            row_contents(rows@) == self.cached(),
    {
        assert(row_contents(Seq::empty()) =~= Seq::<RowView>::empty());
        match &self.current {
            Some(cache) => cache.rows.as_slice(),
            None => &[],
        }
    }
}

/// The cache after it has forgotten the blocks from `index` on.
spec fn forgets(before: RowCache, after: RowCache, index: usize) -> bool {
    &&& after.width == before.width
    &&& after.rows == before.rows
    &&& after.block_starts == before.block_starts
    &&& after.headers == before.headers
    &&& after.valid_blocks == (if before.valid_blocks < index {
        before.valid_blocks
    } else {
        index
    })
}

} // verus!
