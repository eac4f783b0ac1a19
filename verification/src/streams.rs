//! The transcript blocks that the running turns of the agents write to.

use crate::layout::BlockKind;
use crate::slots::Blank;
use crate::text::same;
use vstd::prelude::*;

verus! {

/// The blocks of one agent's turn.
#[derive(Debug)]
pub struct StreamRecord {
    pub human: Option<u64>,
    pub agent: Option<u64>,
    pub thought: Option<u64>,
    /// Active tool calls keep their block, so that updates replace the preview in place
    /// instead of adding a card for every status change.
    pub tools: Vec<(String, u64)>,
}

#[verifier::ext_equal]
pub struct StreamView {
    pub human: Option<u64>,
    pub agent: Option<u64>,
    pub thought: Option<u64>,
    pub tools: Seq<(Seq<char>, u64)>,
}

/// The contents of a list of tool blocks.
pub open spec fn tool_contents(tools: Seq<(String, u64)>) -> Seq<(Seq<char>, u64)> {
    Seq::new(tools.len(), |i: int| (tools[i].0@, tools[i].1))
}

impl View for StreamRecord {
    type V = StreamView;

    open spec fn view(&self) -> StreamView {
        StreamView {
            human: self.human,
            agent: self.agent,
            thought: self.thought,
            tools: tool_contents(self.tools@),
        }
    }
}

/// No block is written to.
pub open spec fn no_stream() -> StreamView {
    StreamView { human: None, agent: None, thought: None, tools: Seq::empty() }
}

impl Blank for StreamRecord {
    open spec fn blank_view() -> StreamView {
        no_stream()
    }

    fn blank() -> (value: Self) {
        let value = StreamRecord { human: None, agent: None, thought: None, tools: Vec::new() };
        assert(tool_contents(value.tools@) =~= Seq::empty());
        value
    }
}

/// The block that text of a kind is added to.
pub open spec fn open_block(stream: StreamView, kind: BlockKind) -> Option<u64> {
    match kind {
        BlockKind::Human => stream.human,
        BlockKind::Agent => stream.agent,
        BlockKind::Thought => stream.thought,
        _ => None,
    }
}

/// The stream in which text of a kind is added to a block.
pub open spec fn with_open_block(stream: StreamView, kind: BlockKind, id: u64) -> StreamView {
    match kind {
        BlockKind::Human => StreamView { human: Some(id), ..stream },
        BlockKind::Agent => StreamView { agent: Some(id), ..stream },
        BlockKind::Thought => StreamView { thought: Some(id), ..stream },
        _ => stream,
    }
}

/// The place of a tool call.
pub open spec fn tool_place(tools: Seq<(Seq<char>, u64)>, call: Seq<char>) -> Option<int>
    decreases tools.len(),
{
    if tools.len() == 0 {
        None
    } else if tools[0].0 == call {
        Some(0)
    } else {
        match tool_place(tools.drop_first(), call) {
            Some(k) => Some(k + 1),
            None => None,
        }
    }
}

/// The block of a tool call.
pub open spec fn tool_block(stream: StreamView, call: Seq<char>) -> Option<u64> {
    match tool_place(stream.tools, call) {
        Some(k) => Some(stream.tools[k].1),
        None => None,
    }
}

/// The stream in which a tool call has a block.
pub open spec fn with_tool_block(stream: StreamView, call: Seq<char>, id: u64) -> StreamView {
    StreamView {
        tools: match tool_place(stream.tools, call) {
            Some(k) => stream.tools.update(k, (call, id)),
            None => stream.tools.push((call, id)),
        },
        ..stream
    }
}

impl StreamRecord {
    pub fn open_block(&self, kind: BlockKind) -> (id: Option<u64>)
        ensures
            id == open_block(self@, kind),
    {
        match kind {
            BlockKind::Human => self.human,
            BlockKind::Agent => self.agent,
            BlockKind::Thought => self.thought,
            _ => None,
        }
    }

    pub fn set_open_block(&mut self, kind: BlockKind, id: u64)
        ensures
            final(self)@ == with_open_block(old(self)@, kind, id),
    {
        match kind {
            BlockKind::Human => {
                self.human = Some(id);
            },
            BlockKind::Agent => {
                self.agent = Some(id);
            },
            BlockKind::Thought => {
                self.thought = Some(id);
            },
            _ => {},
        }
    }

    fn place(&self, call: &str) -> (k: Option<usize>)
        ensures
            match k {
                Some(at) => tool_place(self@.tools, call@) == Some(at as int) && at
                    < self.tools@.len(),
                None => tool_place(self@.tools, call@) is None,
            },
    {
        let ghost all = self@.tools;
        let mut k: usize = 0;
        assert(all.skip(0) =~= all);
        while k < self.tools.len() && !same(self.tools[k].0.as_str(), call)
            invariant
                k <= self.tools@.len(),
                all == tool_contents(self.tools@),
                tool_place(all, call@) == (match tool_place(all.skip(k as int), call@) {
                    Some(p) => Some(p + k),
                    None => None,
                }),
            decreases self.tools@.len() - k,
        {
            assert(all.skip(k as int).drop_first() =~= all.skip(k + 1));
            assert(all.skip(k as int)[0] == all[k as int]);
            k = k + 1;
        }
        if k < self.tools.len() {
            assert(all.skip(k as int)[0] == all[k as int]);
            Some(k)
        } else {
            None
        }
    }

    pub fn tool_block(&self, call: &str) -> (id: Option<u64>)
        ensures
            id == tool_block(self@, call@),
    {
        match self.place(call) {
            Some(k) => Some(self.tools[k].1),
            None => None,
        }
    }

    pub fn set_tool_block(&mut self, call: &str, id: u64)
        ensures
            final(self)@ == with_tool_block(old(self)@, call@, id),
    {
        let ghost before = self@.tools;
        match self.place(call) {
            Some(k) => {
                self.tools.set(k, (call.to_owned(), id));
                assert(self@.tools =~= before.update(k as int, (call@, id)));
            },
            None => {
                self.tools.push((call.to_owned(), id));
                assert(self@.tools =~= before.push((call@, id)));
            },
        }
    }
}

} // verus!
