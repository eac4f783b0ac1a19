//! The `@path` picker: what is looked for in the workspace index, and what was found.

use crate::order::{item_contents, lemma_item_contents_push};
use crate::path_index::{
    next_generation, IndexRequest, IndexView, MatchView, PathIndex, PathIndexUpdate, PathMatch,
    RequestView, UpdateView, MIN_PATH_QUERY_CHARS,
};
use crate::text::{
    append_text, begins_with, has_first, has_prefix, same, slice_to_string, starts_with, to_chars,
    to_text,
};
use vstd::prelude::*;

verus! {

/// The picker over the workspace index. It is separate from the transcript, so that
/// index updates do not disturb the cached rows.
#[derive(Debug)]
pub struct PathPicker {
    index: Option<PathIndex>,
    requests: Vec<IndexRequest>,
    query: String,
    matches: Vec<PathMatch>,
    selection: usize,
}

pub struct PickerView {
    /// The index, once a workspace is known.
    pub index: Option<IndexView>,
    /// What the index is to be asked.
    pub requests: Seq<RequestView>,
    pub query: Seq<char>,
    pub matches: Seq<MatchView>,
    pub selection: usize,
}

/// The contents of an optional index.
pub open spec fn index_in(index: Option<PathIndex>) -> Option<IndexView> {
    match index {
        Some(value) => Some(value@),
        None => None,
    }
}

impl View for PathPicker {
    type V = PickerView;

    closed spec fn view(&self) -> PickerView {
        PickerView {
            index: index_in(self.index),
            requests: item_contents(self.requests@),
            query: self.query@,
            matches: item_contents(self.matches@),
            selection: self.selection,
        }
    }
}

/// The picker with nothing looked for.
pub open spec fn dismissed(picker: PickerView) -> PickerView {
    PickerView { query: Seq::empty(), matches: Seq::empty(), selection: 0, ..picker }
}

/// A token without the quote behind its `@`.
pub open spec fn unquoted(token: Seq<char>) -> Seq<char> {
    if starts_with(token, "@\""@) {
        "@"@ + token.skip(2)
    } else {
        token
    }
}

/// The picker after the index was asked; the same question is not asked twice.
pub open spec fn asked(picker: PickerView, query: Seq<char>) -> PickerView {
    match picker.index {
        Some(index) => PickerView {
            index: Some(IndexView { query, ..index }),
            requests: if query == index.query {
                picker.requests
            } else {
                picker.requests.push(RequestView::Query { generation: index.generation, query })
            },
            ..picker
        },
        None => picker,
    }
}

/// The picker after the token before the cursor changed.
pub open spec fn looking_for(picker: PickerView, token: Seq<char>) -> PickerView {
    let query = unquoted(token);
    if !(begins_with(query, '@') && query.len() - 1 >= MIN_PATH_QUERY_CHARS) {
        dismissed(picker)
    } else if picker.query != query {
        asked(PickerView { query, selection: 0, ..picker }, query)
    } else {
        picker
    }
}

/// The picker for another workspace.
pub open spec fn for_workspace(picker: PickerView) -> PickerView {
    PickerView {
        index: Some(IndexView { generation: 0, query: Seq::empty() }),
        requests: Seq::empty(),
        ..dismissed(picker)
    }
}

/// The picker after its workspace changed: what was found stays until there is more.
pub open spec fn rescanned(picker: PickerView) -> PickerView {
    match picker.index {
        Some(index) => {
            let generation = next_generation(index.generation);
            let scan = picker.requests.push(RequestView::Rescan { generation });
            PickerView {
                index: Some(IndexView { generation, ..index }),
                requests: if index.query.len() == 0 {
                    scan
                } else {
                    scan.push(RequestView::Query { generation, query: index.query })
                },
                ..picker
            }
        },
        None => for_workspace(picker),
    }
}

/// The picker after an update of the index. What was found for another workspace or
/// another query is stale.
pub open spec fn updated(
    picker: PickerView,
    generation: Option<u64>,
    update: UpdateView,
) -> PickerView {
    match update {
        UpdateView::Ready { generation: scanned, total } => if picker.query.len() == 0 {
            picker
        } else {
            asked(picker, picker.query)
        },
        UpdateView::Matches { generation: found_in, query, matches } => if Some(found_in) == generation && query
            == picker.query {
            PickerView {
                matches,
                selection: if picker.selection < matches.len() {
                    picker.selection
                } else if matches.len() > 0 {
                    (matches.len() - 1) as usize
                } else {
                    0
                },
                ..picker
            }
        } else {
            picker
        },
    }
}

/// The picker after updates of the index, in order.
pub open spec fn updated_all(
    picker: PickerView,
    generation: Option<u64>,
    updates: Seq<UpdateView>,
) -> PickerView
    decreases updates.len(),
{
    if updates.len() == 0 {
        picker
    } else {
        updated_all(updated(picker, generation, updates[0]), generation, updates.drop_first())
    }
}

/// Whether the picker is shown.
pub open spec fn is_open(picker: PickerView) -> bool {
    picker.matches.len() > 0 && picker.query.len() > 0
}

/// Results for another query never replace what is shown.
pub proof fn law_stale_results_are_ignored(
    picker: PickerView,
    generation: Option<u64>,
    found_in: u64,
    query: Seq<char>,
    matches: Seq<MatchView>,
)
    requires
        query != picker.query || generation != Some(found_in),
    ensures
        updated(picker, generation, UpdateView::Matches { generation: found_in, query, matches })
            == picker,
{
}

impl PathPicker {
    pub fn new() -> (picker: Self)
        ensures
            picker@ == (PickerView {
                index: None,
                requests: Seq::empty(),
                query: Seq::empty(),
                matches: Seq::empty(),
                selection: 0,
            }),
    {
        let picker = PathPicker {
            index: None,
            requests: Vec::new(),
            query: String::new(),
            matches: Vec::new(),
            selection: 0,
        };
        assert(picker@.requests =~= Seq::empty());
        assert(picker@.matches =~= Seq::empty());
        picker
    }

    pub fn dismiss(&mut self)
        ensures
            final(self)@ == dismissed(old(self)@),
    {
        self.query = String::new();
        self.matches = Vec::new();
        self.selection = 0;
        assert(self@.matches =~= Seq::empty());
    }

    fn ask(&mut self, query: &str)
        ensures
            final(self)@ == asked(old(self)@, query@),
    {
        broadcast use lemma_item_contents_push;

        if let Some(mut index) = self.index.take() {
            if let Some(request) = index.query(query) {
                self.requests.push(request);
            }
            self.index = Some(index);
        }
    }

    /// Follows the token before the cursor.
    pub fn look_for(&mut self, token: &str)
        ensures
            final(self)@ == looking_for(old(self)@, token@),
    {
        let chars = to_chars(token);
        proof {
            reveal_strlit("@\"");
        }
        let query = if has_prefix(token, "@\"") {
            let mut text = to_chars("@");
            append_text(&mut text, slice_to_string(&chars, 2, chars.len()).as_str());
            assert(chars@.subrange(2, chars@.len() as int) =~= chars@.skip(2));
            to_text(&text)
        } else {
            token.to_owned()
        };
        if !(has_first(query.as_str(), '@') && query.as_str().unicode_len() - 1
            >= MIN_PATH_QUERY_CHARS) {
            self.dismiss();
            return;
        }
        if !same(self.query.as_str(), query.as_str()) {
            self.query = query.clone();
            self.selection = 0;
            self.ask(query.as_str());
        }
    }

    /// Starts over for a workspace.
    pub fn set_workspace(&mut self)
        ensures
            final(self)@ == for_workspace(old(self)@),
    {
        self.index = Some(PathIndex::new());
        self.requests = Vec::new();
        self.dismiss();
        assert(self@.requests =~= Seq::empty());
    }

    /// Asks for a fresh index after the workspace changed.
    pub fn rescan(&mut self)
        ensures
            final(self)@ == rescanned(old(self)@),
    {
        match self.index.take() {
            Some(mut index) => {
                let mut more = index.rescan();
                let ghost held = self.requests@;
                let ghost new = more@;
                self.requests.append(&mut more);
                self.index = Some(index);
                proof {
                    assert(item_contents(held + new) =~= item_contents(held) + item_contents(new));
                    assert(self@.requests =~= rescanned(old(self)@).requests);
                }
            },
            None => {
                self.set_workspace();
            },
        }
    }

    /// Takes the questions that the index is to be asked.
    pub fn take_requests(&mut self) -> (requests: Vec<IndexRequest>)
        ensures
            item_contents(requests@) == old(self)@.requests,
            final(self)@ == (PickerView { requests: Seq::empty(), ..old(self)@ }),
    {
        let mut requests: Vec<IndexRequest> = Vec::new();
        std::mem::swap(&mut requests, &mut self.requests);
        assert(self@.requests =~= Seq::empty());
        requests
    }

    fn update(&mut self, generation: Option<u64>, update: PathIndexUpdate)
        ensures
            final(self)@ == updated(old(self)@, generation, update@),
    {
        match update {
            PathIndexUpdate::Ready { generation: scanned, total } => {
                if self.query.as_str().unicode_len() > 0 {
                    let query = self.query.clone();
                    self.ask(query.as_str());
                }
            },
            PathIndexUpdate::Matches { generation: found_in, query, matches } => {
                let current = match generation {
                    Some(number) => number == found_in,
                    None => false,
                };
                if current && same(query.as_str(), self.query.as_str()) {
                    self.matches = matches;
                    if self.selection >= self.matches.len() {
                        self.selection = if self.matches.len() > 0 {
                            self.matches.len() - 1
                        } else {
                            0
                        };
                    }
                }
            },
        }
    }

    /// Takes in updates of the index, in order.
    pub fn update_all(&mut self, updates: Vec<PathIndexUpdate>)
        ensures
            final(self)@ == updated_all(
                old(self)@,
                match old(self)@.index {
                    Some(index) => Some(index.generation),
                    None => None,
                },
                item_contents(updates@),
            ),
    {
        let generation = match &self.index {
            Some(index) => Some(index.generation()),
            None => None,
        };
        let mut rest = updates;
        let ghost goal = updated_all(self@, generation, item_contents(rest@));
        while rest.len() > 0
            invariant
                goal == updated_all(self@, generation, item_contents(rest@)),
            decreases rest@.len(),
        {
            let ghost before = rest@;
            let update = rest.remove(0);
            assert(item_contents(before).drop_first() =~= item_contents(rest@));
            assert(item_contents(before)[0] == update@);
            self.update(generation, update);
        }
        assert(item_contents(rest@).len() == 0);
    }

    pub fn visible(&self) -> (open: bool)
        ensures
            open == is_open(self@),
    {
        self.matches.len() > 0 && self.query.as_str().unicode_len() > 0
    }

    pub fn query(&self) -> (query: &str)
        ensures
            query@ == self@.query,
    {
        self.query.as_str()
    }

    pub fn matches(&self) -> (matches: &Vec<PathMatch>)
        ensures
            item_contents(matches@) == self@.matches,
    {
        &self.matches
    }

    pub fn selection(&self) -> (selection: usize)
        ensures
            selection == self@.selection,
    {
        self.selection
    }

    pub fn set_selection(&mut self, selection: usize)
        ensures
            final(self)@ == (PickerView { selection, ..old(self)@ }),
    {
        self.selection = selection;
    }
}

} // verus!
