//! Where settings, histories and session metadata are kept, and which of them is read.

use crate::events::copy_strings;
use crate::json::{document, parse_json, Json, JsonView};
use crate::order::item_contents;
use crate::project::is_safe;
use crate::text::strings;
use vstd::prelude::*;
use vstd::utf8::{
    char_u32_cast, encode_utf8, encode_utf8_decode_utf8, is_ascii_chars, is_ascii_chars_encode_utf8,
};

verus! {

/// A path below another, both as bytes.
pub open spec fn below(base: Seq<u8>, part: Seq<u8>) -> Seq<u8> {
    if base.len() == 0 {
        part
    } else if base.last() == 47 {
        base + part
    } else {
        base.push(47) + part
    }
}

/// A text as the bytes of a path.
pub open spec fn path_part(text: Seq<char>) -> Seq<u8> {
    encode_utf8(text)
}

fn join_path(base: Vec<u8>, part: &str) -> (path: Vec<u8>)
    ensures
        path@ == below(base@, path_part(part@)),
{
    let mut path = base;
    if path.len() > 0 && path[path.len() - 1] != 47 {
        path.push(47);
    }
    let ghost start = path@;
    let bytes = part.as_bytes();
    let mut i: usize = 0;
    assert(start + bytes@.take(0) =~= start);
    while i < bytes.len()
        invariant
            i <= bytes@.len(),
            path@ == start + bytes@.take(i as int),
        decreases bytes@.len() - i,
    {
        path.push(bytes[i]);
        assert(bytes@.take(i + 1) =~= bytes@.take(i as int).push(bytes@[i as int]));
        assert(start + bytes@.take(i + 1) =~= (start + bytes@.take(i as int)).push(
            bytes@[i as int],
        ));
        i = i + 1;
    }
    assert(bytes@.take(i as int) =~= bytes@);
    assert(path@ =~= below(base@, path_part(part@)));
    path
}

/// The directory that the environment names, or one below the home directory.
pub open spec fn base_directory(
    own: Option<Seq<u8>>,
    home: Option<Seq<u8>>,
    below_home: Seq<char>,
) -> Option<Seq<u8>> {
    match own {
        Some(path) => Some(path),
        None => match home {
            Some(path) => Some(below(path, path_part(below_home))),
            None => None,
        },
    }
}

/// A path, if there is one.
pub open spec fn path_in(path: Option<Vec<u8>>) -> Option<Seq<u8>> {
    match path {
        Some(bytes) => Some(bytes@),
        None => None,
    }
}

fn find_base(own: Option<Vec<u8>>, home: Option<Vec<u8>>, below_home: &str) -> (path: Option<
    Vec<u8>,
>)
    ensures
        path_in(path) == base_directory(path_in(own), path_in(home), below_home@),
{
    match own {
        Some(path) => Some(path),
        None => match home {
            Some(path) => Some(join_path(path, below_home)),
            None => None,
        },
    }
}

/// Where the settings are: in the configuration directory that the environment names, or
/// below the home directory.
pub fn settings_path(config: Option<Vec<u8>>, home: Option<Vec<u8>>) -> (path: Option<Vec<u8>>)
    ensures
        path_in(path) == (match base_directory(path_in(config), path_in(home), ".config"@) {
            Some(base) => Some(
                below(below(base, path_part("codeswarm"@)), path_part("codeswarm.json"@)),
            ),
            None => None,
        }),
{
    match find_base(config, home, ".config") {
        Some(base) => Some(join_path(join_path(base, "codeswarm"), "codeswarm.json")),
        None => None,
    }
}

/// The directory of what is kept between sessions.
pub open spec fn state_in(state: Option<Seq<u8>>, home: Option<Seq<u8>>) -> Seq<u8> {
    below(
        match base_directory(state, home, ".local/state"@) {
            Some(base) => base,
            None => path_part(".codeswarm-state"@),
        },
        path_part("codeswarm"@),
    )
}

pub fn state_directory(state: Option<Vec<u8>>, home: Option<Vec<u8>>) -> (path: Vec<u8>)
    ensures
        path@ == state_in(path_in(state), path_in(home)),
{
    let base = match find_base(state, home, ".local/state") {
        Some(base) => base,
        None => join_path(Vec::new(), ".codeswarm-state"),
    };
    join_path(base, "codeswarm")
}

/// Where the metadata of the last session of a project is. `key` is that of the project.
pub fn session_metadata_path_for(state: Option<Vec<u8>>, home: Option<Vec<u8>>, key: &str) -> (path:
    Vec<u8>)
    ensures
        path@ == below(
            below(
                below(state_in(path_in(state), path_in(home)), path_part("sessions"@)),
                path_part(key@),
            ),
            path_part("session.json"@),
        ),
{
    let sessions = join_path(state_directory(state, home), "sessions");
    join_path(join_path(sessions, key), "session.json")
}

/// Where the prompts of a project are, below a data directory.
pub open spec fn history_below(data_home: Seq<u8>, key: Seq<char>) -> Seq<u8> {
    below(
        below(below(data_home, path_part("codeswarm"@)), path_part(key)),
        path_part("prompt_history.jsonl"@),
    )
}

pub fn project_prompt_history_path(data_home: Vec<u8>, key: &str) -> (path: Vec<u8>)
    ensures
        path@ == history_below(data_home@, key@),
{
    join_path(join_path(join_path(data_home, "codeswarm"), key), "prompt_history.jsonl")
}

/// Where the prompts of a project are. `key` is that of the project.
pub fn prompt_history_path(data: Option<Vec<u8>>, home: Option<Vec<u8>>, key: &str) -> (path: Option<
    Vec<u8>,
>)
    ensures
        path_in(path) == (match base_directory(path_in(data), path_in(home), ".local/share"@) {
            Some(base) => Some(history_below(base, key@)),
            None => None,
        }),
{
    match find_base(data, home, ".local/share") {
        Some(base) => Some(project_prompt_history_path(base, key)),
        None => None,
    }
}

/// The prompts of a project, and those that are still to be written where its prompts are
/// kept now: where nothing is kept there yet, the prompts of its earlier place are taken
/// over.
pub fn load_prompt_history_from(current: Option<Vec<String>>, legacy: Vec<String>) -> (prompts: (
    Vec<String>,
    Vec<String>,
))
    ensures
        match current {
            Some(entries) => strings(prompts.0@) == strings(entries@) && prompts.1@.len() == 0,
            None => strings(prompts.0@) == strings(legacy@) && strings(prompts.1@) == strings(
                legacy@,
            ),
        },
{
    match current {
        Some(entries) => (entries, Vec::new()),
        None => {
            let moved = copy_strings(&legacy);
            (legacy, moved)
        },
    }
}

/// What was found where session metadata may be.
#[derive(Debug)]
pub enum Candidate {
    Missing,
    /// There is something, but no metadata.
    Malformed,
    Saved(Json),
}

pub enum CandidateView {
    Missing,
    Malformed,
    Saved(JsonView),
}

impl View for Candidate {
    type V = CandidateView;

    open spec fn view(&self) -> CandidateView {
        match self {
            Candidate::Missing => CandidateView::Missing,
            Candidate::Malformed => CandidateView::Malformed,
            Candidate::Saved(metadata) => CandidateView::Saved(metadata@),
        }
    }
}

/// What the text of a file holds, if there is one.
pub open spec fn candidate_in(text: Option<Seq<char>>) -> CandidateView {
    match text {
        None => CandidateView::Missing,
        Some(text) => match document(text) {
            Some(JsonView::Object(fields)) => CandidateView::Saved(JsonView::Object(fields)),
            _ => CandidateView::Malformed,
        },
    }
}

pub fn read_candidate(text: Option<&str>) -> (candidate: Candidate)
    ensures
        candidate@ == candidate_in(
            match text {
                Some(text) => Some(text@),
                None => None,
            },
        ),
{
    match text {
        None => Candidate::Missing,
        Some(text) => match parse_json(text) {
            Some(Json::Object(fields)) => Candidate::Saved(Json::Object(fields)),
            _ => Candidate::Malformed,
        },
    }
}

/// The first place, from one on, that holds session metadata. A place that holds something
/// else ends the search: what lies behind it is older.
pub open spec fn first_saved(candidates: Seq<CandidateView>, i: int) -> Result<Option<int>, ()>
    decreases candidates.len() - i,
{
    if i < 0 || i >= candidates.len() {
        Ok(None)
    } else {
        match candidates[i] {
            CandidateView::Missing => first_saved(candidates, i + 1),
            CandidateView::Malformed => Err(()),
            CandidateView::Saved(metadata) => Ok(Some(i)),
        }
    }
}

/// The place of the metadata that is taken up.
pub fn load_session_metadata_candidates(candidates: &Vec<Candidate>) -> (place: Result<
    Option<usize>,
    String,
>)
    ensures
        match place {
            Ok(Some(i)) => first_saved(item_contents(candidates@), 0) == Ok::<Option<int>, ()>(
                Some(i as int),
            ),
            Ok(None) => first_saved(item_contents(candidates@), 0) == Ok::<Option<int>, ()>(None),
            Err(reason) => first_saved(item_contents(candidates@), 0) is Err && reason@
                == "session metadata cannot be read"@,
        },
{
    let ghost all = item_contents(candidates@);
    let mut i: usize = 0;
    while i < candidates.len()
        invariant
            i <= candidates.len(),
            all == item_contents(candidates@),
            first_saved(all, 0) == first_saved(all, i as int),
        decreases candidates.len() - i,
    {
        assert(all[i as int] == candidates@[i as int]@);
        match &candidates[i] {
            Candidate::Missing => {},
            Candidate::Malformed => {
                return Err("session metadata cannot be read".to_owned());
            },
            Candidate::Saved(_) => {
                return Ok(Some(i));
            },
        }
        i = i + 1;
    }
    Ok(None)
}

/// Which of the places is taken up, and whether its metadata has to be written to the
/// first of them.
pub fn resume_launch(candidates: &Vec<Candidate>) -> (choice: Result<(usize, bool), String>)
    ensures
        match choice {
            Ok((place, moved)) => first_saved(item_contents(candidates@), 0) == Ok::<
                Option<int>,
                (),
            >(Some(place as int)) && moved == (place != 0),
            Err(reason) => match first_saved(item_contents(candidates@), 0) {
                Ok(place) => place is None && reason@
                    == "No resumable CodeSwarm session for this project"@,
                Err(_) => reason@ == "session metadata cannot be read"@,
            },
        },
{
    match load_session_metadata_candidates(candidates) {
        Ok(Some(place)) => Ok((place, place != 0)),
        Ok(None) => Err("No resumable CodeSwarm session for this project".to_owned()),
        Err(reason) => Err(reason),
    }
}

/// Whether a key is a name as the keys of projects are.
pub open spec fn is_name(key: Seq<char>) -> bool {
    key.len() > 0 && forall|i: int| 0 <= i < key.len() ==> is_safe(#[trigger] key[i])
}

proof fn lemma_name_bytes(key: Seq<char>)
    requires
        is_name(key),
    ensures
        path_part(key).len() > 0,
        path_part(key).last() != 47,
{
    assert(is_ascii_chars(key)) by {
        assert forall|i: int| 0 <= i < key.len() implies '\0' <= #[trigger] key[i] <= '\u{7f}' by {
            let c = key[i];
            assert(is_safe(c));
            let code = c as u32;
            char_u32_cast(c, code);
            assert(code <= 0x7f);
            assert(code as char == c);
        }
    }
    is_ascii_chars_encode_utf8(key);
    assert(is_safe(key[key.len() - 1]));
}

proof fn lemma_below_name(base: Seq<u8>, key: Seq<char>, file: Seq<u8>)
    requires
        base.len() > 0,
        base.last() != 47,
        is_name(key),
    ensures
        below(below(base, path_part(key)), file) == base + (seq![47u8] + path_part(key) + seq![
            47u8,
        ] + file),
{
    lemma_name_bytes(key);
    assert(below(base, path_part(key)).last() == path_part(key).last());
    assert(below(below(base, path_part(key)), file) =~= base + (seq![47u8] + path_part(key) + seq![
        47u8,
    ] + file));
}

/// The prompts of two projects are kept apart wherever their keys differ.
pub proof fn law_histories_are_kept_apart(data_home: Seq<u8>, first: Seq<char>, second: Seq<char>)
    requires
        is_name(first),
        is_name(second),
        first != second,
    ensures
        history_below(data_home, first) != history_below(data_home, second),
{
    let file = path_part("prompt_history.jsonl"@);
    reveal_strlit("codeswarm");
    assert(is_name("codeswarm"@));
    lemma_name_bytes("codeswarm"@);
    let base = below(data_home, path_part("codeswarm"@));
    assert(base.last() == path_part("codeswarm"@).last());
    lemma_below_name(base, first, file);
    lemma_below_name(base, second, file);
    let one = path_part(first);
    let two = path_part(second);
    if history_below(data_home, first) == history_below(data_home, second) {
        let path = history_below(data_home, first);
        assert(path.len() == base.len() + 2 + one.len() + file.len());
        assert(path.len() == base.len() + 2 + two.len() + file.len());
        let from = base.len() as int + 1;
        assert(one =~= path.subrange(from, from + one.len()));
        assert(two =~= path.subrange(from, from + two.len()));
        encode_utf8_decode_utf8(first);
        encode_utf8_decode_utf8(second);
    }
}

/// Metadata that cannot be read is never passed over for older metadata.
pub proof fn law_malformed_metadata_is_not_passed_over(candidates: Seq<CandidateView>, i: int)
    requires
        0 <= i < candidates.len(),
        candidates[i] is Malformed,
    ensures
        first_saved(candidates, 0) matches Ok(place) ==> (place matches Some(k) && k < i),
{
    lemma_first_saved(candidates, i, 0);
}

proof fn lemma_first_saved(candidates: Seq<CandidateView>, i: int, from: int)
    requires
        0 <= from <= i < candidates.len(),
        candidates[i] is Malformed,
    ensures
        first_saved(candidates, from) matches Ok(place) ==> (place matches Some(k) && k < i),
    decreases i - from,
{
    if from < i && candidates[from] is Missing {
        lemma_first_saved(candidates, i, from + 1);
    }
}

} // verus!
