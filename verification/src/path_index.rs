//! Bounded workspace path indexing for the prompt picker.
//!
//! The index caps both traversal and search output, so a large workspace cannot
//! turn a prompt key into a multi-second redraw. Reading directories and the
//! worker thread are the caller's; what to visit, what to keep and what to answer
//! is decided here.

use crate::encoding::{byte_len, byte_length, lemma_byte_len_split, width_in_bytes};
use crate::order::{
    comes_before, in_rank_order, insert_ranked, item_contents, law_ranked_is_ordered,
    law_ranked_keeps_items, lemma_best, lemma_text_order, rank, ranked, text_before, with_ranked, Ranked,
};
use crate::text::{
    append_chars, append_text, begins_with, contains, contents, find_char, find_last, has_prefix,
    is_space, last_index_of, lemma_find_char, lemma_strings_push, lines, lower, optional, position_of, same, slice,
    slice_to_string, space, split, split_at_char, split_lines, stands_at, starts_with, strings,
    to_chars, to_lower, to_lower_chars, to_text, trim, trim_start_char, trimmed, trimmed_start_char,
};
use vstd::prelude::*;
use vstd::utf8::encode_utf8;

verus! {

/// Minimum length of a query.
pub const MIN_PATH_QUERY_CHARS: usize = 3;

/// Maximum number of entries retained by one index.
pub const MAX_INDEX_ENTRIES: usize = 8_192;

/// Maximum number of picker rows returned for one query.
pub const MAX_PATH_RESULTS: usize = 30;

/// Traversal depth cap. The root itself is depth zero.
pub const MAX_INDEX_DEPTH: usize = 8;

#[derive(Clone, Debug, Eq, PartialEq)]
pub struct PathCandidate {
    /// Workspace-relative path, always using `/` separators.
    pub path: String,
    pub directory: bool,
}

/// What a candidate holds.
pub struct CandidateView {
    pub path: Seq<char>,
    pub directory: bool,
}

impl View for PathCandidate {
    type V = CandidateView;

    open spec fn view(&self) -> CandidateView {
        CandidateView { path: self.path@, directory: self.directory }
    }
}

impl PathCandidate {
    fn copy(&self) -> (candidate: PathCandidate)
        ensures
            candidate@ == self@,
    {
        PathCandidate { path: self.path.clone(), directory: self.directory }
    }
}

#[derive(Clone, Debug, Eq, PartialEq)]
pub struct PathMatch {
    pub path: String,
    pub directory: bool,
    /// Fuzzy score; larger is a stronger match.
    pub score: usize,
    /// Offsets, in bytes, of the characters that matched the query. A renderer
    /// uses them for underlining without rescanning the candidate.
    pub offsets: Vec<usize>,
}

/// What a match holds.
pub struct MatchView {
    pub path: Seq<char>,
    pub directory: bool,
    pub score: usize,
    pub offsets: Seq<usize>,
}

impl View for PathMatch {
    type V = MatchView;

    open spec fn view(&self) -> MatchView {
        MatchView {
            path: self.path@,
            directory: self.directory,
            score: self.score,
            offsets: self.offsets@,
        }
    }
}

impl Ranked for PathMatch {
    /// Stronger matches first, then by path without regard to ASCII case.
    open spec fn ranks_before(left: MatchView, right: MatchView) -> bool {
        left.score > right.score || (left.score == right.score && text_before(
            lower(left.path),
            lower(right.path),
        ))
    }

    fn before(&self, other: &Self) -> (yes: bool) {
        if self.score != other.score {
            return self.score > other.score;
        }
        comes_before(
            &to_lower_chars(&to_chars(self.path.as_str())),
            &to_lower_chars(&to_chars(other.path.as_str())),
        )
    }

    proof fn lemma_ranking(a: MatchView, b: MatchView, c: MatchView) {
        lemma_text_order(lower(a.path), lower(b.path), lower(c.path));
    }
}

impl Ranked for PathCandidate {
    /// Shallower paths first, then by path without regard to ASCII case.
    open spec fn ranks_before(left: CandidateView, right: CandidateView) -> bool {
        let l = count_of(left.path, '/');
        let r = count_of(right.path, '/');
        l < r || (l == r && text_before(lower(left.path), lower(right.path)))
    }

    fn before(&self, other: &Self) -> (yes: bool) {
        let left = to_chars(self.path.as_str());
        let right = to_chars(other.path.as_str());
        let l: usize = occurrences(&left, '/');
        let r: usize = occurrences(&right, '/');
        if l != r {
            return l < r;
        }
        comes_before(&to_lower_chars(&left), &to_lower_chars(&right))
    }

    proof fn lemma_ranking(a: CandidateView, b: CandidateView, c: CandidateView) {
        lemma_text_order(lower(a.path), lower(b.path), lower(c.path));
    }
}

/// How often a character occurs in a text.
pub open spec fn count_of(s: Seq<char>, c: char) -> nat
    decreases s.len(),
{
    if s.len() == 0 {
        0
    } else {
        count_of(s.drop_last(), c) + if s.last() == c {
            1nat
        } else {
            0
        }
    }
}

/// How often a character occurs.
pub fn occurrences(chars: &Vec<char>, c: char) -> (count: usize)
    ensures
        count == count_of(chars@, c),
{
    let mut count: usize = 0;
    let mut i: usize = 0;
    assert(chars@.take(0).len() == 0);
    while i < chars.len()
        invariant
            i <= chars@.len(),
            count <= i,
            count == count_of(chars@.take(i as int), c),
        decreases chars@.len() - i,
    {
        assert(chars@.take(i + 1).drop_last() =~= chars@.take(i as int));
        if chars[i] == c {
            count = count + 1;
        }
        i = i + 1;
    }
    assert(chars@.take(i as int) =~= chars@);
    count
}

// Ignore rules.

/// One line of an ignore file.
#[derive(Clone, Debug, Eq, PartialEq)]
pub struct IgnoreRule {
    pub pattern: String,
    pub negated: bool,
    pub directory_only: bool,
    pub anchored: bool,
}

/// What an ignore rule holds.
pub struct RuleView {
    pub pattern: Seq<char>,
    pub negated: bool,
    pub directory_only: bool,
    pub anchored: bool,
}

impl View for IgnoreRule {
    type V = RuleView;

    open spec fn view(&self) -> RuleView {
        RuleView {
            pattern: self.pattern@,
            negated: self.negated,
            directory_only: self.directory_only,
            anchored: self.anchored,
        }
    }
}

/// The text without the characters `c` at its end.
pub open spec fn trim_end_char(s: Seq<char>, c: char) -> Seq<char>
    decreases s.len(),
{
    if s.len() > 0 && s.last() == c {
        trim_end_char(s.drop_last(), c)
    } else {
        s
    }
}

fn trimmed_end_char(chars: &Vec<char>, c: char) -> (rest: Vec<char>)
    ensures
        rest@ == trim_end_char(chars@, c),
{
    let mut end: usize = chars.len();
    assert(chars@.take(end as int) =~= chars@);
    while end > 0 && chars[end - 1] == c
        invariant
            end <= chars@.len(),
            trim_end_char(chars@, c) == trim_end_char(chars@.take(end as int), c),
        decreases end,
    {
        assert(chars@.take(end as int).drop_last() =~= chars@.take(end - 1));
        end = end - 1;
    }
    assert(chars@.take(end as int) =~= chars@.subrange(0, end as int));
    slice(chars, 0, end)
}

/// The rule on a line of an ignore file. Blank lines and comments are none; `!`
/// negates, a `/` at the end asks for a directory, one at the start anchors.
pub open spec fn rule_on(line: Seq<char>) -> Option<RuleView> {
    let written = trim(line);
    if written.len() == 0 || written[0] == '#' {
        None
    } else {
        let negated = written[0] == '!';
        let body = if negated {
            written.skip(1)
        } else {
            written
        };
        let path = trim_end_char(body, '/');
        let pattern = trim_start_char(path, '/');
        if pattern.len() == 0 {
            None
        } else {
            Some(
                RuleView {
                    pattern,
                    negated,
                    directory_only: body.len() > 0 && body.last() == '/',
                    anchored: begins_with(path, '/'),
                },
            )
        }
    }
}

/// The rules on the lines, in order.
pub open spec fn rules_on(all: Seq<Seq<char>>) -> Seq<RuleView>
    decreases all.len(),
{
    if all.len() == 0 {
        Seq::empty()
    } else {
        match rule_on(all.last()) {
            Some(rule) => rules_on(all.drop_last()).push(rule),
            None => rules_on(all.drop_last()),
        }
    }
}

fn parse_rule(line: &Vec<char>) -> (rule: Option<IgnoreRule>)
    ensures
        match rule {
            Some(found) => rule_on(line@) == Some(found@),
            None => rule_on(line@) is None,
        },
{
    let written = trimmed(line);
    if written.len() == 0 || written[0] == '#' {
        return None;
    }
    let negated: bool = written[0] == '!';
    let body = slice(
        &written,
        if negated {
            1
        } else {
            0
        },
        written.len(),
    );
    assert(body@ =~= if negated {
        written@.skip(1)
    } else {
        written@
    });
    let directory_only: bool = body.len() > 0 && body[body.len() - 1] == '/';
    let path = trimmed_end_char(&body, '/');
    let anchored: bool = path.len() > 0 && path[0] == '/';
    let pattern = trimmed_start_char(&path, '/');
    if pattern.len() == 0 {
        return None;
    }
    Some(IgnoreRule { pattern: to_text(&pattern), negated, directory_only, anchored })
}

/// The rules that the text of an ignore file holds.
pub fn parse_ignore_rules(content: &str) -> (rules: Vec<IgnoreRule>)
    ensures
        item_contents(rules@) == rules_on(lines(content@)),
{
    let all = split_lines(&to_chars(content));
    let ghost parts = contents(all@);
    let mut rules: Vec<IgnoreRule> = Vec::new();
    let mut i: usize = 0;
    assert(item_contents(rules@) =~= rules_on(parts.take(0)));
    while i < all.len()
        invariant
            i <= all@.len(),
            parts == contents(all@),
            item_contents(rules@) == rules_on(parts.take(i as int)),
        decreases all@.len() - i,
    {
        assert(parts.take(i + 1).drop_last() =~= parts.take(i as int));
        assert(parts.take(i + 1).last() == all@[i as int]@);
        let ghost before = item_contents(rules@);
        if let Some(rule) = parse_rule(&all[i]) {
            let ghost added = rule@;
            rules.push(rule);
            assert(item_contents(rules@) =~= before.push(added));
        }
        i = i + 1;
    }
    assert(parts.take(i as int) =~= parts);
    rules
}

// Globs.

/// The lower-case form of an ASCII capital; every other byte is itself.
pub open spec fn lower_byte(b: u8) -> u8 {
    if 65 <= b <= 90 {
        (b + 32) as u8
    } else {
        b
    }
}

fn to_lower_byte(b: u8) -> (low: u8)
    ensures
        low == lower_byte(b),
{
    if 65 <= b && b <= 90 {
        b + 32
    } else {
        b
    }
}

/// Shell-style matching of bytes: `*` stands for any bytes, `?` for one byte, and
/// every other byte for itself in either ASCII case.
pub open spec fn glob(pattern: Seq<u8>, text: Seq<u8>) -> bool
    decreases pattern.len(), text.len(),
{
    if pattern.len() == 0 {
        text.len() == 0
    } else if pattern.last() == 42 {
        glob(pattern.drop_last(), text) || (text.len() > 0 && glob(pattern, text.drop_last()))
    } else {
        text.len() > 0 && (pattern.last() == 63 || lower_byte(pattern.last()) == lower_byte(
            text.last(),
        )) && glob(pattern.drop_last(), text.drop_last())
    }
}

/// For each prefix of the text, whether the pattern matches it.
spec fn glob_states(states: Seq<bool>, pattern: Seq<u8>, text: Seq<u8>) -> bool {
    &&& states.len() == text.len() + 1
    &&& forall|i: int| 0 <= i < states.len() ==> #[trigger] states[i] == glob(pattern, text.take(i))
}

fn glob_step(states: &Vec<bool>, byte: u8, text: &[u8], Ghost(pattern): Ghost<Seq<u8>>) -> (next: Vec<
    bool,
>)
    requires
        glob_states(states@, pattern, text@),
    ensures
        glob_states(next@, pattern.push(byte), text@),
{
    let ghost longer = pattern.push(byte);
    assert(longer.drop_last() =~= pattern);
    assert(longer.last() == byte);
    let mut next: Vec<bool> = Vec::new();
    let mut i: usize = 0;
    while i < states.len()
        invariant
            i <= states@.len(),
            glob_states(states@, pattern, text@),
            longer == pattern.push(byte),
            longer.drop_last() == pattern,
            longer.last() == byte,
            longer.len() > 0,
            next@.len() == i,
            forall|j: int| 0 <= j < i ==> #[trigger] next@[j] == glob(longer, text@.take(j)),
        decreases states@.len() - i,
    {
        let ghost prefix = text@.take(i as int);
        let value: bool = if byte == 42 {
            states[i] || (i > 0 && next[i - 1])
        } else if i == 0 {
            false
        } else {
            (byte == 63 || to_lower_byte(byte) == to_lower_byte(text[i - 1])) && states[i - 1]
        };
        proof {
            if i > 0 {
                assert(prefix.drop_last() =~= text@.take(i - 1));
                assert(prefix.last() == text@[i - 1]);
            }
            assert(value == glob(longer, prefix));
        }
        next.push(value);
        i = i + 1;
    }
    next
}

/// Whether a pattern matches a text, byte for byte.
pub fn glob_match(pattern: &str, text: &str) -> (yes: bool)
    ensures
        yes == glob(encode_utf8(pattern@), encode_utf8(text@)),
{
    let bytes = pattern.as_bytes();
    let target = text.as_bytes();
    let mut states: Vec<bool> = Vec::new();
    let mut i: usize = 0;
    states.push(true);
    while i < target.len()
        invariant
            i <= target@.len(),
            states@.len() == i + 1,
            states@[0],
            forall|j: int| 1 <= j < states@.len() ==> !#[trigger] states@[j],
        decreases target@.len() - i,
    {
        states.push(false);
        i = i + 1;
    }
    assert(glob_states(states@, bytes@.take(0), target@));
    let mut at: usize = 0;
    while at < bytes.len()
        invariant
            at <= bytes@.len(),
            glob_states(states@, bytes@.take(at as int), target@),
        decreases bytes@.len() - at,
    {
        let next = glob_step(&states, bytes[at], target, Ghost(bytes@.take(at as int)));
        assert(bytes@.take(at as int).push(bytes@[at as int]) =~= bytes@.take(at + 1));
        states = next;
        at = at + 1;
    }
    assert(bytes@.take(at as int) =~= bytes@);
    assert(target@.take(target@.len() as int) =~= target@);
    states[target.len()]
}

/// Whether a rule speaks of a path.
pub open spec fn rule_matches(rule: RuleView, path: Seq<char>) -> bool {
    let pattern = encode_utf8(rule.pattern);
    if contains(rule.pattern, seq!['/']) || rule.anchored {
        glob(pattern, encode_utf8(path)) || (!rule.anchored && starts_with(path, "./"@) && glob(
            pattern,
            encode_utf8(path.skip(2)),
        ))
    } else {
        exists|i: int|
            0 <= i < split(path, '/').len() && #[trigger] glob(pattern, encode_utf8(split(path, '/')[i]))
    }
}

/// Whether the rules ignore a path: the last rule that speaks of it decides.
pub open spec fn ignored_by(path: Seq<char>, directory: bool, rules: Seq<RuleView>) -> bool
    decreases rules.len(),
{
    if rules.len() == 0 {
        false
    } else {
        let rule = rules.last();
        if (directory || !rule.directory_only) && rule_matches(rule, path) {
            !rule.negated
        } else {
            ignored_by(path, directory, rules.drop_last())
        }
    }
}

fn matches_rule(rule: &IgnoreRule, path: &str) -> (yes: bool)
    ensures
        yes == rule_matches(rule@, path@),
{
    proof {
        reveal_strlit("/");
        reveal_strlit("./");
        assert("/"@ =~= seq!['/']);
    }
    let pattern = rule.pattern.as_str();
    if crate::text::has_part(pattern, "/") || rule.anchored {
        if glob_match(pattern, path) {
            return true;
        }
        if !rule.anchored && has_prefix(path, "./") {
            let chars = to_chars(path);
            let rest = slice_to_string(&chars, 2, chars.len());
            assert(rest@ =~= path@.skip(2));
            return glob_match(pattern, rest.as_str());
        }
        return false;
    }
    let parts = split_at_char(&to_chars(path), '/');
    let ghost components = split(path@, '/');
    let mut i: usize = 0;
    while i < parts.len()
        invariant
            i <= parts@.len(),
            contents(parts@) == components,
            components == split(path@, '/'),
            !contains(rule@.pattern, seq!['/']) && !rule@.anchored,
            pattern@ == rule@.pattern,
            forall|j: int|
                0 <= j < i ==> !#[trigger] glob(encode_utf8(rule@.pattern), encode_utf8(components[j])),
        decreases parts@.len() - i,
    {
        assert(components[i as int] == parts@[i as int]@);
        if glob_match(pattern, to_text(&parts[i]).as_str()) {
            return true;
        }
        i = i + 1;
    }
    false
}

pub fn is_ignored(path: &str, directory: bool, rules: &Vec<IgnoreRule>) -> (ignored: bool)
    ensures
        ignored == ignored_by(path@, directory, item_contents(rules@)),
{
    let ghost all = item_contents(rules@);
    let mut ignored: bool = false;
    let mut i: usize = 0;
    assert(all.take(0).len() == 0);
    while i < rules.len()
        invariant
            i <= rules@.len(),
            all == item_contents(rules@),
            ignored == ignored_by(path@, directory, all.take(i as int)),
        decreases rules@.len() - i,
    {
        assert(all.take(i + 1).drop_last() =~= all.take(i as int));
        assert(all.take(i + 1).last() == rules@[i as int]@);
        if directory || !rules[i].directory_only {
            if matches_rule(&rules[i], path) {
                ignored = !rules[i].negated;
            }
        }
        i = i + 1;
    }
    assert(all.take(i as int) =~= all);
    ignored
}

// Scanning.

/// A walk over a workspace. The caller reads the directories; the walk decides
/// which entries are kept and which directories are read next.
#[derive(Debug)]
pub struct WorkspaceScan {
    rules: Vec<IgnoreRule>,
    candidates: Vec<PathCandidate>,
    pending: Vec<(String, usize)>,
    full: bool,
}

/// The state of a walk.
pub struct ScanView {
    pub rules: Seq<RuleView>,
    /// The entries kept, in the order in which they were found.
    pub candidates: Seq<CandidateView>,
    /// The directories to read, with their depths; the last one is next.
    pub pending: Seq<(Seq<char>, usize)>,
    /// The cap was reached and an entry was left out.
    pub full: bool,
}

/// The contents of the directories to read.
pub open spec fn pending_contents(pending: Seq<(String, usize)>) -> Seq<(Seq<char>, usize)> {
    Seq::new(pending.len(), |i: int| (pending[i].0@, pending[i].1))
}

/// A name below a directory; the workspace root has the empty path.
pub open spec fn child_path(directory: Seq<char>, name: Seq<char>) -> Seq<char> {
    if directory.len() == 0 {
        name
    } else {
        directory.push('/') + name
    }
}

/// The path with `/` for every `\`.
pub open spec fn with_slashes(path: Seq<char>) -> Seq<char> {
    Seq::new(
        path.len(),
        |i: int|
            if path[i] == '\\' {
                '/'
            } else {
                path[i]
            },
    )
}

/// Directories that are never read and never listed.
pub open spec fn is_generated(name: Seq<char>) -> bool {
    name == ".git"@ || name == "node_modules"@ || name == "target"@
}

/// The walk after an entry of a directory was seen. At the cap the walk is over.
pub open spec fn with_entry(
    scan: ScanView,
    directory: Seq<char>,
    depth: usize,
    name: Seq<char>,
    symlink: bool,
    is_directory: bool,
) -> ScanView {
    let relative = child_path(directory, name);
    let display = with_slashes(relative);
    if scan.candidates.len() >= MAX_INDEX_ENTRIES {
        ScanView { full: true, ..scan }
    } else if symlink || is_generated(name) || ignored_by(display, is_directory, scan.rules) {
        scan
    } else {
        ScanView {
            candidates: scan.candidates.push(
                CandidateView { path: display, directory: is_directory },
            ),
            pending: if is_directory && depth < MAX_INDEX_DEPTH {
                scan.pending.push((relative, (depth + 1) as usize))
            } else {
                scan.pending
            },
            ..scan
        }
    }
}

impl View for WorkspaceScan {
    type V = ScanView;

    closed spec fn view(&self) -> ScanView {
        ScanView {
            rules: item_contents(self.rules@),
            candidates: item_contents(self.candidates@),
            pending: pending_contents(self.pending@),
            full: self.full,
        }
    }
}

impl WorkspaceScan {
    /// No walk keeps more entries than the cap, and no directory beyond the depth
    /// cap waits to be read.
    pub closed spec fn wf(&self) -> bool {
        &&& self@.candidates.len() <= MAX_INDEX_ENTRIES
        &&& forall|i: int|
            0 <= i < self@.pending.len() ==> (#[trigger] self@.pending[i]).1 <= MAX_INDEX_DEPTH
    }

    /// Every walk is bounded.
    pub proof fn law_scans_are_bounded(&self)
        requires
            self.wf(),
        ensures
            self@.candidates.len() <= MAX_INDEX_ENTRIES,
            forall|i: int|
                0 <= i < self@.pending.len() ==> (#[trigger] self@.pending[i]).1 <= MAX_INDEX_DEPTH,
    {
    }

    /// A walk that starts at the root of a workspace with the rules of its ignore file.
    pub fn new(ignore_file: &str) -> (scan: Self)
        ensures
            scan.wf(),
            scan@ == (ScanView {
                rules: rules_on(lines(ignore_file@)),
                candidates: Seq::empty(),
                pending: seq![(Seq::empty(), 0usize)],
                full: false,
            }),
    {
        let mut pending: Vec<(String, usize)> = Vec::new();
        pending.push((String::new(), 0));
        let scan = WorkspaceScan {
            rules: parse_ignore_rules(ignore_file),
            candidates: Vec::new(),
            pending,
            full: false,
        };
        assert(scan@.candidates =~= Seq::<CandidateView>::empty());
        assert(scan@.pending =~= seq![(Seq::<char>::empty(), 0usize)]);
        scan
    }

    /// The directory to read next, relative to the root, and its depth.
    pub fn next_directory(&mut self) -> (directory: Option<(String, usize)>)
        requires
            old(self).wf(),
        ensures
            final(self).wf(),
            match directory {
                Some((path, depth)) => !old(self)@.full && old(self)@.pending.len() > 0 && (path@, depth)
                    == old(self)@.pending.last() && final(self)@ == (ScanView {
                    pending: old(self)@.pending.drop_last(),
                    ..old(self)@
                }) && depth <= MAX_INDEX_DEPTH,
                None => (old(self)@.full || old(self)@.pending.len() == 0) && final(self)@
                    == old(self)@,
            },
    {
        if self.full {
            return None;
        }
        let ghost before = self@;
        let directory = self.pending.pop();
        proof {
            if directory is Some {
                assert(self@.pending =~= before.pending.drop_last());
            }
        }
        directory
    }

    /// Takes an entry of a directory. After the cap is reached the walk is over,
    /// and `false` says so.
    pub fn entry(&mut self, directory: &str, depth: usize, name: &str, symlink: bool, is_directory: bool)
        -> (more: bool)
        requires
            old(self).wf(),
            depth <= MAX_INDEX_DEPTH,
        ensures
            final(self).wf(),
            final(self)@ == with_entry(
                old(self)@,
                directory@,
                depth,
                name@,
                symlink,
                is_directory,
            ),
            more == (old(self)@.candidates.len() < MAX_INDEX_ENTRIES),
    {
        let ghost before = self@;
        if self.candidates.len() >= MAX_INDEX_ENTRIES {
            self.full = true;
            return false;
        }
        if symlink || same(name, ".git") || same(name, "node_modules") || same(name, "target") {
            return true;
        }
        let mut relative = to_chars(directory);
        if relative.len() > 0 {
            relative.push('/');
        }
        append_text(&mut relative, name);
        assert(relative@ =~= child_path(directory@, name@));
        let display = slashed(&relative);
        if is_ignored(display.as_str(), is_directory, &self.rules) {
            return true;
        }
        self.candidates.push(PathCandidate { path: display, directory: is_directory });
        assert(self@.candidates =~= before.candidates.push(
            CandidateView { path: with_slashes(relative@), directory: is_directory },
        ));
        if is_directory && depth < MAX_INDEX_DEPTH {
            self.pending.push((to_text(&relative), depth + 1));
            assert(self@.pending =~= before.pending.push((relative@, (depth + 1) as usize)));
        }
        true
    }

    /// The entries of the workspace: ordered, unless the walk ended at the cap.
    pub fn finish(self) -> (candidates: Vec<PathCandidate>)
        ensures
            item_contents(candidates@) == (if self@.full {
                self@.candidates
            } else {
                ranked::<PathCandidate>(self@.candidates)
            }),
    {
        if self.full {
            self.candidates
        } else {
            rank(self.candidates)
        }
    }
}

fn slashed(path: &Vec<char>) -> (display: String)
    ensures
        display@ == with_slashes(path@),
{
    let mut display = String::new();
    let mut i: usize = 0;
    while i < path.len()
        invariant
            i <= path@.len(),
            display@ == with_slashes(path@).take(i as int),
        decreases path@.len() - i,
    {
        display.push(
            if path[i] == '\\' {
                '/'
            } else {
                path[i]
            },
        );
        assert(display@ =~= with_slashes(path@).take(i + 1));
        i = i + 1;
    }
    assert(with_slashes(path@).take(i as int) =~= with_slashes(path@));
    display
}

// Matching.

/// The points and the byte offsets of a query whose characters occur in a text in
/// order, each at its first place from character `cursor` on. A character right
/// behind the previous one counts 4, one at the start of a path component 3,
/// another 1.
pub open spec fn walk(query: Seq<char>, text: Seq<char>, cursor: int, previous: Option<int>) -> Option<
    (int, Seq<int>),
>
    decreases query.len(),
{
    if query.len() == 0 {
        Some((0, Seq::empty()))
    } else {
        let k = cursor + find_char(text.skip(cursor), query[0]);
        if k >= text.len() {
            None
        } else {
            let offset = byte_len(text.take(k)) as int;
            let points: int = if previous == Some(
                if offset > 0 {
                    offset - 1
                } else {
                    0
                },
            ) {
                4
            } else if k == 0 || text[k - 1] == '/' {
                3
            } else {
                1
            };
            match walk(query.drop_first(), text, k + 1, Some(offset)) {
                Some((score, offsets)) => Some((points + score, seq![offset] + offsets)),
                None => None,
            }
        }
    }
}

/// The part of a path behind its last `/`.
pub open spec fn file_name(path: Seq<char>) -> Seq<char> {
    match find_last(path, seq!['/']) {
        Some(k) => path.skip(k + 1),
        None => path,
    }
}

/// A number as `usize`, cut to its largest value.
pub open spec fn capped(n: int) -> int {
    if n < 0 {
        0
    } else if n > usize::MAX {
        usize::MAX as int
    } else {
        n
    }
}

/// The score of a query in a path, both in lower case: the points of the walk,
/// four for each character of a query that the file name starts with, less one
/// for each `/`.
pub open spec fn fuzzy(query: Seq<char>, path: Seq<char>) -> Option<(int, Seq<int>)> {
    match walk(query, path, 0, None) {
        Some((points, offsets)) => {
            let bonus: int = if starts_with(file_name(path), query) {
                4 * query.len() as int
            } else {
                0
            };
            Some((capped(points + bonus - count_of(path, '/')), offsets))
        },
        None => None,
    }
}

/// The match of a query with a candidate.
pub open spec fn match_of(query: Seq<char>, candidate: CandidateView) -> Option<MatchView> {
    match fuzzy(lower(query), lower(candidate.path)) {
        Some((score, offsets)) => Some(
            MatchView {
                path: candidate.path,
                directory: candidate.directory,
                score: score as usize,
                offsets: Seq::new(offsets.len(), |i: int| offsets[i] as usize),
            },
        ),
        None => None,
    }
}

/// The matches of a query with the candidates, in their order.
pub open spec fn matches_of(query: Seq<char>, candidates: Seq<CandidateView>) -> Seq<MatchView>
    decreases candidates.len(),
{
    if candidates.len() == 0 {
        Seq::empty()
    } else {
        match match_of(query, candidates.last()) {
            Some(found) => matches_of(query, candidates.drop_last()).push(found),
            None => matches_of(query, candidates.drop_last()),
        }
    }
}

/// The first `limit` of a list.
pub open spec fn at_most<V>(list: Seq<V>, limit: int) -> Seq<V> {
    if list.len() > limit {
        list.take(limit)
    } else {
        list
    }
}

/// The best matches of a query, best first. A query of fewer than three
/// characters, with or without the `@` before it, has none.
pub open spec fn best_matches(query: Seq<char>, candidates: Seq<CandidateView>) -> Seq<MatchView> {
    let written = trim(query);
    let wanted = trim_start_char(written, '@');
    if written.len() < MIN_PATH_QUERY_CHARS || wanted.len() < MIN_PATH_QUERY_CHARS {
        Seq::empty()
    } else {
        at_most(ranked::<PathMatch>(matches_of(wanted, candidates)), MAX_PATH_RESULTS as int)
    }
}

/// Picker rows are bounded and in the order of their ranking.
pub proof fn law_best_matches_are_ranked(query: Seq<char>, candidates: Seq<CandidateView>)
    ensures
        best_matches(query, candidates).len() <= MAX_PATH_RESULTS,
        in_rank_order::<PathMatch>(best_matches(query, candidates)),
{
    law_ranked_is_ordered::<PathMatch>(
        matches_of(trim_start_char(trim(query), '@'), candidates),
    );
}

/// Whether the characters of a query stand in a text at the places, one behind the other
/// and none before character `from`.
pub open spec fn stands_in_order(query: Seq<char>, text: Seq<char>, places: Seq<int>, from: int) -> bool {
    &&& places.len() == query.len()
    &&& forall|i: int|
        0 <= i < places.len() ==> from <= #[trigger] places[i] < text.len() && text[places[i]]
            == query[i]
    &&& forall|i: int, j: int|
        0 <= i < j < places.len() ==> #[trigger] places[i] < #[trigger] places[j]
}

proof fn lemma_walk_finds(query: Seq<char>, text: Seq<char>, from: int, previous: Option<int>)
    requires
        0 <= from <= text.len(),
    ensures
        walk(query, text, from, previous) matches Some((points, offsets)) ==> exists|places: Seq<int>|
            #[trigger] stands_in_order(query, text, places, from) && offsets.len() == places.len()
                && forall|i: int|
                0 <= i < places.len() ==> #[trigger] offsets[i] == byte_len(text.take(places[i])),
    decreases query.len(),
{
    if query.len() == 0 {
        let none = Seq::<int>::empty();
        assert(stands_in_order(query, text, none, from));
    } else {
        let rest = text.skip(from);
        lemma_find_char(rest, query[0]);
        let k = from + find_char(rest, query[0]);
        if k < text.len() {
            let offset = byte_len(text.take(k)) as int;
            lemma_walk_finds(query.drop_first(), text, k + 1, Some(offset));
            match walk(query.drop_first(), text, k + 1, Some(offset)) {
                Some((points, offsets)) => {
                    let later = choose|places: Seq<int>|
                        #[trigger] stands_in_order(query.drop_first(), text, places, k + 1)
                            && offsets.len() == places.len() && forall|i: int|
                            0 <= i < places.len() ==> #[trigger] offsets[i] == byte_len(
                                text.take(places[i]),
                            );
                    let places = seq![k] + later;
                    assert(text[k] == rest[k - from]);
                    assert forall|i: int| 0 <= i < places.len() implies from <= #[trigger] places[i]
                        < text.len() && text[places[i]] == query[i] by {
                        if i > 0 {
                            assert(places[i] == later[i - 1]);
                            assert(query[i] == query.drop_first()[i - 1]);
                        }
                    }
                    assert forall|i: int, j: int| 0 <= i < j < places.len() implies #[trigger] places[i]
                        < #[trigger] places[j] by {
                        assert(places[j] == later[j - 1]);
                        if i > 0 {
                            assert(places[i] == later[i - 1]);
                        }
                    }
                    assert(stands_in_order(query, text, places, from));
                    let all = seq![offset] + offsets;
                    assert forall|i: int| 0 <= i < places.len() implies #[trigger] all[i]
                        == byte_len(text.take(places[i])) by {
                        if i > 0 {
                            assert(all[i] == offsets[i - 1]);
                            assert(places[i] == later[i - 1]);
                        }
                    }
                },
                None => {},
            }
        }
    }
}

proof fn lemma_walk_misses_nothing(
    query: Seq<char>,
    text: Seq<char>,
    from: int,
    previous: Option<int>,
    places: Seq<int>,
)
    requires
        0 <= from <= text.len(),
        stands_in_order(query, text, places, from),
    ensures
        walk(query, text, from, previous) is Some,
    decreases query.len(),
{
    if query.len() > 0 {
        let rest = text.skip(from);
        lemma_find_char(rest, query[0]);
        let k = from + find_char(rest, query[0]);
        let first = places[0];
        assert(rest[first - from] == query[0]);
        assert(k <= first);
        let later = places.drop_first();
        assert forall|i: int| 0 <= i < later.len() implies k + 1 <= #[trigger] later[i] < text.len()
            && text[later[i]] == query.drop_first()[i] by {
            assert(later[i] == places[i + 1]);
            assert(places[0] < places[i + 1]);
        }
        assert forall|i: int, j: int| 0 <= i < j < later.len() implies #[trigger] later[i]
            < #[trigger] later[j] by {
            assert(later[i] == places[i + 1] && later[j] == places[j + 1]);
        }
        lemma_walk_misses_nothing(
            query.drop_first(),
            text,
            k + 1,
            Some(byte_len(text.take(k)) as int),
            later,
        );
    }
}

/// A path matches exactly when the characters of the query stand in it in order, upper case
/// or lower. The match is about that path, and its offsets are those of such characters.
pub proof fn law_a_match_holds_the_query(query: Seq<char>, candidate: CandidateView)
    requires
        byte_len(lower(candidate.path)) <= usize::MAX,
    ensures
        match_of(query, candidate) is Some <==> exists|places: Seq<int>| #[trigger]
            stands_in_order(lower(query), lower(candidate.path), places, 0),
        match_of(query, candidate) matches Some(found) ==> found.path == candidate.path
            && found.directory == candidate.directory && exists|places: Seq<int>|
            #[trigger] stands_in_order(lower(query), lower(candidate.path), places, 0)
                && found.offsets.len() == places.len() && forall|i: int|
                0 <= i < places.len() ==> #[trigger] found.offsets[i] == byte_len(
                    lower(candidate.path).take(places[i]),
                ),
{
    let (wanted, text) = (lower(query), lower(candidate.path));
    lemma_walk_finds(wanted, text, 0, None);
    if exists|places: Seq<int>| #[trigger] stands_in_order(wanted, text, places, 0) {
        let places = choose|places: Seq<int>| #[trigger] stands_in_order(wanted, text, places, 0);
        lemma_walk_misses_nothing(wanted, text, 0, None, places);
    }
    match walk(wanted, text, 0, None) {
        Some((points, offsets)) => {
            let places = choose|places: Seq<int>|
                #[trigger] stands_in_order(wanted, text, places, 0) && offsets.len()
                    == places.len() && forall|i: int|
                    0 <= i < places.len() ==> #[trigger] offsets[i] == byte_len(
                        text.take(places[i]),
                    );
            let found = match_of(query, candidate)->0;
            assert forall|i: int| 0 <= i < places.len() implies #[trigger] found.offsets[i]
                == byte_len(text.take(places[i])) by {
                lemma_byte_len_split(text, places[i]);
                assert(offsets[i] == byte_len(text.take(places[i])));
            }
        },
        None => {},
    }
}

proof fn lemma_walk_points(query: Seq<char>, text: Seq<char>, from: int, previous: Option<int>)
    ensures
        walk(query, text, from, previous) matches Some((points, offsets)) ==> query.len() <= points
            <= 4 * query.len() && (previous is None && query.len() > 0 ==> points < 4
            * query.len()),
    decreases query.len(),
{
    if query.len() > 0 {
        let k = from + find_char(text.skip(from), query[0]);
        lemma_walk_points(
            query.drop_first(),
            text,
            k + 1,
            Some(byte_len(text.take(k)) as int),
        );
    }
}

/// Among paths of one depth, one whose file name begins with the query is a stronger match
/// than one whose file name does not.
pub proof fn law_file_names_that_begin_with_the_query_are_stronger(
    query: Seq<char>,
    named: CandidateView,
    other: CandidateView,
)
    requires
        query.len() > 0,
        match_of(query, named) is Some,
        match_of(query, other) is Some,
        starts_with(file_name(lower(named.path)), lower(query)),
        !starts_with(file_name(lower(other.path)), lower(query)),
        count_of(lower(named.path), '/') == count_of(lower(other.path), '/'),
    ensures
        ({
            let strong = match_of(query, named)->0.score;
            let weak = match_of(query, other)->0.score;
            strong > weak || strong == weak == 0 || strong == weak == usize::MAX
        }),
{
    lemma_walk_points(lower(query), lower(named.path), 0, None);
    lemma_walk_points(lower(query), lower(other.path), 0, None);
}

/// The candidates that match are the matches, no more and no fewer.
proof fn lemma_matches(query: Seq<char>, candidates: Seq<CandidateView>)
    ensures
        forall|m: MatchView|
            #[trigger] matches_of(query, candidates).contains(m) <==> exists|i: int|
                0 <= i < candidates.len() && match_of(query, #[trigger] candidates[i]) == Some(m),
    decreases candidates.len(),
{
    let all = matches_of(query, candidates);
    if candidates.len() > 0 {
        let rest = candidates.drop_last();
        let before = matches_of(query, rest);
        lemma_matches(query, rest);
        assert forall|m: MatchView| #[trigger] all.contains(m) implies exists|i: int|
            0 <= i < candidates.len() && match_of(query, #[trigger] candidates[i]) == Some(m) by {
            let k = choose|k: int| 0 <= k < all.len() && all[k] == m;
            if k < before.len() {
                assert(before[k] == m);
                assert(before.contains(m));
                let i = choose|i: int|
                    0 <= i < rest.len() && match_of(query, #[trigger] rest[i]) == Some(m);
                assert(candidates[i] == rest[i]);
            } else {
                assert(candidates[candidates.len() - 1] == candidates.last());
            }
        }
        assert forall|m: MatchView|
            (exists|i: int|
                0 <= i < candidates.len() && match_of(query, #[trigger] candidates[i]) == Some(
                    m,
                )) implies #[trigger] all.contains(m) by {
            let i = choose|i: int|
                0 <= i < candidates.len() && match_of(query, #[trigger] candidates[i]) == Some(m);
            if i < rest.len() {
                assert(rest[i] == candidates[i]);
                assert(before.contains(m));
                let k = choose|k: int| 0 <= k < before.len() && before[k] == m;
                assert(all[k] == m);
            } else {
                assert(all.last() == m);
            }
        }
    }
}

/// The picker shows the strongest matches, strongest first: the scores do not increase from
/// row to row, every row is the match of a candidate, and a match that is not shown scores
/// no more than any that is. Rows of one score are in the order of their paths.
pub proof fn law_stronger_matches_come_first(query: Seq<char>, candidates: Seq<CandidateView>)
    ensures
        ({
            let shown = best_matches(query, candidates);
            let wanted = trim_start_char(trim(query), '@');
            &&& forall|i: int, j: int|
                0 <= i < j < shown.len() ==> (#[trigger] shown[i]).score >= (
                #[trigger] shown[j]).score && (shown[i].score == shown[j].score ==> !text_before(
                    lower(shown[j].path),
                    lower(shown[i].path),
                ))
            &&& forall|i: int|
                0 <= i < shown.len() ==> exists|c: int|
                    0 <= c < candidates.len() && match_of(wanted, #[trigger] candidates[c]) == Some(
                        #[trigger] shown[i],
                    )
            &&& wanted.len() >= 3 ==> forall|c: int, m: MatchView|
                0 <= c < candidates.len() && match_of(wanted, #[trigger] candidates[c]) == Some(m)
                    && !#[trigger] shown.contains(m) ==> shown.len() == MAX_PATH_RESULTS
                    && forall|i: int|
                    0 <= i < shown.len() ==> (#[trigger] shown[i]).score >= m.score
        }),
{
    let written = trim(query);
    let wanted = trim_start_char(written, '@');
    let shown = best_matches(query, candidates);
    let all = ranked::<PathMatch>(matches_of(wanted, candidates));
    law_best_matches_are_ranked(query, candidates);
    law_ranked_is_ordered::<PathMatch>(matches_of(wanted, candidates));
    law_ranked_keeps_items::<PathMatch>(matches_of(wanted, candidates));
    lemma_matches(wanted, candidates);
    lemma_trim_start_char_shortens(written, '@');
    broadcast use vstd::seq_lib::group_to_multiset_ensures;

    assert forall|m: MatchView| #[trigger] all.contains(m) <==> matches_of(
        wanted,
        candidates,
    ).contains(m) by {
        assert(all.to_multiset().count(m) == matches_of(wanted, candidates).to_multiset().count(m));
    }
    if wanted.len() >= 3 {
        assert forall|i: int| 0 <= i < shown.len() implies exists|c: int|
            0 <= c < candidates.len() && match_of(wanted, #[trigger] candidates[c]) == Some(
                #[trigger] shown[i],
            ) by {
            assert(all[i] == shown[i]);
            assert(all.contains(shown[i]));
        }
        assert forall|c: int, m: MatchView|
            0 <= c < candidates.len() && match_of(wanted, #[trigger] candidates[c]) == Some(m)
                && !#[trigger] shown.contains(m) implies shown.len() == MAX_PATH_RESULTS
            && forall|i: int| 0 <= i < shown.len() ==> (#[trigger] shown[i]).score >= m.score by {
            assert(matches_of(wanted, candidates).contains(m));
            assert(all.contains(m));
            let k = choose|k: int| 0 <= k < all.len() && all[k] == m;
            if k < shown.len() {
                assert(shown[k] == m);
            }
            assert forall|i: int| 0 <= i < shown.len() implies (#[trigger] shown[i]).score
                >= m.score by {
                assert(shown[i] == all[i]);
                assert(!PathMatch::ranks_before(all[k], all[i]));
            }
        }
    }
}

proof fn lemma_trim_start_char_shortens(s: Seq<char>, c: char)
    ensures
        trim_start_char(s, c).len() <= s.len(),
    decreases s.len(),
{
    if s.len() > 0 && s[0] == c {
        lemma_trim_start_char_shortens(s.drop_first(), c);
    }
}

/// The score and offsets of a lower-case query in a lower-case path.
fn fuzzy_score(query: &Vec<char>, path: &Vec<char>, path_bytes: usize) -> (found: Option<(usize, Vec<usize>)>)
    requires
        path_bytes == byte_len(path@),
    ensures
        match found {
            Some((score, offsets)) => fuzzy(query@, path@) matches Some((expected, places)) && score
                == expected && offsets@ == Seq::new(places.len(), |i: int| places[i] as usize),
            None => fuzzy(query@, path@) is None,
        },
{
    let mut cursor: usize = 0;
    let mut cursor_bytes: usize = 0;
    let mut previous: Option<usize> = None;
    let mut score: u128 = 0;
    let mut offsets: Vec<usize> = Vec::new();
    let mut i: usize = 0;
    let ghost goal = walk(query@, path@, 0, None);
    let ghost mut places: Seq<int> = Seq::empty();
    assert(query@.skip(0) =~= query@);
    assert(path@.take(0) =~= Seq::<char>::empty());
    assert(goal == continued(0, places, walk(query@.skip(0), path@, 0, None))) by {
        match goal {
            Some((points, rest)) => {
                assert(places + rest =~= rest);
            },
            None => {},
        }
    }
    while i < query.len()
        invariant
            i <= query@.len(),
            cursor <= path@.len(),
            cursor_bytes == byte_len(path@.take(cursor as int)),
            path_bytes == byte_len(path@),
            score <= 4 * i,
            goal == walk(query@, path@, 0, None),
            goal == continued(
                score as int,
                places,
                walk(
                    query@.skip(i as int),
                    path@,
                    cursor as int,
                    match previous {
                        Some(p) => Some(p as int),
                        None => None,
                    },
                ),
            ),
            places.len() == offsets@.len(),
            forall|j: int| 0 <= j < places.len() ==> places[j] == #[trigger] offsets@[j],
        decreases query@.len() - i,
    {
        let c: char = query[i];
        let ghost rest = query@.skip(i as int);
        let ghost before = match previous {
            Some(p) => Some(p as int),
            None => None,
        };
        assert(rest[0] == c);
        assert(rest.drop_first() =~= query@.skip(i + 1));
        let k: usize = position_of(path, c, cursor);
        if k >= path.len() {
            return None;
        }
        let mut offset: usize = cursor_bytes;
        let mut j: usize = cursor;
        while j < k
            invariant
                cursor <= j <= k < path@.len(),
                offset == byte_len(path@.take(j as int)),
                path_bytes == byte_len(path@),
            decreases k - j,
        {
            proof {
                assert(path@.take(j + 1).drop_last() =~= path@.take(j as int));
                lemma_byte_len_split(path@, j + 1);
            }
            offset = offset + width_in_bytes(path[j]);
            j = j + 1;
        }
        proof {
            assert(path@.take(k + 1).drop_last() =~= path@.take(k as int));
            lemma_byte_len_split(path@, k + 1);
        }
        let adjacent: bool = match previous {
            Some(p) => p == (if offset > 0 {
                offset - 1
            } else {
                0
            }),
            None => false,
        };
        let points: u128 = if adjacent {
            4
        } else if k == 0 || path[k - 1] == '/' {
            3
        } else {
            1
        };
        proof {
            let tail = walk(query@.skip(i + 1), path@, k + 1, Some(offset as int));
            lemma_continue(score as int, places, points as int, offset as int, tail);
            places = places.push(offset as int);
        }
        score = score + points;
        offsets.push(offset);
        previous = Some(offset);
        cursor = k + 1;
        cursor_bytes = offset + width_in_bytes(path[k]);
        i = i + 1;
    }
    proof {
        assert(query@.skip(i as int).len() == 0);
        assert(places + Seq::<int>::empty() =~= places);
        assert(goal == Some((score as int, places)));
    }
    proof {
        reveal_strlit("/");
        assert("/"@ =~= seq!['/']);
    }
    let name_start: usize = match last_index_of(path, &to_chars("/")) {
        Some(k) => k + 1,
        None => 0,
    };
    let name = slice(path, name_start, path.len());
    assert(name@ =~= file_name(path@));
    if stands_at(&name, query, 0) {
        score = score + 4 * (query.len() as u128);
    }
    let slashes: u128 = occurrences(path, '/') as u128;
    let net: u128 = if score > slashes {
        score - slashes
    } else {
        0
    };
    let total: usize = if net > usize::MAX as u128 {
        usize::MAX
    } else {
        net as usize
    };
    assert(offsets@ =~= Seq::new(places.len(), |i: int| places[i] as usize));
    Some((total, offsets))
}

/// A walk that began with some points and places.
spec fn continued(points: int, places: Seq<int>, rest: Option<(int, Seq<int>)>) -> Option<
    (int, Seq<int>),
> {
    match rest {
        Some((more, others)) => Some((points + more, places + others)),
        None => None,
    }
}

proof fn lemma_continue(
    points: int,
    places: Seq<int>,
    step: int,
    offset: int,
    rest: Option<(int, Seq<int>)>,
)
    ensures
        continued(
            points,
            places,
            match rest {
                Some((more, others)) => Some((step + more, seq![offset] + others)),
                None => None,
            },
        ) == continued(points + step, places.push(offset), rest),
{
    if let Some((more, others)) = rest {
        assert(places + (seq![offset] + others) =~= places.push(offset) + others);
    }
}

pub fn rank_matches(query: &str, candidates: &Vec<PathCandidate>) -> (matches: Vec<PathMatch>)
    ensures
        item_contents(matches@) == best_matches(query@, item_contents(candidates@)),
{
    let written = trimmed(&to_chars(query));
    let mut best: Vec<PathMatch> = Vec::new();
    if written.len() < MIN_PATH_QUERY_CHARS {
        assert(item_contents(best@) =~= Seq::<MatchView>::empty());
        return best;
    }
    let wanted = trimmed_start_char(&written, '@');
    if wanted.len() < MIN_PATH_QUERY_CHARS {
        assert(item_contents(best@) =~= Seq::<MatchView>::empty());
        return best;
    }
    let low = to_lower_chars(&wanted);
    let ghost all = item_contents(candidates@);
    let ghost limit = MAX_PATH_RESULTS as int;
    let mut i: usize = 0;
    assert(all.take(0).len() == 0);
    assert(item_contents(best@) =~= Seq::<MatchView>::empty());
    while i < candidates.len()
        invariant
            i <= candidates@.len(),
            all == item_contents(candidates@),
            low@ == lower(wanted@),
            limit == MAX_PATH_RESULTS,
            item_contents(best@) == at_most(
                ranked::<PathMatch>(matches_of(wanted@, all.take(i as int))),
                limit,
            ),
        decreases candidates@.len() - i,
    {
        let ghost next = all.take(i + 1);
        let ghost found = matches_of(wanted@, all.take(i as int));
        proof {
            assert(next.drop_last() =~= all.take(i as int));
            assert(next.last() == candidates@[i as int]@);
            law_ranked_is_ordered::<PathMatch>(found);
        }
        let path = to_lower(candidates[i].path.as_str());
        let bytes: usize = byte_length(path.as_str());
        if let Some((score, offsets)) = fuzzy_score(&low, &to_chars(path.as_str()), bytes) {
            let one = PathMatch {
                path: candidates[i].path.clone(),
                directory: candidates[i].directory,
                score,
                offsets,
            };
            proof {
                let list = ranked::<PathMatch>(found);
                assert(match_of(wanted@, next.last()) == Some(one@));
                assert(found.push(one@).drop_last() =~= found);
                assert(ranked::<PathMatch>(found.push(one@)) == with_ranked::<PathMatch>(
                    list,
                    one@,
                ));
                lemma_best::<PathMatch>(list, one@, limit);
            }
            insert_ranked(&mut best, one);
            if best.len() > MAX_PATH_RESULTS {
                let ghost longer = item_contents(best@);
                best.truncate(MAX_PATH_RESULTS);
                assert(item_contents(best@) =~= longer.take(limit));
            }
        }
        i = i + 1;
    }
    assert(all.take(i as int) =~= all);
    best
}

// Picker values.

/// Whether a path holds white space.
pub open spec fn has_space(path: Seq<char>) -> bool {
    exists|i: int| 0 <= i < path.len() && is_space(#[trigger] path[i])
}

/// A selected path as it is inserted into a prompt: directories keep a trailing
/// slash so that typing can go on inside them; a file is quoted where its path
/// holds white space, and followed by a space.
pub open spec fn inserted(path: Seq<char>, directory: bool) -> Seq<char> {
    if directory {
        "@"@ + trim_end_char(path, '/') + "/"@
    } else if has_space(path) {
        "@\""@ + path + "\" "@
    } else {
        "@"@ + path + " "@
    }
}

pub fn insertion_text(path: &str, directory: bool) -> (text: String)
    ensures
        text@ == inserted(path@, directory),
{
    let chars = to_chars(path);
    if directory {
        let mut out = to_chars("@");
        append_chars(&mut out, &trimmed_end_char(&chars, '/'));
        append_text(&mut out, "/");
        return to_text(&out);
    }
    let mut quoted: bool = false;
    let mut i: usize = 0;
    while i < chars.len()
        invariant
            i <= chars@.len(),
            quoted == (exists|j: int| 0 <= j < i && is_space(#[trigger] chars@[j])),
        decreases chars@.len() - i,
    {
        if space(chars[i]) {
            quoted = true;
            assert(is_space(chars@[i as int]));
        }
        i = i + 1;
    }
    if quoted {
        let mut out = to_chars("@\"");
        append_chars(&mut out, &chars);
        append_text(&mut out, "\" ");
        to_text(&out)
    } else {
        let mut out = to_chars("@");
        append_chars(&mut out, &chars);
        append_text(&mut out, " ");
        to_text(&out)
    }
}

/// The candidates' paths behind `@`, each once, in the order of their first
/// occurrence.
pub open spec fn distinct_values(candidates: Seq<CandidateView>) -> Seq<Seq<char>>
    decreases candidates.len(),
{
    if candidates.len() == 0 {
        Seq::empty()
    } else {
        let above = distinct_values(candidates.drop_last());
        let value = "@"@ + candidates.last().path;
        if above.contains(value) {
            above
        } else {
            above.push(value)
        }
    }
}

/// No completion value is offered twice, and none is lost.
pub proof fn law_completion_values_are_distinct(candidates: Seq<CandidateView>)
    ensures
        distinct_values(candidates).no_duplicates(),
        forall|i: int|
            0 <= i < candidates.len() ==> distinct_values(candidates).contains(
                "@"@ + (#[trigger] candidates[i]).path,
            ),
    decreases candidates.len(),
{
    if candidates.len() > 0 {
        let rest = candidates.drop_last();
        law_completion_values_are_distinct(rest);
        let above = distinct_values(rest);
        let value = "@"@ + candidates.last().path;
        let all = distinct_values(candidates);
        if !above.contains(value) {
            assert(all == above.push(value));
            assert(all[above.len() as int] == value);
        }
        assert forall|i: int| 0 <= i < candidates.len() implies all.contains(
            "@"@ + (#[trigger] candidates[i]).path,
        ) by {
            if i < rest.len() {
                assert(rest[i] == candidates[i]);
                let one = "@"@ + rest[i].path;
                assert(above.contains(one));
                let k = choose|k: int| 0 <= k < above.len() && above[k] == one;
                assert(all[k] == one);
            }
        }
    }
}

pub fn completion_values(candidates: &Vec<PathCandidate>) -> (values: Vec<String>)
    ensures
        strings(values@) == distinct_values(item_contents(candidates@)),
{
    broadcast use lemma_strings_push;

    let ghost all = item_contents(candidates@);
    let mut values: Vec<String> = Vec::new();
    let mut i: usize = 0;
    assert(strings(values@) =~= distinct_values(all.take(0)));
    while i < candidates.len()
        invariant
            i <= candidates@.len(),
            all == item_contents(candidates@),
            strings(values@) == distinct_values(all.take(i as int)),
        decreases candidates@.len() - i,
    {
        assert(all.take(i + 1).drop_last() =~= all.take(i as int));
        assert(all.take(i + 1).last() == candidates@[i as int]@);
        let mut value = String::from_str("@");
        value.append(candidates[i].path.as_str());
        let mut known: bool = false;
        let mut j: usize = 0;
        while j < values.len()
            invariant
                j <= values@.len(),
                known == (exists|k: int| 0 <= k < j && #[trigger] strings(values@)[k] == value@),
            decreases values@.len() - j,
        {
            assert(strings(values@)[j as int] == values@[j as int]@);
            if values[j] == value {
                known = true;
            }
            j = j + 1;
        }
        assert(known == strings(values@).contains(value@));
        if !known {
            values.push(value);
        }
        i = i + 1;
    }
    assert(all.take(i as int) =~= all);
    values
}

// The index and its worker.

#[derive(Clone, Debug, Eq, PartialEq)]
pub enum PathIndexUpdate {
    /// The scan has completed. A subsequent query is safe and cheap.
    Ready { generation: u64, total: usize },
    /// A query result. `generation` prevents a result from an old workspace
    /// from replacing a newer one after a project switch.
    Matches { generation: u64, query: String, matches: Vec<PathMatch> },
}

/// What an update holds.
pub enum UpdateView {
    Ready { generation: u64, total: int },
    Matches { generation: u64, query: Seq<char>, matches: Seq<MatchView> },
}

impl View for PathIndexUpdate {
    type V = UpdateView;

    open spec fn view(&self) -> UpdateView {
        match self {
            PathIndexUpdate::Ready { generation, total } => UpdateView::Ready {
                generation: *generation,
                total: *total as int,
            },
            PathIndexUpdate::Matches { generation, query, matches } => UpdateView::Matches {
                generation: *generation,
                query: query@,
                matches: item_contents(matches@),
            },
        }
    }
}

/// What the index asks of its worker.
#[derive(Clone, Debug, Eq, PartialEq)]
pub enum IndexRequest {
    Query { generation: u64, query: String },
    /// Scan the workspace that the index now belongs to.
    Rescan { generation: u64 },
}

/// What a request holds.
pub enum RequestView {
    Query { generation: u64, query: Seq<char> },
    Rescan { generation: u64 },
}

impl View for IndexRequest {
    type V = RequestView;

    open spec fn view(&self) -> RequestView {
        match self {
            IndexRequest::Query { generation, query } => RequestView::Query {
                generation: *generation,
                query: query@,
            },
            IndexRequest::Rescan { generation } => RequestView::Rescan { generation: *generation },
        }
    }
}

/// The side of a background path index that a terminal loop holds: which workspace
/// it is for, counted, and the query asked last.
#[derive(Debug)]
pub struct PathIndex {
    generation: u64,
    query: String,
}

/// The state of an index.
pub struct IndexView {
    pub generation: u64,
    pub query: Seq<char>,
}

/// The number behind a generation; the last one is followed by zero.
pub open spec fn next_generation(generation: u64) -> u64 {
    if generation == u64::MAX {
        0
    } else {
        (generation + 1) as u64
    }
}

impl View for PathIndex {
    type V = IndexView;

    closed spec fn view(&self) -> IndexView {
        IndexView { generation: self.generation, query: self.query@ }
    }
}

impl PathIndex {
    /// An index for a first workspace.
    pub fn new() -> (index: Self)
        ensures
            index@ == (IndexView { generation: 0, query: Seq::empty() }),
    {
        PathIndex { generation: 0, query: String::new() }
    }

    /// Moves to another workspace. Existing results remain usable until the new
    /// scan finishes; a query is asked again, for the new generation, so that a
    /// project switch cannot leave results from the old root.
    pub fn rescan(&mut self) -> (requests: Vec<IndexRequest>)
        ensures
            final(self)@ == (IndexView {
                generation: next_generation(old(self)@.generation),
                query: old(self)@.query,
            }),
            item_contents(requests@) == (if old(self)@.query.len() == 0 {
                seq![RequestView::Rescan { generation: final(self)@.generation }]
            } else {
                seq![
                    RequestView::Rescan { generation: final(self)@.generation },
                    RequestView::Query {
                        generation: final(self)@.generation,
                        query: old(self)@.query,
                    },
                ]
            }),
    {
        self.generation = if self.generation == u64::MAX {
            0
        } else {
            self.generation + 1
        };
        let mut requests: Vec<IndexRequest> = Vec::new();
        requests.push(IndexRequest::Rescan { generation: self.generation });
        if !self.query.as_str().is_empty() {
            requests.push(
                IndexRequest::Query { generation: self.generation, query: self.query.clone() },
            );
        }
        assert(item_contents(requests@) =~= if self@.query.len() == 0 {
            seq![RequestView::Rescan { generation: self@.generation }]
        } else {
            seq![
                RequestView::Rescan { generation: self@.generation },
                RequestView::Query { generation: self@.generation, query: self@.query },
            ]
        });
        requests
    }

    /// Asks for a fuzzy result set. A query that was just asked is not asked
    /// again, which keeps fast key repeats bounded.
    pub fn query(&mut self, query: &str) -> (request: Option<IndexRequest>)
        ensures
            final(self)@ == (IndexView { query: query@, ..old(self)@ }),
            match request {
                Some(asked) => query@ != old(self)@.query && asked@ == (RequestView::Query {
                    generation: old(self)@.generation,
                    query: query@,
                }),
                None => query@ == old(self)@.query,
            },
    {
        if same(query, self.query.as_str()) {
            return None;
        }
        self.query = query.to_owned();
        Some(IndexRequest::Query { generation: self.generation, query: query.to_owned() })
    }

    pub fn current_query(&self) -> (query: &str)
        ensures
            query@ == self@.query,
    {
        self.query.as_str()
    }

    pub fn generation(&self) -> (generation: u64)
        ensures
            generation == self@.generation,
    {
        self.generation
    }
}

impl Default for PathIndex {
    fn default() -> (index: Self)
        ensures
            index@ == (IndexView { generation: 0, query: Seq::empty() }),
    {
        PathIndex::new()
    }
}

/// The side of a path index that answers: the entries of a workspace, and a query
/// that waits for the workspace it belongs to.
#[derive(Debug)]
pub struct IndexWorker {
    generation: u64,
    candidates: Vec<PathCandidate>,
    pending_query: Option<String>,
}

/// The state of a worker.
pub struct WorkerView {
    pub generation: u64,
    pub candidates: Seq<CandidateView>,
    pub pending_query: Option<Seq<char>>,
}

/// The answer of a worker to a query.
pub open spec fn answer(worker: WorkerView, query: Seq<char>) -> UpdateView {
    UpdateView::Matches {
        generation: worker.generation,
        query,
        matches: best_matches(query, worker.candidates),
    }
}

impl View for IndexWorker {
    type V = WorkerView;

    closed spec fn view(&self) -> WorkerView {
        WorkerView {
            generation: self.generation,
            candidates: item_contents(self.candidates@),
            pending_query: optional(self.pending_query),
        }
    }
}

impl IndexWorker {
    /// A worker that has scanned its first workspace.
    pub fn new(candidates: Vec<PathCandidate>) -> (worker: Self)
        ensures
            worker@ == (WorkerView {
                generation: 0,
                candidates: item_contents(candidates@),
                pending_query: None,
            }),
    {
        IndexWorker { generation: 0, candidates, pending_query: None }
    }

    /// The announcement that a scan is done.
    pub fn ready(&self) -> (update: PathIndexUpdate)
        ensures
            update@ == (UpdateView::Ready {
                generation: self@.generation,
                total: self@.candidates.len() as int,
            }),
    {
        PathIndexUpdate::Ready { generation: self.generation, total: self.candidates.len() }
    }

    fn answer_to(&self, query: String) -> (update: PathIndexUpdate)
        ensures
            update@ == answer(self@, query@),
    {
        let matches = rank_matches(query.as_str(), &self.candidates);
        PathIndexUpdate::Matches { generation: self.generation, query, matches }
    }

    /// Takes the entries of another workspace, announces them, and answers a query
    /// that waited for them.
    pub fn rescanned(&mut self, generation: u64, candidates: Vec<PathCandidate>) -> (updates: Vec<
        PathIndexUpdate,
    >)
        ensures
            final(self)@ == (WorkerView {
                generation,
                candidates: item_contents(candidates@),
                pending_query: None,
            }),
            item_contents(updates@) == (match old(self)@.pending_query {
                Some(query) => seq![
                    UpdateView::Ready { generation, total: candidates@.len() as int },
                    answer(final(self)@, query),
                ],
                None => seq![UpdateView::Ready { generation, total: candidates@.len() as int }],
            }),
    {
        let ghost before = self@;
        self.generation = generation;
        self.candidates = candidates;
        let waiting = self.pending_query.take();
        let mut updates: Vec<PathIndexUpdate> = Vec::new();
        updates.push(self.ready());
        if let Some(query) = waiting {
            updates.push(self.answer_to(query));
        }
        assert(item_contents(updates@) =~= match before.pending_query {
            Some(query) => seq![
                UpdateView::Ready { generation, total: self@.candidates.len() as int },
                answer(self@, query),
            ],
            None => seq![UpdateView::Ready { generation, total: self@.candidates.len() as int }],
        });
        updates
    }

    /// Answers a query for the present workspace; one for another workspace waits,
    /// in place of one that waited before.
    pub fn query(&mut self, generation: u64, query: String) -> (update: Option<PathIndexUpdate>)
        ensures
            match update {
                Some(answered) => generation == old(self)@.generation && answered@ == answer(
                    old(self)@,
                    query@,
                ) && final(self)@ == old(self)@,
                None => generation != old(self)@.generation && final(self)@ == (WorkerView {
                    pending_query: Some(query@),
                    ..old(self)@
                }),
            },
    {
        if generation != self.generation {
            self.pending_query = Some(query);
            return None;
        }
        Some(self.answer_to(query))
    }
}

/// Every candidate that matches is among the matches, with its own path, and none that does
/// not; the matches of two lists in a row are those of the first and then those of the second.
pub proof fn law_every_match_is_listed(
    query: Seq<char>,
    candidates: Seq<CandidateView>,
    candidate: CandidateView,
)
    ensures
        match_of(query, candidate) is Some ==> matches_of(query, candidates.push(candidate))
            == matches_of(query, candidates).push(match_of(query, candidate)->0),
        match_of(query, candidate) is None ==> matches_of(query, candidates.push(candidate))
            == matches_of(query, candidates),
        match_of(query, candidate) matches Some(found) ==> found.path == candidate.path
            && found.directory == candidate.directory,
{
    assert(candidates.push(candidate).drop_last() =~= candidates);
}

/// Whether a text is of one byte for each character, and of one component.
pub open spec fn is_plain_name(text: Seq<char>) -> bool {
    forall|i: int| 0 <= i < text.len() ==> (#[trigger] text[i] as u32) < 128 && text[i] != '/'
}

proof fn lemma_plain_bytes(text: Seq<char>, k: int)
    requires
        is_plain_name(text),
        0 <= k <= text.len(),
    ensures
        byte_len(text.take(k)) == k,
    decreases k,
{
    if k > 0 {
        lemma_plain_bytes(text, k - 1);
        assert(text.take(k).drop_last() =~= text.take(k - 1));
        assert(text.take(k).last() == text[k - 1]);
    }
}

proof fn lemma_run(text: Seq<char>, from: int, n: int)
    requires
        is_plain_name(text),
        0 < from,
        from + n <= text.len(),
        0 <= n,
    ensures
        walk(text.subrange(from, from + n), text, from, Some(from - 1)) matches Some((points, _))
            && points == 4 * n,
    decreases n,
{
    if n > 0 {
        let query = text.subrange(from, from + n);
        assert(text.skip(from)[0] == text[from]);
        lemma_plain_bytes(text, from);
        lemma_run(text, from + 1, n - 1);
        assert(query.drop_first() =~= text.subrange(from + 1, from + 1 + n - 1));
    }
}

/// A query whose characters stand together is the stronger for it: one that a plain name
/// begins with has three points for its first character and four for each other one.
pub proof fn law_runs_of_characters_are_stronger(text: Seq<char>, n: int)
    requires
        is_plain_name(text),
        0 < n <= text.len(),
    ensures
        walk(text.take(n), text, 0, None) matches Some((points, _)) && points == 3 + 4 * (n - 1),
{
    let query = text.take(n);
    assert(text.skip(0)[0] == text[0]);
    lemma_plain_bytes(text, 0);
    lemma_run(text, 1, n - 1);
    assert(query.drop_first() =~= text.subrange(1, n));
}

} // verus!
