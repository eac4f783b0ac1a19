//! What holds of every walk of a workspace: what the rules leave out, what they take back, and
//! that everything else is listed.

use crate::path_index::{
    child_path, glob, ignored_by, lower_byte, rule_matches, rule_on, rules_on, trim_end_char,
    with_entry, with_slashes, CandidateView, RuleView, ScanView, MAX_INDEX_DEPTH, MAX_INDEX_ENTRIES,
};
use crate::text::{contains, is_space, split, trim, trim_start_char};
use vstd::prelude::*;
use vstd::utf8::encode_utf8;

verus! {

// Rules.

/// Whether a rule speaks of a path.
pub open spec fn speaks_of(rule: RuleView, path: Seq<char>, directory: bool) -> bool {
    (directory || !rule.directory_only) && rule_matches(rule, path)
}

/// The last rule that speaks of a path decides: it is left out where that rule leaves out,
/// taken back where that rule takes back, and kept where no rule speaks of it.
pub proof fn law_the_last_rule_that_speaks_decides(
    path: Seq<char>,
    directory: bool,
    rules: Seq<RuleView>,
    k: int,
)
    requires
        -1 <= k < rules.len(),
        k >= 0 ==> speaks_of(rules[k], path, directory),
        forall|i: int| k < i < rules.len() ==> !speaks_of(#[trigger] rules[i], path, directory),
    ensures
        ignored_by(path, directory, rules) == (k >= 0 && !rules[k].negated),
    decreases rules.len(),
{
    if rules.len() > 0 {
        let rest = rules.drop_last();
        if k < rules.len() - 1 {
            assert(!speaks_of(rules[rules.len() - 1], path, directory));
            assert forall|i: int| k < i < rest.len() implies !speaks_of(
                #[trigger] rest[i],
                path,
                directory,
            ) by {
                assert(rest[i] == rules[i]);
            }
            law_the_last_rule_that_speaks_decides(path, directory, rest, k);
        }
    }
}

/// Whether a text is the plain pattern of a rule: it neither begins nor ends with anything
/// that means more than itself.
pub open spec fn plain_pattern(pattern: Seq<char>) -> bool {
    &&& pattern.len() > 0
    &&& !is_space(pattern[0])
    &&& !is_space(pattern.last())
    &&& pattern[0] != '#'
    &&& pattern[0] != '!'
    &&& pattern[0] != '/'
    &&& pattern.last() != '/'
}

proof fn lemma_untrimmed(s: Seq<char>)
    requires
        s.len() > 0,
        !is_space(s[0]),
        !is_space(s.last()),
    ensures
        trim(s) == s,
{
}

/// A line is read as the pattern on it. A mark of exclamation in front takes back, a slash
/// behind means directories alone, and a slash in front ties the pattern to the root.
/// Comments and blank lines are no rules.
pub proof fn law_rules_are_read_as_written(pattern: Seq<char>)
    requires
        plain_pattern(pattern),
    ensures
        rule_on(pattern) == Some(
            RuleView { pattern, negated: false, directory_only: false, anchored: false },
        ),
        rule_on(seq!['!'] + pattern) == Some(
            RuleView { pattern, negated: true, directory_only: false, anchored: false },
        ),
        rule_on(pattern.push('/')) == Some(
            RuleView { pattern, negated: false, directory_only: true, anchored: false },
        ),
        rule_on(seq!['/'] + pattern) == Some(
            RuleView { pattern, negated: false, directory_only: false, anchored: true },
        ),
        rule_on(seq!['#'] + pattern) is None,
        rule_on(Seq::empty()) is None,
{
    let taken_back = seq!['!'] + pattern;
    let below = pattern.push('/');
    let rooted = seq!['/'] + pattern;
    let comment = seq!['#'] + pattern;
    lemma_untrimmed(pattern);
    lemma_untrimmed(taken_back);
    lemma_untrimmed(below);
    lemma_untrimmed(rooted);
    lemma_untrimmed(comment);
    assert(taken_back.skip(1) =~= pattern);
    assert(below.drop_last() =~= pattern);
    assert(rooted.drop_first() =~= pattern);
    assert(trim_end_char(pattern, '/') == pattern);
    assert(trim_end_char(below, '/') == trim_end_char(pattern, '/'));
    assert(trim_end_char(rooted, '/') == rooted);
    assert(trim_start_char(pattern, '/') == pattern);
    assert(trim_start_char(rooted, '/') == trim_start_char(pattern, '/'));
    assert(trim(Seq::<char>::empty()) =~= Seq::<char>::empty());
}

/// The rules of two files in a row are those of the first and then those of the second.
pub proof fn law_rules_keep_their_order(first: Seq<Seq<char>>, second: Seq<Seq<char>>)
    ensures
        rules_on(first + second) == rules_on(first) + rules_on(second),
    decreases second.len(),
{
    if second.len() == 0 {
        assert(first + second =~= first);
        assert(rules_on(first) + rules_on(second) =~= rules_on(first));
    } else {
        let all = first + second;
        assert(all.drop_last() =~= first + second.drop_last());
        law_rules_keep_their_order(first, second.drop_last());
        assert(rules_on(all) =~= rules_on(first) + rules_on(second));
    }
}

// Patterns.

/// Whether a pattern has no byte that stands for others.
pub open spec fn is_literal(pattern: Seq<u8>) -> bool {
    forall|i: int| 0 <= i < pattern.len() ==> #[trigger] pattern[i] != 42 && pattern[i] != 63
}

/// A literal pattern matches its own text and no other, without regard to ASCII case.
pub proof fn law_literal_patterns_match_themselves(pattern: Seq<u8>, text: Seq<u8>)
    requires
        is_literal(pattern),
    ensures
        glob(pattern, text) <==> pattern.len() == text.len() && forall|i: int|
            0 <= i < pattern.len() ==> lower_byte(#[trigger] pattern[i]) == lower_byte(text[i]),
    decreases pattern.len(),
{
    if pattern.len() > 0 {
        assert(pattern[pattern.len() - 1] != 42 && pattern[pattern.len() - 1] != 63);
        if text.len() > 0 {
            let (p, t) = (pattern.drop_last(), text.drop_last());
            assert(is_literal(p)) by {
                assert forall|i: int| 0 <= i < p.len() implies #[trigger] p[i] != 42 && p[i] != 63 by {
                    assert(p[i] == pattern[i]);
                }
            }
            law_literal_patterns_match_themselves(p, t);
            if glob(pattern, text) {
                assert forall|i: int| 0 <= i < pattern.len() implies lower_byte(
                    #[trigger] pattern[i],
                ) == lower_byte(text[i]) by {
                    if i < p.len() {
                        assert(lower_byte(p[i]) == lower_byte(t[i]));
                    }
                }
            }
            if pattern.len() == text.len() && forall|i: int|
                0 <= i < pattern.len() ==> lower_byte(#[trigger] pattern[i]) == lower_byte(text[i]) {
                assert forall|i: int| 0 <= i < p.len() implies lower_byte(#[trigger] p[i])
                    == lower_byte(t[i]) by {
                    assert(lower_byte(pattern[i]) == lower_byte(text[i]));
                }
                assert(lower_byte(pattern[pattern.len() - 1]) == lower_byte(
                    text[pattern.len() - 1],
                ));
            }
        }
    }
}

/// A star matches any bytes, and a mark of interrogation exactly one.
pub proof fn law_stars_match_anything(text: Seq<u8>)
    ensures
        glob(seq![42u8], text),
        glob(seq![63u8], text) <==> text.len() == 1,
    decreases text.len(),
{
    reveal_with_fuel(glob, 3);
    let star = seq![42u8];
    let one = seq![63u8];
    assert(star.last() == 42 && one.last() == 63);
    assert(star.drop_last() =~= Seq::<u8>::empty());
    assert(one.drop_last() =~= Seq::<u8>::empty());
    if text.len() > 0 {
        law_stars_match_anything(text.drop_last());
    }
}

/// Patterns match part by part: where two patterns match two texts, the one behind the other
/// matches the texts one behind the other.
pub proof fn law_patterns_match_part_by_part(
    first: Seq<u8>,
    second: Seq<u8>,
    left: Seq<u8>,
    right: Seq<u8>,
)
    requires
        glob(first, left),
        glob(second, right),
    ensures
        glob(first + second, left + right),
    decreases second.len(), right.len(),
{
    let (pattern, text) = (first + second, left + right);
    if second.len() == 0 {
        assert(pattern =~= first);
        assert(text =~= left);
    } else {
        assert(pattern.drop_last() =~= first + second.drop_last());
        assert(pattern.last() == second.last());
        if second.last() == 42 {
            if glob(second.drop_last(), right) {
                law_patterns_match_part_by_part(first, second.drop_last(), left, right);
            } else {
                law_patterns_match_part_by_part(first, second, left, right.drop_last());
                assert(text.drop_last() =~= left + right.drop_last());
            }
        } else {
            assert(text.drop_last() =~= left + right.drop_last());
            assert(text.last() == right.last());
            law_patterns_match_part_by_part(
                first,
                second.drop_last(),
                left,
                right.drop_last(),
            );
        }
    }
}

// The walk.

/// An entry that no rule leaves out is listed under its path, and a directory is also read,
/// down to the depth that there is. Links, generated directories and what the rules leave
/// out are neither listed nor read, and the walk is over at its cap.
pub proof fn law_entries_that_are_not_left_out_are_listed(
    scan: ScanView,
    directory: Seq<char>,
    depth: usize,
    name: Seq<char>,
    symlink: bool,
    is_directory: bool,
)
    requires
        depth <= MAX_INDEX_DEPTH,
    ensures
        ({
            let after = with_entry(scan, directory, depth, name, symlink, is_directory);
            let path = with_slashes(child_path(directory, name));
            let left_out = symlink || name == ".git"@ || name == "node_modules"@ || name
                == "target"@ || ignored_by(path, is_directory, scan.rules);
            &&& after.rules == scan.rules
            &&& scan.candidates.len() >= MAX_INDEX_ENTRIES ==> after.full && after.candidates
                == scan.candidates && after.pending == scan.pending
            &&& scan.candidates.len() < MAX_INDEX_ENTRIES && left_out ==> after == scan
            &&& scan.candidates.len() < MAX_INDEX_ENTRIES && !left_out ==> {
                &&& after.candidates.len() == scan.candidates.len() + 1
                &&& after.candidates.drop_last() == scan.candidates
                &&& after.candidates.last() == (CandidateView { path, directory: is_directory })
                &&& is_directory && depth < MAX_INDEX_DEPTH ==> after.pending.len()
                    == scan.pending.len() + 1 && after.pending.last().0 == child_path(
                    directory,
                    name,
                ) && after.pending.last().1 == depth + 1
                &&& !is_directory || depth == MAX_INDEX_DEPTH ==> after.pending == scan.pending
            }
        }),
{
    let after = with_entry(scan, directory, depth, name, symlink, is_directory);
    if after.candidates.len() == scan.candidates.len() + 1 {
        assert(after.candidates.drop_last() =~= scan.candidates);
    }
}

/// A path below a directory ends in the name of the entry and begins with the directory, and
/// it is written with slashes on every system.
pub proof fn law_paths_lead_to_their_entry(directory: Seq<char>, name: Seq<char>)
    ensures
        child_path(Seq::empty(), name) == name,
        directory.len() > 0 ==> child_path(directory, name) == directory + seq!['/'] + name,
        !with_slashes(child_path(directory, name)).contains('\\'),
        with_slashes(child_path(directory, name)).len() == child_path(directory, name).len(),
{
    assert(directory.push('/') + name =~= directory + seq!['/'] + name);
    let path = with_slashes(child_path(directory, name));
    assert forall|i: int| 0 <= i < path.len() implies path[i] != '\\' by {}
}

/// A rule that is a plain name speaks of a path as soon as one of its parts has that name; a
/// rule that is tied to the root only of the whole path.
pub proof fn law_plain_names_speak_of_every_part(rule: RuleView, path: Seq<char>, i: int)
    ensures
        !rule.anchored && !contains(rule.pattern, seq!['/']) ==> (0 <= i < split(path, '/').len()
            && glob(encode_utf8(rule.pattern), encode_utf8(split(path, '/')[i])) ==> rule_matches(
            rule,
            path,
        )),
        rule.anchored ==> (rule_matches(rule, path) <==> glob(
            encode_utf8(rule.pattern),
            encode_utf8(path),
        )),
{
}

} // verus!
