//! Text as sequences of characters: the string vocabulary that the rest of the
//! library states its contracts in, and the functions that compute it.

use vstd::prelude::*;

verus! {

/// `String::push` of std appends one character at the end of the string.
pub assume_specification[ String::push ](string: &mut String, character: char)
    ensures
        final(string)@ == old(string)@.push(character),
;

/// The contents of a list of character vectors.
pub open spec fn contents(parts: Seq<Vec<char>>) -> Seq<Seq<char>> {
    Seq::new(parts.len(), |i: int| parts[i]@)
}

/// The contents of a list of strings.
pub open spec fn strings(parts: Seq<String>) -> Seq<Seq<char>> {
    Seq::new(parts.len(), |i: int| parts[i]@)
}

/// The contents of an optional string.
pub open spec fn optional(value: Option<String>) -> Option<Seq<char>> {
    match value {
        Some(text) => Some(text@),
        None => None,
    }
}

pub broadcast proof fn lemma_contents_push(parts: Seq<Vec<char>>, part: Vec<char>)
    ensures
        #[trigger] contents(parts.push(part)) == contents(parts).push(part@),
{
    assert(contents(parts.push(part)) =~= contents(parts).push(part@));
}

pub broadcast proof fn lemma_strings_push(parts: Seq<String>, part: String)
    ensures
        #[trigger] strings(parts.push(part)) == strings(parts).push(part@),
{
    assert(strings(parts.push(part)) =~= strings(parts).push(part@));
}

/// The characters of a string, in order.
pub fn to_chars(text: &str) -> (chars: Vec<char>)
    ensures
        chars@ == text@,
{
    let mut chars: Vec<char> = Vec::new();
    for c in iter: text.chars()
        invariant
            chars@ == text@.take(iter.index()),
            iter.seq() == text@,
    {
        chars.push(c);
    }
    chars
}

/// The string made of the characters from `from` up to, not including, `to`.
pub fn slice_to_string(chars: &Vec<char>, from: usize, to: usize) -> (text: String)
    requires
        from <= to <= chars@.len(),
    ensures
        text@ == chars@.subrange(from as int, to as int),
{
    let mut text = String::new();
    let mut i: usize = from;
    while i < to
        invariant
            from <= i <= to <= chars@.len(),
            text@ == chars@.subrange(from as int, i as int),
        decreases to - i,
    {
        text.push(chars[i]);
        i = i + 1;
        assert(text@ =~= chars@.subrange(from as int, i as int));
    }
    text
}

/// The string made of all the characters.
pub fn to_text(chars: &Vec<char>) -> (text: String)
    ensures
        text@ == chars@,
{
    let text = slice_to_string(chars, 0, chars.len());
    assert(chars@.subrange(0, chars@.len() as int) =~= chars@);
    text
}

/// The characters from `from` up to, not including, `to`.
pub fn slice(chars: &Vec<char>, from: usize, to: usize) -> (part: Vec<char>)
    requires
        from <= to <= chars@.len(),
    ensures
        part@ == chars@.subrange(from as int, to as int),
{
    let mut part: Vec<char> = Vec::new();
    let mut i: usize = from;
    while i < to
        invariant
            from <= i <= to <= chars@.len(),
            part@ == chars@.subrange(from as int, i as int),
        decreases to - i,
    {
        part.push(chars[i]);
        i = i + 1;
        assert(part@ =~= chars@.subrange(from as int, i as int));
    }
    part
}

/// Appends all of `more` to `chars`.
pub fn append_chars(chars: &mut Vec<char>, more: &Vec<char>)
    ensures
        final(chars)@ == old(chars)@ + more@,
{
    let ghost before = chars@;
    let mut i: usize = 0;
    assert(chars@ =~= before + more@.take(0));
    while i < more.len()
        invariant
            i <= more@.len(),
            chars@ == before + more@.take(i as int),
        decreases more@.len() - i,
    {
        chars.push(more[i]);
        i = i + 1;
        assert(chars@ =~= before + more@.take(i as int));
    }
    assert(more@.take(more@.len() as int) =~= more@);
}

/// Appends the characters of `more` to `chars`.
pub fn append_text(chars: &mut Vec<char>, more: &str)
    ensures
        final(chars)@ == old(chars)@ + more@,
{
    append_chars(chars, &to_chars(more));
}

/// Whether two strings hold the same characters.
pub fn same(left: &str, right: &str) -> (equal: bool)
    ensures
        equal == (left@ == right@),
{
    left.to_owned() == right.to_owned()
}

/// Whether two character vectors hold the same characters.
pub fn same_chars(left: &Vec<char>, right: &Vec<char>) -> (equal: bool)
    ensures
        equal == (left@ == right@),
{
    if left.len() != right.len() {
        return false;
    }
    let mut i: usize = 0;
    while i < left.len()
        invariant
            i <= left@.len(),
            left@.len() == right@.len(),
            forall|j: int| 0 <= j < i ==> left@[j] == right@[j],
        decreases left@.len() - i,
    {
        if left[i] != right[i] {
            return false;
        }
        i = i + 1;
    }
    assert(left@ =~= right@);
    true
}

// Characters.

/// White space as Unicode defines it: the `White_Space` property.
pub open spec fn is_space(c: char) -> bool {
    let code = c as u32;
    ||| 0x9 <= code <= 0xd
    ||| code == 0x20
    ||| code == 0x85
    ||| code == 0xa0
    ||| code == 0x1680
    ||| 0x2000 <= code <= 0x200a
    ||| code == 0x2028
    ||| code == 0x2029
    ||| code == 0x202f
    ||| code == 0x205f
    ||| code == 0x3000
}

pub fn space(c: char) -> (yes: bool)
    ensures
        yes == is_space(c),
{
    let code: u32 = c as u32;
    (0x9 <= code && code <= 0xd) || code == 0x20 || code == 0x85 || code == 0xa0 || code == 0x1680
        || (0x2000 <= code && code <= 0x200a) || code == 0x2028 || code == 0x2029 || code == 0x202f
        || code == 0x205f || code == 0x3000
}

/// A control character: the general category `Cc`.
pub open spec fn is_control(c: char) -> bool {
    c as u32 <= 0x1f || 0x7f <= c as u32 <= 0x9f
}

pub fn control(c: char) -> (yes: bool)
    ensures
        yes == is_control(c),
{
    let code: u32 = c as u32;
    code <= 0x1f || (0x7f <= code && code <= 0x9f)
}

pub open spec fn is_digit(c: char) -> bool {
    '0' as u32 <= c as u32 <= '9' as u32
}

pub fn digit(c: char) -> (yes: bool)
    ensures
        yes == is_digit(c),
{
    let code: u32 = c as u32;
    48 <= code && code <= 57
}

pub open spec fn is_ascii_letter(c: char) -> bool {
    'a' as u32 <= c as u32 <= 'z' as u32 || 'A' as u32 <= c as u32 <= 'Z' as u32
}

/// An ASCII letter or digit.
pub open spec fn is_alphanumeric(c: char) -> bool {
    is_ascii_letter(c) || is_digit(c)
}

pub fn alphanumeric(c: char) -> (yes: bool)
    ensures
        yes == is_alphanumeric(c),
{
    let code: u32 = c as u32;
    (97 <= code && code <= 122) || (65 <= code && code <= 90) || (48 <= code && code <= 57)
}

/// The lower-case form of an ASCII capital; every other character is itself.
pub open spec fn lower_char(c: char) -> char {
    if 'A' as u32 <= c as u32 <= 'Z' as u32 {
        ((c as u32 + 32) as u8) as char
    } else {
        c
    }
}

pub fn to_lower_char(c: char) -> (low: char)
    ensures
        low == lower_char(c),
{
    let code: u32 = c as u32;
    if 65 <= code && code <= 90 {
        ((code + 32) as u8) as char
    } else {
        c
    }
}

/// The text with its ASCII capitals in lower case.
pub open spec fn lower(s: Seq<char>) -> Seq<char> {
    Seq::new(s.len(), |i: int| lower_char(s[i]))
}

pub fn to_lower_chars(chars: &Vec<char>) -> (low: Vec<char>)
    ensures
        low@ == lower(chars@),
{
    let mut low: Vec<char> = Vec::new();
    let mut i: usize = 0;
    while i < chars.len()
        invariant
            i <= chars@.len(),
            low@.len() == i,
            forall|j: int| 0 <= j < i ==> low@[j] == lower_char(chars@[j]),
        decreases chars@.len() - i,
    {
        low.push(to_lower_char(chars[i]));
        i = i + 1;
    }
    assert(low@ =~= lower(chars@));
    low
}

pub fn to_lower(text: &str) -> (low: String)
    ensures
        low@ == lower(text@),
{
    to_text(&to_lower_chars(&to_chars(text)))
}

/// Whether two texts are equal but for the case of ASCII letters.
pub open spec fn same_ignoring_case(left: Seq<char>, right: Seq<char>) -> bool {
    lower(left) == lower(right)
}

pub fn eq_ignore_case(left: &str, right: &str) -> (equal: bool)
    ensures
        equal == same_ignoring_case(left@, right@),
{
    same_chars(&to_lower_chars(&to_chars(left)), &to_lower_chars(&to_chars(right)))
}

// Searching.

/// The index of the first `c` in `s`, or the length of `s` where there is none.
pub open spec fn find_char(s: Seq<char>, c: char) -> int
    decreases s.len(),
{
    if s.len() == 0 || s[0] == c {
        0
    } else {
        1 + find_char(s.drop_first(), c)
    }
}

pub proof fn lemma_find_char(s: Seq<char>, c: char)
    ensures
        0 <= find_char(s, c) <= s.len(),
        forall|j: int| 0 <= j < find_char(s, c) ==> s[j] != c,
        find_char(s, c) < s.len() ==> s[find_char(s, c)] == c,
    decreases s.len(),
{
    if s.len() > 0 && s[0] != c {
        lemma_find_char(s.drop_first(), c);
        let k = find_char(s.drop_first(), c);
        assert forall|j: int| 0 <= j < 1 + k implies s[j] != c by {
            if j > 0 {
                assert(s.drop_first()[j - 1] == s[j]);
            }
        }
    }
}

/// The index of the first `c` at or after `from`, or the length where there is none.
pub fn position_of(chars: &Vec<char>, c: char, from: usize) -> (index: usize)
    requires
        from <= chars@.len(),
    ensures
        index == from + find_char(chars@.skip(from as int), c),
        from <= index <= chars@.len(),
        index < chars@.len() ==> chars@[index as int] == c,
{
    let mut i: usize = from;
    assert(chars@.skip(from as int) =~= chars@.skip(i as int));
    while i < chars.len()
        invariant
            from <= i <= chars@.len(),
            from + find_char(chars@.skip(from as int), c) == i + find_char(chars@.skip(i as int), c),
        decreases chars@.len() - i,
    {
        if chars[i] == c {
            return i;
        }
        assert(chars@.skip(i as int).drop_first() =~= chars@.skip(i + 1));
        i = i + 1;
    }
    i
}

/// Whether `pattern` stands in `s` at index `i`.
pub open spec fn occurs_at(s: Seq<char>, pattern: Seq<char>, i: int) -> bool {
    0 <= i && i + pattern.len() <= s.len() && s.subrange(i, i + pattern.len()) == pattern
}

/// The first index from `i` on at which `pattern` stands in `s`.
pub open spec fn find_from(s: Seq<char>, pattern: Seq<char>, i: int) -> Option<int>
    decreases s.len() - i + 1,
{
    if i + pattern.len() > s.len() {
        None
    } else if occurs_at(s, pattern, i) {
        Some(i)
    } else {
        find_from(s, pattern, i + 1)
    }
}

/// The first index at which `pattern` stands in `s`.
pub open spec fn find(s: Seq<char>, pattern: Seq<char>) -> Option<int> {
    find_from(s, pattern, 0)
}

pub proof fn lemma_find_from(s: Seq<char>, pattern: Seq<char>, i: int)
    requires
        0 <= i,
    ensures
        match find_from(s, pattern, i) {
            Some(k) => i <= k && occurs_at(s, pattern, k) && forall|j: int|
                i <= j < k ==> !#[trigger] occurs_at(s, pattern, j),
            None => forall|j: int| i <= j ==> !#[trigger] occurs_at(s, pattern, j),
        },
    decreases s.len() - i + 1,
{
    if i + pattern.len() <= s.len() && !occurs_at(s, pattern, i) {
        lemma_find_from(s, pattern, i + 1);
    }
}

/// The last index up to `i` at which `pattern` stands in `s`.
pub open spec fn find_back(s: Seq<char>, pattern: Seq<char>, i: int) -> Option<int>
    decreases i + 1,
{
    if i < 0 {
        None
    } else if occurs_at(s, pattern, i) {
        Some(i)
    } else {
        find_back(s, pattern, i - 1)
    }
}

/// The last index at which `pattern` stands in `s`.
pub open spec fn find_last(s: Seq<char>, pattern: Seq<char>) -> Option<int> {
    find_back(s, pattern, s.len() - pattern.len())
}

proof fn lemma_find_back(s: Seq<char>, pattern: Seq<char>, i: int)
    ensures
        match find_back(s, pattern, i) {
            Some(k) => 0 <= k <= i && occurs_at(s, pattern, k) && forall|j: int|
                k < j <= i ==> !#[trigger] occurs_at(s, pattern, j),
            None => forall|j: int| j <= i ==> !#[trigger] occurs_at(s, pattern, j),
        },
    decreases i + 1,
{
    if i >= 0 && !occurs_at(s, pattern, i) {
        lemma_find_back(s, pattern, i - 1);
    }
}

pub proof fn lemma_find_last(s: Seq<char>, pattern: Seq<char>)
    ensures
        match find_last(s, pattern) {
            Some(k) => occurs_at(s, pattern, k) && forall|j: int|
                k < j ==> !#[trigger] occurs_at(s, pattern, j),
            None => forall|j: int| !#[trigger] occurs_at(s, pattern, j),
        },
{
    lemma_find_back(s, pattern, s.len() - pattern.len());
}

/// Whether `pattern` stands in `chars` at index `at`.
pub fn stands_at(chars: &Vec<char>, pattern: &Vec<char>, at: usize) -> (yes: bool)
    ensures
        yes == occurs_at(chars@, pattern@, at as int),
{
    if at > chars.len() || pattern.len() > chars.len() - at {
        return false;
    }
    let mut i: usize = 0;
    while i < pattern.len()
        invariant
            i <= pattern@.len(),
            at + pattern.len() <= chars.len(),
            forall|j: int| 0 <= j < i ==> chars@[at + j] == pattern@[j],
        decreases pattern@.len() - i,
    {
        if chars[at + i] != pattern[i] {
            assert(chars@.subrange(at as int, at + pattern@.len())[i as int] != pattern@[i as int]);
            return false;
        }
        i = i + 1;
    }
    assert(chars@.subrange(at as int, at + pattern@.len()) =~= pattern@);
    true
}

/// The first index at which `pattern` stands in `chars`.
pub fn index_of(chars: &Vec<char>, pattern: &Vec<char>) -> (index: Option<usize>)
    ensures
        match index {
            Some(k) => find(chars@, pattern@) == Some(k as int) && k + pattern@.len() <= chars.len(),
            None => find(chars@, pattern@) is None,
        },
{
    if pattern.len() > chars.len() {
        return None;
    }
    let last: usize = chars.len() - pattern.len();
    let mut i: usize = 0;
    loop
        invariant
            i <= last,
            last + pattern@.len() == chars@.len(),
            find(chars@, pattern@) == find_from(chars@, pattern@, i as int),
        decreases last - i,
    {
        if stands_at(chars, pattern, i) {
            return Some(i);
        }
        if i == last {
            assert(find_from(chars@, pattern@, i + 1) is None);
            return None;
        }
        i = i + 1;
    }
}

/// The last index at which `pattern` stands in `chars`.
pub fn last_index_of(chars: &Vec<char>, pattern: &Vec<char>) -> (index: Option<usize>)
    ensures
        match index {
            Some(k) => find_last(chars@, pattern@) == Some(k as int) && k + pattern@.len()
                <= chars.len(),
            None => find_last(chars@, pattern@) is None,
        },
{
    if pattern.len() > chars.len() {
        return None;
    }
    let mut i: usize = chars.len() - pattern.len();
    loop
        invariant
            i + pattern@.len() <= chars@.len(),
            find_last(chars@, pattern@) == find_back(chars@, pattern@, i as int),
        decreases i,
    {
        if stands_at(chars, pattern, i) {
            return Some(i);
        }
        if i == 0 {
            assert(find_back(chars@, pattern@, i - 1) is None);
            return None;
        }
        i = i - 1;
    }
}

pub open spec fn starts_with(s: Seq<char>, prefix: Seq<char>) -> bool {
    occurs_at(s, prefix, 0)
}

pub open spec fn contains(s: Seq<char>, pattern: Seq<char>) -> bool {
    find(s, pattern) is Some
}

/// Whether the text begins with `c`.
pub open spec fn begins_with(s: Seq<char>, c: char) -> bool {
    s.len() > 0 && s[0] == c
}

pub fn has_prefix(text: &str, prefix: &str) -> (yes: bool)
    ensures
        yes == starts_with(text@, prefix@),
{
    stands_at(&to_chars(text), &to_chars(prefix), 0)
}

pub fn has_first(text: &str, c: char) -> (yes: bool)
    ensures
        yes == begins_with(text@, c),
{
    let chars = to_chars(text);
    chars.len() > 0 && chars[0] == c
}

pub fn has_part(text: &str, pattern: &str) -> (yes: bool)
    ensures
        yes == contains(text@, pattern@),
{
    index_of(&to_chars(text), &to_chars(pattern)).is_some()
}

// Trimming.

pub open spec fn trim_start(s: Seq<char>) -> Seq<char>
    decreases s.len(),
{
    if s.len() > 0 && is_space(s[0]) {
        trim_start(s.drop_first())
    } else {
        s
    }
}

pub open spec fn trim_end(s: Seq<char>) -> Seq<char>
    decreases s.len(),
{
    if s.len() > 0 && is_space(s.last()) {
        trim_end(s.drop_last())
    } else {
        s
    }
}

/// The text without the white space at both its ends.
pub open spec fn trim(s: Seq<char>) -> Seq<char> {
    trim_end(trim_start(s))
}

/// Whether the text holds nothing but white space.
pub open spec fn is_blank(s: Seq<char>) -> bool {
    trim(s).len() == 0
}

/// The text without its leading characters `c`.
pub open spec fn trim_start_char(s: Seq<char>, c: char) -> Seq<char>
    decreases s.len(),
{
    if s.len() > 0 && s[0] == c {
        trim_start_char(s.drop_first(), c)
    } else {
        s
    }
}

pub fn trimmed_start(chars: &Vec<char>) -> (rest: Vec<char>)
    ensures
        rest@ == trim_start(chars@),
{
    let mut i: usize = 0;
    assert(chars@.skip(0) =~= chars@);
    while i < chars.len() && space(chars[i])
        invariant
            i <= chars@.len(),
            trim_start(chars@) == trim_start(chars@.skip(i as int)),
        decreases chars@.len() - i,
    {
        assert(chars@.skip(i as int).drop_first() =~= chars@.skip(i + 1));
        i = i + 1;
    }
    assert(chars@.skip(i as int) =~= chars@.subrange(i as int, chars@.len() as int));
    slice(chars, i, chars.len())
}

pub fn trimmed_end(chars: &Vec<char>) -> (rest: Vec<char>)
    ensures
        rest@ == trim_end(chars@),
{
    let mut i: usize = chars.len();
    assert(chars@.take(i as int) =~= chars@);
    while i > 0 && space(chars[i - 1])
        invariant
            i <= chars@.len(),
            trim_end(chars@) == trim_end(chars@.take(i as int)),
        decreases i,
    {
        assert(chars@.take(i as int).drop_last() =~= chars@.take(i - 1));
        i = i - 1;
    }
    assert(chars@.take(i as int) =~= chars@.subrange(0, i as int));
    slice(chars, 0, i)
}

pub fn trimmed(chars: &Vec<char>) -> (rest: Vec<char>)
    ensures
        rest@ == trim(chars@),
{
    trimmed_end(&trimmed_start(chars))
}

pub fn trimmed_text(text: &str) -> (rest: String)
    ensures
        rest@ == trim(text@),
{
    to_text(&trimmed(&to_chars(text)))
}

pub fn blank(text: &str) -> (yes: bool)
    ensures
        yes == is_blank(text@),
{
    trimmed(&to_chars(text)).len() == 0
}

pub fn trimmed_start_char(chars: &Vec<char>, c: char) -> (rest: Vec<char>)
    ensures
        rest@ == trim_start_char(chars@, c),
{
    let mut i: usize = 0;
    assert(chars@.skip(0) =~= chars@);
    while i < chars.len() && chars[i] == c
        invariant
            i <= chars@.len(),
            trim_start_char(chars@, c) == trim_start_char(chars@.skip(i as int), c),
        decreases chars@.len() - i,
    {
        assert(chars@.skip(i as int).drop_first() =~= chars@.skip(i + 1));
        i = i + 1;
    }
    assert(chars@.skip(i as int) =~= chars@.subrange(i as int, chars@.len() as int));
    slice(chars, i, chars.len())
}

// Splitting and joining.

/// The line without the carriage return at its end.
pub open spec fn strip_return(line: Seq<char>) -> Seq<char> {
    if line.len() > 0 && line.last() == '\r' {
        line.drop_last()
    } else {
        line
    }
}

/// The lines of a text. A line ends at `\n` or `\r\n`; what follows the last line
/// end is a line of its own only where it is not empty.
pub open spec fn lines(s: Seq<char>) -> Seq<Seq<char>>
    decreases s.len(),
{
    let k = find_char(s, '\n');
    if s.len() == 0 {
        Seq::empty()
    } else if 0 <= k < s.len() {
        seq![strip_return(s.take(k))] + lines(s.skip(k + 1))
    } else {
        seq![s]
    }
}

pub fn split_lines(chars: &Vec<char>) -> (out: Vec<Vec<char>>)
    ensures
        contents(out@) == lines(chars@),
{
    broadcast use lemma_contents_push;

    let mut out: Vec<Vec<char>> = Vec::new();
    let mut i: usize = 0;
    assert(chars@.skip(0) =~= chars@);
    assert(contents(out@) + lines(chars@) =~= lines(chars@));
    while i < chars.len()
        invariant
            i <= chars@.len(),
            contents(out@) + lines(chars@.skip(i as int)) == lines(chars@),
        decreases chars@.len() - i,
    {
        let ghost rest = chars@.skip(i as int);
        let end: usize = position_of(chars, '\n', i);
        let ghost before = contents(out@);
        if end < chars.len() {
            let stop: usize = if end > i && chars[end - 1] == '\r' {
                end - 1
            } else {
                end
            };
            let line = slice(chars, i, stop);
            proof {
                let k = find_char(rest, '\n');
                assert(rest.take(k) =~= chars@.subrange(i as int, end as int));
                assert(line@ =~= strip_return(rest.take(k)));
                assert(rest.skip(k + 1) =~= chars@.skip(end + 1));
                assert(before + (seq![line@] + lines(rest.skip(k + 1))) =~= before.push(line@)
                    + lines(chars@.skip(end + 1)));
            }
            out.push(line);
            i = end + 1;
        } else {
            let line = slice(chars, i, end);
            proof {
                assert(line@ =~= rest);
                assert(lines(rest) == seq![rest]);
                assert(chars@.skip(end as int) =~= Seq::<char>::empty());
                assert(before + seq![rest] =~= before.push(line@) + lines(chars@.skip(end as int)));
            }
            out.push(line);
            i = end;
        }
    }
    assert(chars@.skip(i as int) =~= Seq::<char>::empty());
    assert(contents(out@) + lines(chars@.skip(i as int)) =~= contents(out@));
    out
}

/// The parts of a text between the characters `c`.
pub open spec fn split(s: Seq<char>, c: char) -> Seq<Seq<char>>
    decreases s.len(),
{
    let k = find_char(s, c);
    if 0 <= k < s.len() {
        seq![s.take(k)] + split(s.skip(k + 1), c)
    } else {
        seq![s]
    }
}

pub fn split_at_char(chars: &Vec<char>, c: char) -> (out: Vec<Vec<char>>)
    ensures
        contents(out@) == split(chars@, c),
        out@.len() > 0,
{
    broadcast use lemma_contents_push;

    let mut out: Vec<Vec<char>> = Vec::new();
    let mut i: usize = 0;
    assert(chars@.skip(0) =~= chars@);
    assert(contents(out@) + split(chars@, c) =~= split(chars@, c));
    loop
        invariant
            i <= chars@.len(),
            contents(out@) + split(chars@.skip(i as int), c) == split(chars@, c),
        decreases chars@.len() - i,
    {
        let ghost rest = chars@.skip(i as int);
        let end: usize = position_of(chars, c, i);
        let ghost before = contents(out@);
        let part = slice(chars, i, end);
        let ghost k = find_char(rest, c);
        assert(rest.take(k) =~= part@);
        if end == chars.len() {
            assert(part@ =~= rest);
            assert(before + seq![rest] =~= before.push(part@));
            out.push(part);
            return out;
        }
        proof {
            assert(rest.skip(k + 1) =~= chars@.skip(end + 1));
            assert(before + (seq![part@] + split(rest.skip(k + 1), c)) =~= before.push(part@)
                + split(chars@.skip(end + 1), c));
        }
        out.push(part);
        i = end + 1;
    }
}

/// The number of characters before the first white space.
pub open spec fn word_length(s: Seq<char>) -> int
    decreases s.len(),
{
    if s.len() == 0 || is_space(s[0]) {
        0
    } else {
        1 + word_length(s.drop_first())
    }
}

/// What stands behind the first word of a text that begins with one.
pub open spec fn behind_word(s: Seq<char>) -> Seq<char> {
    s.skip(word_length(s))
}

/// Where the first word of a text ends.
pub fn word_end(chars: &Vec<char>) -> (end: usize)
    ensures
        end == word_length(chars@),
        end <= chars@.len(),
{
    let mut end: usize = 0;
    assert(chars@.skip(0) =~= chars@);
    while end < chars.len() && !space(chars[end])
        invariant
            end <= chars@.len(),
            word_length(chars@) == end + word_length(chars@.skip(end as int)),
        decreases chars@.len() - end,
    {
        assert(chars@.skip(end as int).drop_first() =~= chars@.skip(end + 1));
        end = end + 1;
    }
    assert(word_length(chars@.skip(end as int)) == 0);
    end
}

pub proof fn lemma_word_length(s: Seq<char>)
    ensures
        0 <= word_length(s) <= s.len(),
        forall|j: int| 0 <= j < word_length(s) ==> !is_space(#[trigger] s[j]),
        word_length(s) < s.len() ==> is_space(s[word_length(s)]),
    decreases s.len(),
{
    if s.len() > 0 && !is_space(s[0]) {
        lemma_word_length(s.drop_first());
        let k = word_length(s.drop_first());
        assert forall|j: int| 0 <= j < 1 + k implies !is_space(#[trigger] s[j]) by {
            if j > 0 {
                assert(s.drop_first()[j - 1] == s[j]);
            }
        }
    }
}

/// The longest runs of characters other than white space, in order.
pub open spec fn words(s: Seq<char>) -> Seq<Seq<char>>
    decreases s.len(),
{
    let k = word_length(s);
    if s.len() == 0 {
        Seq::empty()
    } else if is_space(s[0]) {
        words(s.drop_first())
    } else if 0 < k <= s.len() {
        seq![s.take(k)] + words(s.skip(k))
    } else {
        Seq::empty()
    }
}

pub fn split_words(chars: &Vec<char>) -> (out: Vec<Vec<char>>)
    ensures
        contents(out@) == words(chars@),
{
    broadcast use lemma_contents_push;

    let mut out: Vec<Vec<char>> = Vec::new();
    let mut i: usize = 0;
    assert(chars@.skip(0) =~= chars@);
    assert(contents(out@) + words(chars@) =~= words(chars@));
    while i < chars.len()
        invariant
            i <= chars@.len(),
            contents(out@) + words(chars@.skip(i as int)) == words(chars@),
        decreases chars@.len() - i,
    {
        let ghost rest = chars@.skip(i as int);
        if space(chars[i]) {
            assert(rest.drop_first() =~= chars@.skip(i + 1));
            i = i + 1;
        } else {
            let mut end: usize = i;
            while end < chars.len() && !space(chars[end])
                invariant
                    i <= end <= chars@.len(),
                    word_length(chars@.skip(i as int)) == end - i + word_length(
                        chars@.skip(end as int),
                    ),
                decreases chars@.len() - end,
            {
                assert(chars@.skip(end as int).drop_first() =~= chars@.skip(end + 1));
                end = end + 1;
            }
            let word = slice(chars, i, end);
            let ghost before = contents(out@);
            proof {
                assert(word_length(chars@.skip(end as int)) == 0);
                lemma_word_length(rest);
                let k = word_length(rest);
                assert(end == i + k);
                assert(rest.take(k) =~= word@);
                assert(rest.skip(k) =~= chars@.skip(end as int));
                assert(before + (seq![word@] + words(rest.skip(k))) =~= before.push(word@) + words(
                    chars@.skip(end as int),
                ));
            }
            out.push(word);
            i = end;
        }
    }
    assert(chars@.skip(i as int) =~= Seq::<char>::empty());
    assert(contents(out@) + words(chars@.skip(i as int)) =~= contents(out@));
    out
}

/// The parts one after another, with `separator` between each two.
pub open spec fn join(parts: Seq<Seq<char>>, separator: Seq<char>) -> Seq<char>
    decreases parts.len(),
{
    if parts.len() == 0 {
        Seq::empty()
    } else if parts.len() == 1 {
        parts[0]
    } else {
        join(parts.drop_last(), separator) + separator + parts.last()
    }
}

pub proof fn lemma_join_first(first: Seq<char>, rest: Seq<Seq<char>>, separator: Seq<char>)
    requires
        rest.len() > 0,
    ensures
        join(seq![first] + rest, separator) == first + separator + join(rest, separator),
    decreases rest.len(),
{
    let all = seq![first] + rest;
    assert(all.drop_last() =~= seq![first] + rest.drop_last());
    assert(all.last() == rest.last());
    if rest.len() > 1 {
        lemma_join_first(first, rest.drop_last(), separator);
        assert(join(all, separator) =~= first + separator + join(rest, separator));
    } else {
        assert(rest.drop_last().len() == 0);
        assert(all.drop_last() =~= seq![first]);
        assert(join(all.drop_last(), separator) == first);
        assert(join(rest, separator) == rest[0]);
    }
}

/// A text that is split at a character and joined with it again is the same text.
pub proof fn law_splitting_loses_nothing(s: Seq<char>, c: char)
    ensures
        split(s, c).len() > 0,
        join(split(s, c), seq![c]) == s,
    decreases s.len(),
{
    let k = find_char(s, c);
    lemma_find_char(s, c);
    if k < s.len() {
        let rest = s.skip(k + 1);
        law_splitting_loses_nothing(rest, c);
        lemma_join_first(s.take(k), split(rest, c), seq![c]);
        assert(s.take(k) + seq![c] + rest =~= s);
    }
}

pub fn joined(parts: &Vec<Vec<char>>, separator: &str) -> (out: Vec<char>)
    ensures
        out@ == join(contents(parts@), separator@),
{
    let between = to_chars(separator);
    let mut out: Vec<char> = Vec::new();
    let mut i: usize = 0;
    let ghost all = contents(parts@);
    assert(join(all.take(0), separator@) =~= Seq::<char>::empty());
    while i < parts.len()
        invariant
            i <= parts@.len(),
            all == contents(parts@),
            between@ == separator@,
            out@ == join(all.take(i as int), separator@),
        decreases parts@.len() - i,
    {
        assert(all.take(i + 1).drop_last() =~= all.take(i as int));
        if i > 0 {
            append_chars(&mut out, &between);
        }
        append_chars(&mut out, &parts[i]);
        assert(out@ =~= join(all.take(i + 1), separator@));
        i = i + 1;
    }
    assert(all.take(i as int) =~= all);
    out
}

pub fn joined_text(parts: &Vec<String>, separator: &str) -> (out: String)
    ensures
        out@ == join(strings(parts@), separator@),
{
    broadcast use lemma_contents_push;

    let mut chars: Vec<Vec<char>> = Vec::new();
    let mut i: usize = 0;
    while i < parts.len()
        invariant
            i <= parts@.len(),
            contents(chars@) == strings(parts@).take(i as int),
        decreases parts@.len() - i,
    {
        chars.push(to_chars(parts[i].as_str()));
        assert(strings(parts@).take(i + 1) =~= strings(parts@).take(i as int).push(parts@[i as int]@));
        i = i + 1;
    }
    assert(strings(parts@).take(i as int) =~= strings(parts@));
    to_text(&joined(&chars, separator))
}

/// The words of the text with one space between each two.
pub open spec fn squeeze(s: Seq<char>) -> Seq<char> {
    join(words(s), seq![' '])
}

pub fn squeezed(chars: &Vec<char>) -> (out: Vec<char>)
    ensures
        out@ == squeeze(chars@),
{
    proof {
        reveal_strlit(" ");
        assert(" "@ =~= seq![' ']);
    }
    joined(&split_words(chars), " ")
}

/// The text before and the text after the first `pattern`.
pub open spec fn split_once(s: Seq<char>, pattern: Seq<char>) -> Option<(Seq<char>, Seq<char>)> {
    match find(s, pattern) {
        Some(k) => Some((s.take(k), s.skip(k + pattern.len()))),
        None => None,
    }
}

pub fn split_at_first(chars: &Vec<char>, pattern: &str) -> (parts: Option<(Vec<char>, Vec<char>)>)
    ensures
        match parts {
            Some((left, right)) => split_once(chars@, pattern@) == Some((left@, right@)),
            None => split_once(chars@, pattern@) is None,
        },
{
    let wanted = to_chars(pattern);
    match index_of(chars, &wanted) {
        Some(k) => {
            let left = slice(chars, 0, k);
            let right = slice(chars, k + wanted.len(), chars.len());
            assert(left@ =~= chars@.take(k as int));
            assert(right@ =~= chars@.skip(k + pattern@.len()));
            Some((left, right))
        },
        None => None,
    }
}

// Numbers.

pub open spec fn digit_char(n: nat) -> char {
    ((48 + n % 10) as u8) as char
}

/// The decimal digits of a number.
pub open spec fn decimal(n: nat) -> Seq<char>
    decreases n,
{
    if n < 10 {
        seq![digit_char(n)]
    } else {
        decimal(n / 10).push(digit_char(n))
    }
}

pub fn append_decimal(chars: &mut Vec<char>, n: u64)
    ensures
        final(chars)@ == old(chars)@ + decimal(n as nat),
    decreases n,
{
    let ghost before = chars@;
    if n >= 10 {
        append_decimal(chars, n / 10);
    }
    chars.push(((48 + n % 10) as u8) as char);
    assert(chars@ =~= before + decimal(n as nat));
}

pub fn decimal_text(n: u64) -> (text: String)
    ensures
        text@ == decimal(n as nat),
{
    let mut chars: Vec<char> = Vec::new();
    append_decimal(&mut chars, n);
    assert(chars@ =~= decimal(n as nat));
    to_text(&chars)
}

/// The number that a sequence of decimal digits stands for.
pub open spec fn digits_value(s: Seq<char>) -> nat
    decreases s.len(),
{
    if s.len() == 0 {
        0
    } else {
        digits_value(s.drop_last()) * 10 + (s.last() as u32 - 48) as nat
    }
}

pub open spec fn all_digits(s: Seq<char>) -> bool {
    forall|i: int| 0 <= i < s.len() ==> is_digit(#[trigger] s[i])
}

/// A number is read back from its decimal digits, and so no two numbers are written alike.
pub proof fn law_written_numbers_are_read_back(n: nat)
    ensures
        decimal(n).len() > 0,
        all_digits(decimal(n)),
        digits_value(decimal(n)) == n,
    decreases n,
{
    reveal_with_fuel(digits_value, 2);
    let last = digit_char(n);
    assert(is_digit(last) && last as u32 - 48 == n % 10);
    if n < 10 {
        assert(decimal(n).drop_last() =~= Seq::<char>::empty());
        assert(n % 10 == n);
    } else {
        law_written_numbers_are_read_back(n / 10);
        assert(decimal(n).drop_last() =~= decimal(n / 10));
    }
}

/// An unsigned number as std reads it: an optional `+`, at least one decimal
/// digit and nothing else, with a value that is not above `max`.
pub open spec fn parse_number(s: Seq<char>, max: nat) -> Option<nat> {
    let digits = if begins_with(s, '+') {
        s.skip(1)
    } else {
        s
    };
    if digits.len() > 0 && all_digits(digits) && digits_value(digits) <= max {
        Some(digits_value(digits))
    } else {
        None
    }
}

proof fn lemma_digits_value_grows(s: Seq<char>, i: int)
    requires
        all_digits(s),
        0 <= i <= s.len(),
    ensures
        digits_value(s.take(i)) <= digits_value(s),
    decreases s.len(),
{
    if i < s.len() {
        assert(all_digits(s.drop_last()));
        lemma_digits_value_grows(s.drop_last(), i);
        assert(s.drop_last().take(i) =~= s.take(i));
        assert(is_digit(s.last()));
    } else {
        assert(s.take(i) =~= s);
    }
}

pub fn parse_u64(text: &str, max: u64) -> (number: Option<u64>)
    ensures
        match number {
            Some(n) => parse_number(text@, max as nat) == Some(n as nat),
            None => parse_number(text@, max as nat) is None,
        },
{
    let all = to_chars(text);
    let start: usize = if all.len() > 0 && all[0] == '+' {
        1
    } else {
        0
    };
    let chars = slice(&all, start, all.len());
    let ghost digits = if begins_with(text@, '+') {
        text@.skip(1)
    } else {
        text@
    };
    assert(chars@ =~= digits);
    if chars.len() == 0 {
        return None;
    }
    let mut value: u64 = 0;
    let mut i: usize = 0;
    while i < chars.len()
        invariant
            i <= chars@.len(),
            chars@ == digits,
            digits.len() > 0,
            digits == (if begins_with(text@, '+') {
                text@.skip(1)
            } else {
                text@
            }),
            value <= max,
            value == digits_value(digits.take(i as int)),
            all_digits(digits.take(i as int)),
        decreases chars@.len() - i,
    {
        let c: char = chars[i];
        if !digit(c) {
            assert(!is_digit(digits[i as int]));
            return None;
        }
        let step: u64 = (c as u32 - 48) as u64;
        proof {
            assert(digits.take(i + 1).drop_last() =~= digits.take(i as int));
            assert(digits.take(i + 1).last() == c);
            assert forall|j: int| 0 <= j < i + 1 implies is_digit(#[trigger] digits.take(i + 1)[j]) by {
                if j < i {
                    assert(digits.take(i + 1)[j] == digits.take(i as int)[j]);
                }
            }
        }
        if value > max / 10 || value * 10 > max - step.min(max) || step > max {
            proof {
                if all_digits(digits) {
                    lemma_digits_value_grows(digits, i + 1);
                }
            }
            return None;
        }
        value = value * 10 + step;
        i = i + 1;
    }
    assert(digits.take(i as int) =~= digits);
    Some(value)
}

// Shortening.

/// The text cut to at most `max` characters; where it is cut, its last character
/// is an ellipsis.
pub open spec fn truncate_end(s: Seq<char>, max: int) -> Seq<char> {
    if s.len() <= max {
        s
    } else if max <= 0 {
        Seq::empty()
    } else {
        s.take(max - 1).push('…')
    }
}

pub fn truncated(chars: &Vec<char>, max: usize) -> (out: Vec<char>)
    ensures
        out@ == truncate_end(chars@, max as int),
{
    if chars.len() <= max {
        let out = slice(chars, 0, chars.len());
        assert(out@ =~= chars@);
        return out;
    }
    if max == 0 {
        return Vec::new();
    }
    let mut out = slice(chars, 0, max - 1);
    assert(out@ =~= chars@.take(max - 1));
    out.push('…');
    out
}

/// The end of the text, of at most `max` characters; where its start was dropped,
/// the first character is an ellipsis.
pub open spec fn truncate_start(s: Seq<char>, max: int) -> Seq<char> {
    if s.len() <= max {
        s
    } else if max <= 0 {
        Seq::empty()
    } else {
        seq!['…'] + s.skip(s.len() - (max - 1))
    }
}

pub fn truncated_start(chars: &Vec<char>, max: usize) -> (out: Vec<char>)
    ensures
        out@ == truncate_start(chars@, max as int),
{
    if chars.len() <= max {
        let out = slice(chars, 0, chars.len());
        assert(out@ =~= chars@);
        return out;
    }
    if max == 0 {
        return Vec::new();
    }
    let tail = slice(chars, chars.len() - (max - 1), chars.len());
    let mut out: Vec<char> = Vec::new();
    out.push('…');
    append_chars(&mut out, &tail);
    assert(out@ =~= seq!['…'] + chars@.skip(chars@.len() - (max - 1)));
    out
}

} // verus!
