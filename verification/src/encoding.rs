//! Lengths in UTF-8 bytes, for the limits that are counted in bytes.

use vstd::prelude::*;
use vstd::utf8::{encode_scalar, encode_utf8};

verus! {

/// The number of bytes of a character in UTF-8.
pub open spec fn char_bytes(c: char) -> nat {
    let code = c as u32;
    if code < 0x80 {
        1
    } else if code < 0x800 {
        2
    } else if code < 0x10000 {
        3
    } else {
        4
    }
}

pub fn width_in_bytes(c: char) -> (bytes: usize)
    ensures
        bytes == char_bytes(c),
{
    let code: u32 = c as u32;
    if code < 0x80 {
        1
    } else if code < 0x800 {
        2
    } else if code < 0x10000 {
        3
    } else {
        4
    }
}

/// The number of bytes of a text in UTF-8.
pub open spec fn byte_len(s: Seq<char>) -> nat
    decreases s.len(),
{
    if s.len() == 0 {
        0
    } else {
        byte_len(s.drop_last()) + char_bytes(s.last())
    }
}

pub proof fn lemma_byte_len_concat(a: Seq<char>, b: Seq<char>)
    ensures
        byte_len(a + b) == byte_len(a) + byte_len(b),
    decreases b.len(),
{
    if b.len() == 0 {
        assert(a + b =~= a);
    } else {
        assert((a + b).drop_last() =~= a + b.drop_last());
        lemma_byte_len_concat(a, b.drop_last());
    }
}

proof fn lemma_byte_len_one(c: char)
    ensures
        byte_len(seq![c]) == char_bytes(c),
{
    reveal_with_fuel(byte_len, 2);
    assert(seq![c].drop_last() =~= Seq::<char>::empty());
}

pub proof fn lemma_byte_len_first(s: Seq<char>)
    requires
        s.len() > 0,
    ensures
        byte_len(s) == char_bytes(s[0]) + byte_len(s.drop_first()),
{
    assert(s =~= seq![s[0]] + s.drop_first());
    lemma_byte_len_concat(seq![s[0]], s.drop_first());
    lemma_byte_len_one(s[0]);
}

pub proof fn lemma_byte_len_split(s: Seq<char>, k: int)
    requires
        0 <= k <= s.len(),
    ensures
        byte_len(s) == byte_len(s.take(k)) + byte_len(s.skip(k)),
{
    assert(s =~= s.take(k) + s.skip(k));
    lemma_byte_len_concat(s.take(k), s.skip(k));
}

pub proof fn lemma_byte_len_bounds(s: Seq<char>)
    ensures
        s.len() <= byte_len(s) <= 4 * s.len(),
    decreases s.len(),
{
    if s.len() > 0 {
        lemma_byte_len_bounds(s.drop_last());
    }
}

proof fn lemma_byte_len_encoded(s: Seq<char>)
    ensures
        byte_len(s) == encode_utf8(s).len(),
    decreases s.len(),
{
    if s.len() > 0 {
        lemma_byte_len_first(s);
        lemma_byte_len_encoded(s.drop_first());
        let c = s[0];
        vstd::utf8::char_is_scalar(c);
        assert(encode_scalar(c as u32).len() == char_bytes(c));
    }
}

/// The length of a text in UTF-8 bytes.
pub fn byte_length(text: &str) -> (bytes: usize)
    ensures
        bytes == byte_len(text@),
{
    proof {
        lemma_byte_len_encoded(text@);
    }
    text.as_bytes().len()
}

/// The number of characters of the longest start of the text that is no longer
/// than `budget` bytes.
pub open spec fn prefix_within(s: Seq<char>, budget: int) -> int
    decreases s.len(),
{
    if s.len() == 0 || char_bytes(s[0]) > budget {
        0
    } else {
        1 + prefix_within(s.drop_first(), budget - char_bytes(s[0]))
    }
}

/// The number of characters of the longest end of the text that is no longer
/// than `budget` bytes.
pub open spec fn suffix_within(s: Seq<char>, budget: int) -> int
    decreases s.len(),
{
    if s.len() == 0 || char_bytes(s.last()) > budget {
        0
    } else {
        1 + suffix_within(s.drop_last(), budget - char_bytes(s.last()))
    }
}

/// The start fits the budget, and one character more would not.
pub proof fn law_prefix_is_longest(s: Seq<char>, budget: int)
    requires
        budget >= 0,
    ensures
        0 <= prefix_within(s, budget) <= s.len(),
        byte_len(s.take(prefix_within(s, budget))) <= budget,
        prefix_within(s, budget) < s.len() ==> byte_len(s.take(prefix_within(s, budget) + 1))
            > budget,
    decreases s.len(),
{
    if s.len() > 0 && char_bytes(s[0]) <= budget {
        let rest = s.drop_first();
        let left = budget - char_bytes(s[0]);
        law_prefix_is_longest(rest, left);
        let k = prefix_within(rest, left);
        lemma_byte_len_first(s.take(k + 1));
        assert(s.take(k + 1).drop_first() =~= rest.take(k));
        if k < rest.len() {
            lemma_byte_len_first(s.take(k + 2));
            assert(s.take(k + 2).drop_first() =~= rest.take(k + 1));
        }
    } else if s.len() > 0 {
        lemma_byte_len_first(s.take(1));
    }
}

/// The end fits the budget, and one character more would not.
pub proof fn law_suffix_is_longest(s: Seq<char>, budget: int)
    requires
        budget >= 0,
    ensures
        0 <= suffix_within(s, budget) <= s.len(),
        byte_len(s.skip(s.len() - suffix_within(s, budget))) <= budget,
        suffix_within(s, budget) < s.len() ==> byte_len(
            s.skip(s.len() - suffix_within(s, budget) - 1),
        ) > budget,
    decreases s.len(),
{
    if s.len() > 0 && char_bytes(s.last()) <= budget {
        let rest = s.drop_last();
        let left = budget - char_bytes(s.last());
        law_suffix_is_longest(rest, left);
        let k = suffix_within(rest, left);
        assert(s.skip(s.len() - k - 1).drop_last() =~= rest.skip(rest.len() - k));
        if k < rest.len() {
            assert(s.skip(s.len() - k - 2).drop_last() =~= rest.skip(rest.len() - k - 1));
        }
    } else if s.len() > 0 {
        let tail = s.skip(s.len() - 1);
        assert(tail.drop_last() =~= Seq::<char>::empty());
        assert(tail.last() == s.last());
    }
}

/// The length of the longest start of the text within a number of bytes.
pub fn prefix_length(chars: &Vec<char>, budget: usize) -> (count: usize)
    ensures
        count == prefix_within(chars@, budget as int),
        count <= chars@.len(),
{
    let mut left: usize = budget;
    let mut i: usize = 0;
    assert(chars@.skip(0) =~= chars@);
    while i < chars.len()
        invariant
            i <= chars@.len(),
            prefix_within(chars@, budget as int) == i + prefix_within(
                chars@.skip(i as int),
                left as int,
            ),
        decreases chars@.len() - i,
    {
        let bytes: usize = width_in_bytes(chars[i]);
        assert(chars@.skip(i as int)[0] == chars@[i as int]);
        if bytes > left {
            return i;
        }
        assert(chars@.skip(i as int).drop_first() =~= chars@.skip(i + 1));
        left = left - bytes;
        i = i + 1;
    }
    i
}

/// The length of the longest end of the text within a number of bytes.
pub fn suffix_length(chars: &Vec<char>, budget: usize) -> (count: usize)
    ensures
        count == suffix_within(chars@, budget as int),
        count <= chars@.len(),
{
    let mut left: usize = budget;
    let mut end: usize = chars.len();
    assert(chars@.take(end as int) =~= chars@);
    while end > 0
        invariant
            end <= chars@.len(),
            suffix_within(chars@, budget as int) == chars@.len() - end + suffix_within(
                chars@.take(end as int),
                left as int,
            ),
        decreases end,
    {
        let bytes: usize = width_in_bytes(chars[end - 1]);
        assert(chars@.take(end as int).last() == chars@[end - 1]);
        if bytes > left {
            return chars.len() - end;
        }
        assert(chars@.take(end as int).drop_last() =~= chars@.take(end - 1));
        left = left - bytes;
        end = end - 1;
    }
    chars.len()
}

} // verus!
