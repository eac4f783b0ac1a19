//! Names that are derived from a project: its key, titles and changed paths.

use crate::text::{
    alphanumeric, append_decimal, append_text, decimal, is_alphanumeric, lemma_strings_push, slice,
    squeeze, squeezed, strings, to_chars, to_text, trim_start_char, trimmed_start_char,
};
use vstd::prelude::*;

verus! {

broadcast use lemma_strings_push;

/// What SHA-256 makes of a message.
pub uninterp spec fn sha256_of(bytes: Seq<u8>) -> Seq<u8>;

/// `sha2::Sha256::digest` gives the SHA-256 digest of a message: always the same for the
/// same bytes, and thirty-two bytes long. What the digest of a given message is, is not
/// stated.
#[verifier::external_body]
fn sha256(bytes: &Vec<u8>) -> (digest: Vec<u8>)
    ensures
        digest@ == sha256_of(bytes@),
        digest@.len() == 32,
{
    <sha2::Sha256 as sha2::Digest>::digest(bytes).to_vec()
}

/// What the lossy decoding of UTF-8 makes of bytes.
pub uninterp spec fn lossy_text(bytes: Seq<u8>) -> Seq<char>;

/// `String::from_utf8_lossy` decodes UTF-8, with a replacement character for what is not
/// UTF-8. The claim is that the same bytes always give the same text, and that valid
/// UTF-8 gives what it encodes.
#[verifier::external_body]
fn decode_lossy(bytes: &Vec<u8>) -> (text: String)
    ensures
        text@ == lossy_text(bytes@),
        vstd::utf8::valid_utf8(bytes@) ==> text@ == vstd::utf8::decode_utf8(bytes@),
{
    String::from_utf8_lossy(bytes).into_owned()
}

/// A character that can stand in the name of a directory.
pub open spec fn is_safe(c: char) -> bool {
    is_alphanumeric(c) || c == '-' || c == '_'
}

/// A name with a dash for each character that could trouble a file system, at most
/// thirty-two characters of it.
pub open spec fn safe_label(name: Seq<char>) -> Seq<char> {
    Seq::new(
        if name.len() < 32 {
            name.len()
        } else {
            32
        },
        |i: int|
            if is_safe(name[i]) {
                name[i]
            } else {
                '-'
            },
    )
}

pub open spec fn hex_digit(n: int) -> char {
    if n < 10 {
        (('0' as u32 + n) as u32) as char
    } else {
        (('a' as u32 + (n - 10)) as u32) as char
    }
}

/// The first bytes in hexadecimal.
pub open spec fn hex(bytes: Seq<u8>, n: int) -> Seq<char>
    decreases n,
{
    if n <= 0 {
        Seq::empty()
    } else {
        hex(bytes, n - 1).push(hex_digit(bytes[n - 1] as int / 16)).push(
            hex_digit(bytes[n - 1] as int % 16),
        )
    }
}

/// The key of a project: a readable label, and the first eight bytes of the digest of
/// its path.
pub open spec fn project_key(name: Option<Seq<char>>, path: Seq<u8>) -> Seq<char> {
    safe_label(
        match name {
            Some(name) => name,
            None => "project"@,
        },
    ) + "-"@ + hex(sha256_of(path), 8)
}

proof fn lemma_hex_is_safe(bytes: Seq<u8>, n: int)
    requires
        0 <= n,
    ensures
        hex(bytes, n).len() == 2 * n,
        forall|i: int| 0 <= i < hex(bytes, n).len() ==> is_safe(#[trigger] hex(bytes, n)[i]),
    decreases n,
{
    if n > 0 {
        lemma_hex_is_safe(bytes, n - 1);
        let high = bytes[n - 1] as int / 16;
        let low = bytes[n - 1] as int % 16;
        assert(0 <= high < 16 && 0 <= low < 16);
        assert(is_safe(hex_digit(high)));
        assert(is_safe(hex_digit(low)));
    }
}

/// A project key is a short name that every file system takes.
pub proof fn law_project_keys_are_safe_names(name: Option<Seq<char>>, path: Seq<u8>)
    ensures
        17 <= project_key(name, path).len() <= 49,
        forall|i: int|
            0 <= i < project_key(name, path).len() ==> is_safe(
                #[trigger] project_key(name, path)[i],
            ),
{
    reveal_strlit("-");
    lemma_hex_is_safe(sha256_of(path), 8);
    let label = safe_label(
        match name {
            Some(name) => name,
            None => "project"@,
        },
    );
    let key = project_key(name, path);
    assert forall|i: int| 0 <= i < key.len() implies is_safe(#[trigger] key[i]) by {
        if i < label.len() {
            assert(key[i] == label[i]);
        } else if i == label.len() {
            assert(key[i] == '-');
        } else {
            assert(key[i] == hex(sha256_of(path), 8)[i - label.len() - 1]);
        }
    }
}

fn to_hex_digit(n: u8) -> (digit: char)
    requires
        n < 16,
    ensures
        digit == hex_digit(n as int),
{
    if n < 10 {
        (48 + n) as char
    } else {
        (97 + (n - 10)) as char
    }
}

/// The key of a project, from the bytes of its path and the name of its directory, where
/// that is text.
pub fn project_path_key(name: &Option<String>, path: &Vec<u8>) -> (key: String)
    ensures
        key@ == project_key(crate::text::optional(*name), path@),
{
    let name = match name {
        Some(name) => to_chars(name.as_str()),
        None => to_chars("project"),
    };
    let mut key: Vec<char> = Vec::new();
    let mut i: usize = 0;
    while i < name.len() && i < 32
        invariant
            i <= name.len(),
            i <= 32,
            key@ == safe_label(name@).take(i as int),
        decreases name.len() - i,
    {
        let c: char = name[i];
        if alphanumeric(c) || c == '-' || c == '_' {
            key.push(c);
        } else {
            key.push('-');
        }
        assert(key@ =~= safe_label(name@).take(i + 1));
        i = i + 1;
    }
    assert(safe_label(name@).take(i as int) =~= safe_label(name@));
    append_text(&mut key, "-");
    let digest = sha256(path);
    let ghost before = key@;
    let mut k: usize = 0;
    assert(before + hex(digest@, 0) =~= before);
    while k < 8
        invariant
            k <= 8,
            digest@.len() == 32,
            key@ == before + hex(digest@, k as int),
        decreases 8 - k,
    {
        let byte: u8 = digest[k];
        key.push(to_hex_digit(byte / 16));
        key.push(to_hex_digit(byte % 16));
        assert(key@ =~= before + hex(digest@, k + 1));
        k = k + 1;
    }
    to_text(&key)
}

/// A path with dashes between its components, as older versions named a project.
pub open spec fn dashed(path: Seq<char>) -> Seq<char> {
    let rest = trim_start_char(path, '/');
    Seq::new(
        rest.len(),
        |i: int|
            if rest[i] == '/' {
                '-'
            } else {
                rest[i]
            },
    )
}

/// The name that older versions gave a project.
pub fn legacy_project_path_key(path: &str) -> (key: String)
    ensures
        key@ == dashed(path@),
{
    let rest = trimmed_start_char(&to_chars(path), '/');
    let mut key: Vec<char> = Vec::new();
    let mut i: usize = 0;
    while i < rest.len()
        invariant
            i <= rest.len(),
            rest@ == trim_start_char(path@, '/'),
            key@ == dashed(path@).take(i as int),
        decreases rest.len() - i,
    {
        if rest[i] == '/' {
            key.push('-');
        } else {
            key.push(rest[i]);
        }
        assert(key@ =~= dashed(path@).take(i + 1));
        i = i + 1;
    }
    assert(dashed(path@).take(i as int) =~= dashed(path@));
    to_text(&key)
}

/// A task in one line of at most a hundred characters.
pub open spec fn title_of(text: Seq<char>) -> Seq<char> {
    let line = squeeze(text);
    if line.len() < 100 {
        line
    } else {
        line.take(100)
    }
}

/// The title of a task.
pub fn task_title(text: &str) -> (title: String)
    ensures
        title@ == title_of(text@),
{
    let line = squeezed(&to_chars(text));
    if line.len() < 100 {
        to_text(&line)
    } else {
        let first = slice(&line, 0, 100);
        assert(first@ =~= line@.take(100));
        to_text(&first)
    }
}

/// The name of an exported conversation. Where the first name is taken, a number follows
/// the time.
pub open spec fn export_file(stamp: nat, attempt: nat) -> Seq<char> {
    if attempt < 2 {
        "codeswarm-conversation-"@ + decimal(stamp) + ".md"@
    } else {
        "codeswarm-conversation-"@ + decimal(stamp) + "-"@ + decimal(attempt) + ".md"@
    }
}

/// The name of an exported conversation.
pub fn export_name(stamp: u64, attempt: u64) -> (name: String)
    ensures
        name@ == export_file(stamp as nat, attempt as nat),
{
    let mut name = to_chars("codeswarm-conversation-");
    append_decimal(&mut name, stamp);
    if attempt >= 2 {
        append_text(&mut name, "-");
        append_decimal(&mut name, attempt);
    }
    append_text(&mut name, ".md");
    to_text(&name)
}

/// The entries between zero bytes.
pub open spec fn entries(bytes: Seq<u8>) -> Seq<Seq<u8>>
    decreases bytes.len(),
{
    let end = entry_end(bytes, 0);
    if end >= bytes.len() || end < 0 {
        seq![bytes]
    } else {
        seq![bytes.take(end)] + entries(bytes.skip(end + 1))
    }
}

/// The place of the first zero byte, or the length.
pub open spec fn entry_end(bytes: Seq<u8>, i: int) -> int
    decreases bytes.len() - i,
{
    if i >= bytes.len() || bytes[i] == 0 {
        i
    } else {
        entry_end(bytes, i + 1)
    }
}

/// Whether an entry of a status is followed by the path that it came from.
pub open spec fn has_origin(entry: Seq<u8>) -> bool {
    entry[0] == 82u8 || entry[0] == 67u8 || entry[1] == 82u8 || entry[1] == 67u8
}

/// The paths of the entries of a status from a place on. An entry is two letters, a
/// space and a path; a renamed or copied path is followed by where it came from.
pub open spec fn paths_from(all: Seq<Seq<u8>>, i: int) -> Seq<Seq<char>>
    decreases all.len() - i + 1,
{
    if i >= all.len() {
        Seq::empty()
    } else if all[i].len() < 4 {
        paths_from(all, i + 1)
    } else {
        seq![lossy_text(all[i].skip(3))] + if has_origin(all[i]) {
            paths_from(all, i + 2)
        } else {
            paths_from(all, i + 1)
        }
    }
}

fn part(bytes: &Vec<u8>, from: usize, to: usize) -> (piece: Vec<u8>)
    requires
        from <= to <= bytes.len(),
    ensures
        piece@ == bytes@.subrange(from as int, to as int),
{
    let mut piece: Vec<u8> = Vec::new();
    let mut i: usize = from;
    while i < to
        invariant
            from <= i <= to <= bytes.len(),
            piece@ == bytes@.subrange(from as int, i as int),
        decreases to - i,
    {
        piece.push(bytes[i]);
        assert(piece@ =~= bytes@.subrange(from as int, i + 1));
        i = i + 1;
    }
    piece
}

pub open spec fn byte_lists(lists: Seq<Vec<u8>>) -> Seq<Seq<u8>> {
    Seq::new(lists.len(), |i: int| lists[i]@)
}

proof fn lemma_entry_end(bytes: Seq<u8>, i: int)
    requires
        0 <= i <= bytes.len(),
    ensures
        i <= entry_end(bytes, i) <= bytes.len(),
    decreases bytes.len() - i,
{
    if i < bytes.len() && bytes[i] != 0 {
        lemma_entry_end(bytes, i + 1);
    }
}

fn split_entries(bytes: &Vec<u8>) -> (all: Vec<Vec<u8>>)
    ensures
        byte_lists(all@) == entries(bytes@),
{
    let mut all: Vec<Vec<u8>> = Vec::new();
    let mut start: usize = 0;
    let mut i: usize = 0;
    proof {
        assert(bytes@.skip(0) =~= bytes@);
        assert(byte_lists(all@) + entries(bytes@.skip(0)) =~= entries(bytes@));
    }
    while i < bytes.len()
        invariant
            start <= i <= bytes.len(),
            byte_lists(all@) + entries(bytes@.skip(start as int)) == entries(bytes@),
            entry_end(bytes@.skip(start as int), 0) == entry_end(
                bytes@.skip(start as int),
                i - start,
            ),
        decreases bytes.len() - i,
    {
        let ghost rest = bytes@.skip(start as int);
        assert(rest[i - start] == bytes@[i as int]);
        if bytes[i] == 0 {
            let ghost before = byte_lists(all@);
            all.push(part(bytes, start, i));
            proof {
                assert(entry_end(rest, 0) == i - start);
                assert(rest.take(i - start) =~= bytes@.subrange(start as int, i as int));
                assert(rest.skip(i - start + 1) =~= bytes@.skip(i + 1));
                assert(byte_lists(all@) =~= before.push(rest.take(i - start)));
                assert(byte_lists(all@) + entries(bytes@.skip(i + 1)) =~= before + entries(rest));
            }
            start = i + 1;
        }
        i = i + 1;
    }
    let ghost before = byte_lists(all@);
    all.push(part(bytes, start, bytes.len()));
    proof {
        let rest = bytes@.skip(start as int);
        lemma_entry_end(rest, 0);
        assert(entry_end(rest, i - start) == i - start);
        assert(entries(rest) =~= seq![rest]);
        assert(bytes@.subrange(start as int, bytes@.len() as int) =~= rest);
        assert(byte_lists(all@) =~= before.push(rest));
        assert(byte_lists(all@) =~= before + entries(rest));
    }
    all
}

/// The paths that the status of a working tree reports as changed.
pub fn parse_changed_paths(output: &Vec<u8>) -> (paths: Vec<String>)
    ensures
        strings(paths@) == paths_from(entries(output@), 0),
{
    let all = split_entries(output);
    let ghost list = entries(output@);
    let mut paths: Vec<String> = Vec::new();
    let mut i: usize = 0;
    assert(strings(paths@) + paths_from(list, 0) =~= paths_from(list, 0));
    while i < all.len()
        invariant
            i <= all.len(),
            byte_lists(all@) == list,
            strings(paths@) + paths_from(list, i as int) == paths_from(list, 0),
        decreases all.len() - i,
    {
        let entry = &all[i];
        assert(list[i as int] == entry@);
        if entry.len() < 4 {
            i = i + 1;
        } else {
            let path = part(entry, 3, entry.len());
            assert(path@ =~= entry@.skip(3));
            let ghost before = strings(paths@);
            paths.push(decode_lossy(&path));
            let origin = entry[0] == 82 || entry[0] == 67 || entry[1] == 82 || entry[1] == 67;
            let next: usize = if origin && all.len() - i > 1 {
                i + 2
            } else {
                i + 1
            };
            proof {
                assert(paths_from(list, i + 2) == paths_from(list, next as int) || !origin);
                assert(strings(paths@) + paths_from(list, next as int) =~= before + paths_from(
                    list,
                    i as int,
                ));
            }
            i = next;
        }
    }
    assert(paths_from(list, i as int) =~= Seq::empty());
    assert(strings(paths@) =~= paths_from(list, 0));
    paths
}

} // verus!
