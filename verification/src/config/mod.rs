//! Configuration files of `key value` lines: the client's and the tracker's.
//!
//! A line holds exactly one space; what stands before it, trimmed of white space, is the key,
//! and what stands after it, trimmed, the value. A later line with the same key overrides an
//! earlier one.

pub mod client;
pub mod tracker;

use vstd::prelude::*;

verus! {

/// What went wrong with a configuration, as a value: the number that a configuration holds
/// is the client's port or the tracker's number of threads.
pub enum ConfigFailure {
    FileNotFound,
    BadSize,
    NotANumber,
    MissingNumber,
    BadLine,
    InvalidFormat,
    MissingPath(Seq<char>),
}

/// Whether a character has the Unicode property White_Space, by which `str::trim` trims.
pub open spec fn spec_is_white_space(c: char) -> bool {
    let u = c as u32;
    ||| 0x9 <= u <= 0xD
    ||| u == 0x20
    ||| u == 0x85
    ||| u == 0xA0
    ||| u == 0x1680
    ||| 0x2000 <= u <= 0x200A
    ||| u == 0x2028
    ||| u == 0x2029
    ||| u == 0x202F
    ||| u == 0x205F
    ||| u == 0x3000
}

/// A text without its leading white space.
pub open spec fn spec_trim_start(s: Seq<char>) -> Seq<char>
    decreases s.len(),
{
    if s.len() > 0 && spec_is_white_space(s[0]) {
        spec_trim_start(s.drop_first())
    } else {
        s
    }
}

/// A text without its trailing white space.
pub open spec fn spec_trim_end(s: Seq<char>) -> Seq<char>
    decreases s.len(),
{
    if s.len() > 0 && spec_is_white_space(s.last()) {
        spec_trim_end(s.drop_last())
    } else {
        s
    }
}

/// What `str::trim` gives back for a text: the text without its leading and trailing white
/// space.
pub open spec fn spec_trim(s: Seq<char>) -> Seq<char> {
    spec_trim_end(spec_trim_start(s))
}

/// Calls `str::trim`, which removes the leading and trailing characters that Unicode calls
/// White_Space, and copies the result into a `String`.
#[verifier::external_body]
fn trim_text(s: &str) -> (res: String)
    ensures
        res@ == spec_trim(s@),
{
    s.trim().to_string()
}

/// The number of spaces in a text.
pub open spec fn spec_space_count(s: Seq<char>) -> nat
    decreases s.len(),
{
    if s.len() == 0 {
        0
    } else {
        spec_space_count(s.drop_last()) + if s.last() == ' ' {
            1nat
        } else {
            0nat
        }
    }
}

/// The position of the last space of a text, or -1 where it holds none.
pub open spec fn spec_last_space(s: Seq<char>) -> int
    decreases s.len(),
{
    if s.len() == 0 {
        -1
    } else if s.last() == ' ' {
        s.len() - 1
    } else {
        spec_last_space(s.drop_last())
    }
}

/// The key and the value of a configuration line, where it holds exactly one space.
pub open spec fn spec_parse_line(line: Seq<char>) -> Option<(Seq<char>, Seq<char>)> {
    if spec_space_count(line) == 1 {
        let k = spec_last_space(line);
        Some((spec_trim(line.take(k)), spec_trim(line.skip(k + 1))))
    } else {
        None
    }
}

/// Whether every line is a `key value` line.
pub open spec fn spec_lines_well_formed(lines: Seq<Seq<char>>) -> bool {
    forall|i: int| 0 <= i < lines.len() ==> (#[trigger] spec_parse_line(lines[i])) is Some
}

/// The keys and values of well formed lines, in the order of the lines.
pub open spec fn spec_entries(lines: Seq<Seq<char>>) -> Seq<(Seq<char>, Seq<char>)> {
    Seq::new(lines.len(), |i: int| spec_parse_line(lines[i])->0)
}

/// The value of the last entry with the given key.
pub open spec fn spec_lookup(entries: Seq<(Seq<char>, Seq<char>)>, key: Seq<char>) -> Option<Seq<char>>
    decreases entries.len(),
{
    if entries.len() == 0 {
        None
    } else if entries.last().0 == key {
        Some(entries.last().1)
    } else {
        spec_lookup(entries.drop_last(), key)
    }
}

/// The texts of lines.
pub open spec fn spec_texts(lines: Seq<String>) -> Seq<Seq<char>> {
    lines.map_values(|l: String| l@)
}

/// Splits a configuration line into its key and its value; `None` where the line does not
/// hold exactly one space.
pub fn parse_config_line(line: &str) -> (res: Option<(String, String)>)
    ensures
        match spec_parse_line(line@) {
            Some((k, v)) => res matches Some((rk, rv)) && rk@ == k && rv@ == v,
            None => res is None,
        },
{
    let n = line.unicode_len();
    let mut count: usize = 0;
    let mut pos: usize = 0;
    let mut i: usize = 0;
    while i < n
        invariant
            n == line@.len(),
            0 <= i <= n,
            count == spec_space_count(line@.take(i as int)),
            count > 0 ==> pos == spec_last_space(line@.take(i as int)),
            count > 0 ==> pos < i,
            count == 0 ==> spec_last_space(line@.take(i as int)) == -1,
            count <= i,
        decreases n - i,
    {
        assert(line@.take(i + 1).drop_last() =~= line@.take(i as int));
        if line.get_char(i) == ' ' {
            count = count + 1;
            pos = i;
        }
        i = i + 1;
    }
    assert(line@.take(n as int) =~= line@);
    if count != 1 {
        return None;
    }
    let key = trim_text(line.substring_char(0, pos));
    let value = trim_text(line.substring_char(pos + 1, n));
    assert(line@.subrange(0, pos as int) =~= line@.take(pos as int));
    assert(line@.subrange(pos + 1, n as int) =~= line@.skip(pos + 1));
    Some((key, value))
}

/// Splits every line into its key and value; `None` where a line is not a `key value` line.
pub fn parse_config_lines(lines: &Vec<String>) -> (res: Option<Vec<(String, String)>>)
    ensures
        spec_lines_well_formed(spec_texts(lines@)) <==> res is Some,
        res matches Some(entries) ==> entries@.len() == lines@.len() && forall|i: int|
            0 <= i < lines@.len() ==> (#[trigger] entries@[i]).0@ == spec_entries(spec_texts(lines@))[i].0
                && entries@[i].1@ == spec_entries(spec_texts(lines@))[i].1,
{
    let ghost texts = spec_texts(lines@);
    let mut out: Vec<(String, String)> = Vec::new();
    let mut i: usize = 0;
    while i < lines.len()
        invariant
            texts == spec_texts(lines@),
            0 <= i <= lines@.len(),
            out@.len() == i,
            forall|j: int| 0 <= j < i ==> (#[trigger] spec_parse_line(texts[j])) is Some,
            forall|j: int|
                0 <= j < i ==> (#[trigger] out@[j]).0@ == spec_entries(texts)[j].0 && out@[j].1@
                    == spec_entries(texts)[j].1,
        decreases lines@.len() - i,
    {
        assert(texts[i as int] == lines@[i as int]@);
        match parse_config_line(lines[i].as_str()) {
            Some(entry) => {
                out.push(entry);
            },
            None => {
                assert(spec_parse_line(texts[i as int]) is None);
                return None;
            },
        }
        i = i + 1;
    }
    Some(out)
}

/// The value of the last entry with the given key.
pub fn lookup_entry(entries: &Vec<(String, String)>, key: &str) -> (res: Option<String>)
    ensures
        match spec_lookup(entries@.map_values(|e: (String, String)| (e.0@, e.1@)), key@) {
            Some(v) => res matches Some(r) && r@ == v,
            None => res is None,
        },
{
    let ghost model = entries@.map_values(|e: (String, String)| (e.0@, e.1@));
    let wanted = String::from_str(key);
    let mut i: usize = entries.len();
    assert(model.take(i as int) =~= model);
    while i > 0
        invariant
            model == entries@.map_values(|e: (String, String)| (e.0@, e.1@)),
            0 <= i <= entries@.len(),
            wanted@ == key@,
            spec_lookup(model, key@) == spec_lookup(model.take(i as int), key@),
        decreases i,
    {
        assert(model.take(i as int).drop_last() =~= model.take(i - 1));
        if entries[i - 1].0 == wanted {
            return Some(entries[i - 1].1.clone());
        }
        i = i - 1;
    }
    None
}

} // verus!
