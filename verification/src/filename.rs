//! Decoding of dated post filenames of the form `YYYY-MM-DD-rest`: the first
//! three dash-separated fields are the date, and everything after the third
//! dash — dashes included — is the remainder that names the post.

use vstd::prelude::*;
use vstd::string::*;

use crate::strutil::find_from;
use crate::strutil::find_char;
use crate::strutil::rfind_from;
use crate::strutil::rfind_char;
use crate::strutil::lemma_find_from_some;

verus! {

/// The four parts of a decoded filename, as character sequences.
pub struct NameParts {
    pub year: Seq<char>,
    pub month: Seq<char>,
    pub day: Seq<char>,
    pub rest: Seq<char>,
}

/// What decoding a filename yields: the text before the first dash, between
/// the first and second, between the second and third, and everything after
/// the third; or nothing when fewer than four fields are present.
pub open spec fn decode_name(s: Seq<char>) -> Option<NameParts> {
    match find_from(s, '-', 0) {
        None => None,
        Some(i1) => match find_from(s, '-', i1 + 1) {
            None => None,
            Some(i2) => match find_from(s, '-', i2 + 1) {
                None => None,
                Some(i3) => Some(
                    NameParts {
                        year: s.subrange(0, i1),
                        month: s.subrange(i1 + 1, i2),
                        day: s.subrange(i2 + 1, i3),
                        rest: s.subrange(i3 + 1, s.len() as int),
                    },
                ),
            },
        },
    }
}

/// Why a filename failed to decode.
#[derive(Debug, PartialEq, Eq, Clone, Copy)]
pub enum FilenameError {
    /// Fewer than four dash-separated fields.
    TooFewSegments,
}

/// Decode a filename into `(year, month, day, rest)` exactly as `decode_name`
/// describes: the three date fields keep their text verbatim, and the rest is
/// not split further even when it contains dashes.
pub fn decode_filename(name: &str) -> (r: Result<(String, String, String, String), FilenameError>)
    ensures
        match r {
            Ok(p) => decode_name(name@) == Some(
                NameParts { year: p.0@, month: p.1@, day: p.2@, rest: p.3@ },
            ),
            Err(_) => decode_name(name@) is None,
        },
{
    let n = name.unicode_len();
    let i1 = match find_char(name, '-', 0) {
        Some(i) => i,
        None => {
            return Err(FilenameError::TooFewSegments);
        },
    };
    let i2 = match find_char(name, '-', i1 + 1) {
        Some(i) => i,
        None => {
            return Err(FilenameError::TooFewSegments);
        },
    };
    let i3 = match find_char(name, '-', i2 + 1) {
        Some(i) => i,
        None => {
            return Err(FilenameError::TooFewSegments);
        },
    };
    let year = String::from_str(name.substring_char(0, i1));
    let month = String::from_str(name.substring_char(i1 + 1, i2));
    let day = String::from_str(name.substring_char(i2 + 1, i3));
    let rest = String::from_str(name.substring_char(i3 + 1, n));
    Ok((year, month, day, rest))
}

/// The remainder with its final `.extension` removed: cut at the last dot,
/// unless that dot starts the name or there is none.
pub open spec fn strip_extension(s: Seq<char>) -> Seq<char> {
    match rfind_from(s, '.', s.len() - 1) {
        Some(j) => if j >= 1 {
            s.subrange(0, j)
        } else {
            s
        },
        None => s,
    }
}

/// Executable counterpart of `strip_extension`.
pub fn strip_ext(name: &str) -> (r: String)
    ensures
        r@ == strip_extension(name@),
{
    match rfind_char(name, '.') {
        Some(j) => {
            if j >= 1 {
                String::from_str(name.substring_char(0, j))
            } else {
                String::from_str(name)
            }
        },
        None => String::from_str(name),
    }
}

/// Number of occurrences of `c` in `s` at positions `>= from`.
pub open spec fn count_from(s: Seq<char>, c: char, from: int) -> nat
    decreases s.len() - from,
{
    if from < 0 || from >= s.len() {
        0
    } else if s[from] == c {
        1 + count_from(s, c, from + 1)
    } else {
        count_from(s, c, from + 1)
    }
}

proof fn lemma_count_after_none(s: Seq<char>, c: char, from: int)
    requires
        find_from(s, c, from) is None,
    ensures
        count_from(s, c, from) == 0,
    decreases s.len() - from,
{
    if 0 <= from && from < s.len() {
        lemma_count_after_none(s, c, from + 1);
    }
}

proof fn lemma_count_after_some(s: Seq<char>, c: char, from: int, i: int)
    requires
        0 <= from,
        find_from(s, c, from) == Some(i),
    ensures
        from <= i < s.len(),
        count_from(s, c, from) == 1 + count_from(s, c, i + 1),
    decreases s.len() - from,
{
    if from < s.len() && s[from] != c {
        lemma_count_after_some(s, c, from + 1, i);
    }
}

/// A filename decodes exactly when it holds at least three dashes, that is,
/// at least four dash-separated fields.
pub proof fn lemma_decode_iff_three_dashes(s: Seq<char>)
    ensures
        decode_name(s) is Some <==> count_from(s, '-', 0) >= 3,
{
    match find_from(s, '-', 0) {
        None => {
            lemma_count_after_none(s, '-', 0);
        },
        Some(i1) => {
            lemma_count_after_some(s, '-', 0, i1);
            match find_from(s, '-', i1 + 1) {
                None => {
                    lemma_count_after_none(s, '-', i1 + 1);
                },
                Some(i2) => {
                    lemma_count_after_some(s, '-', i1 + 1, i2);
                    match find_from(s, '-', i2 + 1) {
                        None => {
                            lemma_count_after_none(s, '-', i2 + 1);
                        },
                        Some(i3) => {
                            lemma_count_after_some(s, '-', i2 + 1, i3);
                        },
                    }
                },
            }
        },
    }
}

/// Decoding undoes assembly: a name built as `year-month-day-rest` comes back
/// apart into exactly those four parts, so long as the three date fields are
/// dash-free; the rest may hold any characters, dashes included.
pub proof fn lemma_decode_roundtrip(year: Seq<char>, month: Seq<char>, day: Seq<char>, rest: Seq<char>)
    requires
        forall|j: int| 0 <= j < year.len() ==> year[j] != '-',
        forall|j: int| 0 <= j < month.len() ==> month[j] != '-',
        forall|j: int| 0 <= j < day.len() ==> day[j] != '-',
    ensures
        decode_name(year + seq!['-'] + month + seq!['-'] + day + seq!['-'] + rest) matches Some(p)
            && p.year == year && p.month == month && p.day == day && p.rest == rest,
{
    let s = year + seq!['-'] + month + seq!['-'] + day + seq!['-'] + rest;
    let i1 = year.len() as int;
    let i2 = i1 + 1 + month.len() as int;
    let i3 = i2 + 1 + day.len() as int;
    assert forall|j: int| 0 <= j < i1 implies s[j] != '-' by {
        assert(s[j] == year[j]);
    }
    assert(s[i1] == '-');
    lemma_find_from_some(s, '-', 0, i1);
    assert forall|j: int| i1 + 1 <= j < i2 implies s[j] != '-' by {
        assert(s[j] == month[j - (i1 + 1)]);
    }
    assert(s[i2] == '-');
    lemma_find_from_some(s, '-', i1 + 1, i2);
    assert forall|j: int| i2 + 1 <= j < i3 implies s[j] != '-' by {
        assert(s[j] == day[j - (i2 + 1)]);
    }
    assert(s[i3] == '-');
    lemma_find_from_some(s, '-', i2 + 1, i3);
    let p = decode_name(s)->Some_0;
    assert(p.year =~= year);
    assert(p.month =~= month);
    assert(p.day =~= day);
    assert(p.rest =~= rest);
}

} // verus!
