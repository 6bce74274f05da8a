//! The post header: a block at the top of a post's text, opened by `---` and
//! a newline, closed by the next `---`, holding exactly a `title` and an
//! `author` field, one `key: value` line each.

use vstd::prelude::*;
use vstd::string::*;

use crate::strutil::find_from;
use crate::strutil::find_char;
use crate::strutil::eq_str;
use crate::strutil::lemma_find_from_some;
use crate::strutil::lemma_find_from_none;
use crate::strutil::lemma_find_from_props;

verus! {

/// The four characters every post must begin with: three dashes, a newline.
pub open spec fn open_marker() -> Seq<char> {
    seq!['-', '-', '-', '\n']
}

/// The `title` field's key.
pub open spec fn title_key() -> Seq<char> {
    seq!['t', 'i', 't', 'l', 'e']
}

/// The `author` field's key.
pub open spec fn author_key() -> Seq<char> {
    seq!['a', 'u', 't', 'h', 'o', 'r']
}

/// Three consecutive dashes start at index `i`.
pub open spec fn marker_at(s: Seq<char>, i: int) -> bool {
    &&& 0 <= i
    &&& i + 3 <= s.len()
    &&& s[i] == '-'
    &&& s[i + 1] == '-'
    &&& s[i + 2] == '-'
}

/// First index `i >= from` where three consecutive dashes start, if any.
pub open spec fn find_marker_from(s: Seq<char>, from: int) -> Option<int>
    decreases s.len() - from,
{
    if from < 0 || from + 3 > s.len() {
        None
    } else if marker_at(s, from) {
        Some(from)
    } else {
        find_marker_from(s, from + 1)
    }
}

pub proof fn lemma_find_marker_none(s: Seq<char>, from: int)
    requires
        forall|j: int| from <= j ==> !marker_at(s, j),
    ensures
        find_marker_from(s, from) is None,
    decreases s.len() - from,
{
    if 0 <= from && from + 3 <= s.len() {
        lemma_find_marker_none(s, from + 1);
    }
}

pub proof fn lemma_find_marker_some(s: Seq<char>, from: int, i: int)
    requires
        0 <= from <= i,
        marker_at(s, i),
        forall|j: int| from <= j < i ==> !marker_at(s, j),
    ensures
        find_marker_from(s, from) == Some(i),
    decreases i - from,
{
    if from < i {
        lemma_find_marker_some(s, from + 1, i);
    }
}

/// `s` cut at every newline; a trailing newline yields a final empty line.
pub open spec fn split_lines(s: Seq<char>) -> Seq<Seq<char>>
    decreases s.len() via split_lines_decreases
{
    match find_from(s, '\n', 0) {
        None => seq![s],
        Some(i) => seq![s.subrange(0, i)] + split_lines(s.subrange(i + 1, s.len() as int)),
    }
}

#[via_fn]
proof fn split_lines_decreases(s: Seq<char>) {
    lemma_find_from_props(s, '\n', 0);
}

/// A header line `key: value`: the key runs to the first colon, which must be
/// followed by one space; the value is the rest of the line, verbatim.
pub open spec fn parse_line(l: Seq<char>) -> Option<(Seq<char>, Seq<char>)> {
    match find_from(l, ':', 0) {
        None => None,
        Some(c) => if c + 1 < l.len() && l[c + 1] == ' ' {
            Some((l.subrange(0, c), l.subrange(c + 2, l.len() as int)))
        } else {
            None
        },
    }
}

/// Why a header failed to parse.
pub enum HeaderErr {
    /// The text does not begin with three dashes and a newline.
    OpenMarkerMissing,
    /// No three consecutive dashes follow the opening marker.
    CloseMarkerMissing,
    /// A non-empty header line is not of the form `key: value`.
    MalformedLine(Seq<char>),
    /// A key other than `title` or `author`.
    UnknownField(Seq<char>),
    /// A key given twice.
    DuplicateField(Seq<char>),
    /// `title` or `author` never given.
    MissingField(Seq<char>),
}

/// Fold the header's lines into its two fields: empty lines are skipped, each
/// other line must bind `title` or `author` exactly once, and both must be
/// bound by the end.
pub open spec fn parse_fields(
    lines: Seq<Seq<char>>,
    t: Option<Seq<char>>,
    a: Option<Seq<char>>,
) -> Result<(Seq<char>, Seq<char>), HeaderErr>
    decreases lines.len(),
{
    if lines.len() == 0 {
        if t is None {
            Err(HeaderErr::MissingField(title_key()))
        } else if a is None {
            Err(HeaderErr::MissingField(author_key()))
        } else {
            Ok((t->Some_0, a->Some_0))
        }
    } else if lines[0].len() == 0 {
        parse_fields(lines.drop_first(), t, a)
    } else {
        match parse_line(lines[0]) {
            None => Err(HeaderErr::MalformedLine(lines[0])),
            Some((k, v)) => if k == title_key() {
                if t is Some {
                    Err(HeaderErr::DuplicateField(k))
                } else {
                    parse_fields(lines.drop_first(), Some(v), a)
                }
            } else if k == author_key() {
                if a is Some {
                    Err(HeaderErr::DuplicateField(k))
                } else {
                    parse_fields(lines.drop_first(), t, Some(v))
                }
            } else {
                Err(HeaderErr::UnknownField(k))
            },
        }
    }
}

/// First index `>= from` whose character is not a newline, or the text's end.
pub open spec fn skip_newlines(s: Seq<char>, from: int) -> int
    decreases s.len() - from,
{
    if from < 0 || from >= s.len() {
        s.len() as int
    } else if s[from] == '\n' {
        skip_newlines(s, from + 1)
    } else {
        from
    }
}

/// A successfully parsed header: the two fields and the index where the body
/// begins (past the closing marker and the blank lines after it).
pub struct HeaderOk {
    pub title: Seq<char>,
    pub author: Seq<char>,
    pub body_start: int,
}

/// What parsing the header of `text` yields: the opening marker is required,
/// the closing marker is the first three dashes after it, the block between
/// them must bind exactly `title` and `author`, and the body starts at the
/// first character after the closing marker's line and any blank lines.
pub open spec fn header_of(text: Seq<char>) -> Result<HeaderOk, HeaderErr> {
    if !(text.len() >= 4 && text.subrange(0, 4) == open_marker()) {
        Err(HeaderErr::OpenMarkerMissing)
    } else {
        match find_marker_from(text, 4) {
            None => Err(HeaderErr::CloseMarkerMissing),
            Some(e) => match parse_fields(split_lines(text.subrange(4, e)), None, None) {
                Err(h) => Err(h),
                Ok((t, a)) => Ok(
                    HeaderOk { title: t, author: a, body_start: skip_newlines(text, e + 3) },
                ),
            },
        }
    }
}

/// Why a header failed to parse, with the offending text.
#[derive(Debug, PartialEq, Eq, Clone)]
pub enum HeaderError {
    OpenMarkerMissing,
    CloseMarkerMissing,
    MalformedLine(String),
    UnknownField(String),
    DuplicateField(String),
    MissingField(String),
}

impl View for HeaderError {
    type V = HeaderErr;

    open spec fn view(&self) -> HeaderErr {
        match self {
            HeaderError::OpenMarkerMissing => HeaderErr::OpenMarkerMissing,
            HeaderError::CloseMarkerMissing => HeaderErr::CloseMarkerMissing,
            HeaderError::MalformedLine(l) => HeaderErr::MalformedLine(l@),
            HeaderError::UnknownField(k) => HeaderErr::UnknownField(k@),
            HeaderError::DuplicateField(k) => HeaderErr::DuplicateField(k@),
            HeaderError::MissingField(k) => HeaderErr::MissingField(k@),
        }
    }
}

/// Executable counterpart of `find_marker_from`.
fn find_marker(text: &str, from: usize) -> (r: Option<usize>)
    requires
        from <= text@.len(),
    ensures
        match r {
            Some(i) => find_marker_from(text@, from as int) == Some(i as int) && marker_at(
                text@,
                i as int,
            ) && from <= i,
            None => find_marker_from(text@, from as int) is None,
        },
{
    let n = text.unicode_len();
    let mut i: usize = from;
    while n >= 3 && i <= n - 3
        invariant
            from <= i,
            i <= n,
            n == text@.len(),
            forall|j: int| from <= j < i ==> !marker_at(text@, j),
        decreases n - i,
    {
        if text.get_char(i) == '-' && text.get_char(i + 1) == '-' && text.get_char(i + 2) == '-' {
            proof {
                lemma_find_marker_some(text@, from as int, i as int);
            }
            return Some(i);
        }
        assert(!marker_at(text@, i as int));
        i = i + 1;
    }
    proof {
        assert(forall|j: int| from <= j ==> !marker_at(text@, j)) by {
            assert(forall|j: int| i <= j ==> j + 3 > n ==> !marker_at(text@, j));
        }
        lemma_find_marker_none(text@, from as int);
    }
    None
}

/// Executable counterpart of `split_lines`.
fn split_into_lines(doc: &str) -> (r: Vec<String>)
    ensures
        r.deep_view() == split_lines(doc@),
{
    let n = doc.unicode_len();
    let mut out: Vec<String> = Vec::new();
    let mut pos: usize = 0;
    let mut done: bool = false;
    proof {
        assert(out.deep_view() =~= Seq::<Seq<char>>::empty());
        assert(doc@.subrange(0, n as int) =~= doc@);
        assert(out.deep_view() + split_lines(doc@) =~= split_lines(doc@));
    }
    while !done
        invariant
            pos <= n,
            n == doc@.len(),
            done ==> out.deep_view() == split_lines(doc@),
            !done ==> out.deep_view() + split_lines(doc@.subrange(pos as int, n as int))
                == split_lines(doc@),
        decreases n - pos + (if done { 0int } else { 1int }),
    {
        let ghost rest = doc@.subrange(pos as int, n as int);
        match find_char(doc, '\n', pos) {
            Some(i) => {
                proof {
                    lemma_find_from_props(doc@, '\n', pos as int);
                    assert forall|j: int| 0 <= j < i - pos implies rest[j] != '\n' by {
                        assert(rest[j] == doc@[pos + j]);
                    }
                    assert(rest[i - pos as int] == '\n');
                    lemma_find_from_some(rest, '\n', 0, i - pos as int);
                    assert(rest.subrange(0, i - pos as int) =~= doc@.subrange(
                        pos as int,
                        i as int,
                    ));
                    assert(rest.subrange(i - pos as int + 1, rest.len() as int) =~= doc@.subrange(
                        i as int + 1,
                        n as int,
                    ));
                }
                out.push(String::from_str(doc.substring_char(pos, i)));
                pos = i + 1;
                proof {
                    assert(out.deep_view() + split_lines(doc@.subrange(pos as int, n as int))
                        =~= split_lines(doc@));
                }
            },
            None => {
                proof {
                    lemma_find_from_props(doc@, '\n', pos as int);
                    assert forall|j: int| 0 <= j < rest.len() implies rest[j] != '\n' by {
                        assert(rest[j] == doc@[pos + j]);
                    }
                    lemma_find_from_none(rest, '\n', 0);
                }
                out.push(String::from_str(doc.substring_char(pos, n)));
                done = true;
                proof {
                    assert(out.deep_view() =~= split_lines(doc@));
                }
            },
        }
    }
    out
}

/// View of an optional field value.
pub open spec fn opt_view(t: Option<String>) -> Option<Seq<char>> {
    match t {
        Some(s) => Some(s@),
        None => None,
    }
}

/// Executable counterpart of `parse_fields`, started with no field bound.
fn parse_fields_exec(lines: Vec<String>) -> (r: Result<(String, String), HeaderError>)
    ensures
        match r {
            Ok(p) => parse_fields(lines.deep_view(), None, None) == Ok::<_, HeaderErr>(
                (p.0@, p.1@),
            ),
            Err(e) => parse_fields(lines.deep_view(), None, None) == Err::<
                (Seq<char>, Seq<char>),
                _,
            >(e@),
        },
{
    let ghost all = lines.deep_view();
    let mut t: Option<String> = None;
    let mut a: Option<String> = None;
    let mut k: usize = 0;
    proof {
        assert(all.skip(0) =~= all);
    }
    while k < lines.len()
        invariant
            k <= lines.len(),
            all == lines.deep_view(),
            parse_fields(all.skip(k as int), opt_view(t), opt_view(a)) == parse_fields(
                all,
                None,
                None,
            ),
        decreases lines.len() - k,
    {
        let ghost pre = all.skip(k as int);
        proof {
            assert(pre[0] == lines[k as int]@);
            assert(pre.drop_first() =~= all.skip(k as int + 1));
        }
        let line = &lines[k];
        if line.as_str().unicode_len() == 0 {
            k = k + 1;
            continue ;
        }
        let (key, value) = match parse_line_exec(line.as_str()) {
            Some(kv) => kv,
            None => {
                return Err(HeaderError::MalformedLine(line.clone()));
            },
        };
        proof {
            reveal_strlit("title");
            reveal_strlit("author");
            assert("title"@ =~= title_key());
            assert("author"@ =~= author_key());
        }
        if eq_str(key.as_str(), "title") {
            if t.is_some() {
                return Err(HeaderError::DuplicateField(key));
            }
            t = Some(value);
        } else if eq_str(key.as_str(), "author") {
            if a.is_some() {
                return Err(HeaderError::DuplicateField(key));
            }
            a = Some(value);
        } else {
            return Err(HeaderError::UnknownField(key));
        }
        k = k + 1;
    }
    proof {
        assert(all.skip(lines.len() as int) =~= Seq::<Seq<char>>::empty());
        reveal_strlit("title");
        reveal_strlit("author");
        assert("title"@ =~= title_key());
        assert("author"@ =~= author_key());
    }
    let tv = match t {
        Some(tv) => tv,
        None => {
            return Err(HeaderError::MissingField(String::from_str("title")));
        },
    };
    let av = match a {
        Some(av) => av,
        None => {
            return Err(HeaderError::MissingField(String::from_str("author")));
        },
    };
    Ok((tv, av))
}

/// Executable counterpart of `parse_line`.
fn parse_line_exec(line: &str) -> (r: Option<(String, String)>)
    ensures
        match r {
            Some(kv) => parse_line(line@) == Some((kv.0@, kv.1@)),
            None => parse_line(line@) is None,
        },
{
    let n = line.unicode_len();
    match find_char(line, ':', 0) {
        None => None,
        Some(c) => {
            if c + 1 < n && line.get_char(c + 1) == ' ' {
                let key = String::from_str(line.substring_char(0, c));
                let value = String::from_str(line.substring_char(c + 2, n));
                Some((key, value))
            } else {
                None
            }
        },
    }
}

/// Parse the header of `text`: its `title`, its `author`, and the index where
/// the body begins, exactly as `header_of` describes.
pub fn parse_header(text: &str) -> (r: Result<(String, String, usize), HeaderError>)
    ensures
        match r {
            Ok(p) => header_of(text@) == Ok::<_, HeaderErr>(
                HeaderOk { title: p.0@, author: p.1@, body_start: p.2 as int },
            ) && p.2 <= text@.len(),
            Err(e) => header_of(text@) == Err::<HeaderOk, HeaderErr>(e@),
        },
{
    let n = text.unicode_len();
    proof {
        reveal_strlit("-");
        reveal_strlit("\n");
    }
    if n < 4 || text.get_char(0) != '-' || text.get_char(1) != '-' || text.get_char(2) != '-'
        || text.get_char(3) != '\n' {
        proof {
            if text@.len() >= 4 && text@.subrange(0, 4) == open_marker() {
                assert(text@[0] == open_marker()[0]);
                assert(text@[1] == open_marker()[1]);
                assert(text@[2] == open_marker()[2]);
                assert(text@[3] == open_marker()[3]);
            }
        }
        return Err(HeaderError::OpenMarkerMissing);
    }
    proof {
        assert(text@.subrange(0, 4) =~= open_marker());
    }
    let e = match find_marker(text, 4) {
        Some(e) => e,
        None => {
            return Err(HeaderError::CloseMarkerMissing);
        },
    };
    let doc = text.substring_char(4, e);
    let lines = split_into_lines(doc);
    let (title, author) = match parse_fields_exec(lines) {
        Ok(p) => p,
        Err(err) => {
            return Err(err);
        },
    };
    let mut b: usize = e + 3;
    while b < n && text.get_char(b) == '\n'
        invariant
            e + 3 <= b <= n,
            n == text@.len(),
            skip_newlines(text@, e + 3) == skip_newlines(text@, b as int),
        decreases n - b,
    {
        b = b + 1;
    }
    Ok((title, author, b))
}

/// A header whose lines bind a key other than `title` or `author` never
/// parses: the schema is closed, and a third field is refused rather than
/// ignored.
pub proof fn lemma_unknown_field_fails(
    lines: Seq<Seq<char>>,
    t: Option<Seq<char>>,
    a: Option<Seq<char>>,
    i: int,
)
    requires
        0 <= i < lines.len(),
        parse_line(lines[i]) matches Some(kv) && kv.0 != title_key() && kv.0 != author_key(),
        lines[i].len() > 0,
    ensures
        parse_fields(lines, t, a) is Err,
    decreases lines.len(),
{
    if i > 0 {
        if lines[0].len() == 0 {
            lemma_unknown_field_fails(lines.drop_first(), t, a, i - 1);
        } else {
            match parse_line(lines[0]) {
                None => {},
                Some((k, v)) => {
                    if k == title_key() {
                        if t is None {
                            lemma_unknown_field_fails(lines.drop_first(), Some(v), a, i - 1);
                        }
                    } else if k == author_key() {
                        if a is None {
                            lemma_unknown_field_fails(lines.drop_first(), t, Some(v), i - 1);
                        }
                    }
                },
            }
        }
    }
}

/// A header that never binds `author` never parses: a missing field is an
/// error, not a default.
pub proof fn lemma_missing_author_fails(lines: Seq<Seq<char>>, t: Option<Seq<char>>)
    requires
        forall|i: int|
            0 <= i < lines.len() ==> !(#[trigger] parse_line(lines[i]) matches Some(kv) && kv.0
                == author_key()),
    ensures
        parse_fields(lines, t, None) is Err,
    decreases lines.len(),
{
    if lines.len() > 0 {
        if lines[0].len() == 0 {
            lemma_missing_author_fails(lines.drop_first(), t);
        } else {
            match parse_line(lines[0]) {
                None => {},
                Some((k, v)) => {
                    if k == title_key() && t is None {
                        lemma_missing_author_fails(lines.drop_first(), Some(v));
                    }
                },
            }
        }
    }
}

/// `title: `, the text that opens the title's line.
pub open spec fn title_prefix() -> Seq<char> {
    seq!['t', 'i', 't', 'l', 'e', ':', ' ']
}

/// `author: `, the text that opens the author's line.
pub open spec fn author_prefix() -> Seq<char> {
    seq!['a', 'u', 't', 'h', 'o', 'r', ':', ' ']
}

/// The canonical header block for the given fields.
pub open spec fn doc_of(title: Seq<char>, author: Seq<char>) -> Seq<char> {
    title_prefix() + title + seq!['\n'] + author_prefix() + author + seq!['\n']
}

/// A whole post text assembled from fields and body: opening marker, header
/// block, closing marker, one blank line, body.
pub open spec fn headered(title: Seq<char>, author: Seq<char>, body: Seq<char>) -> Seq<char> {
    open_marker() + doc_of(title, author) + seq!['-', '-', '-', '\n', '\n'] + body
}

/// Parsing undoes assembly: a text built from a title, an author and a body
/// parses back into exactly those fields, and the body handed on for
/// conversion is exactly the one put in. The fields must be newline-free and
/// hold no three consecutive dashes (which would be read as the closing
/// marker), and the body must not begin with a newline of its own.
#[verifier::rlimit(100)]
pub proof fn lemma_header_roundtrip(title: Seq<char>, author: Seq<char>, body: Seq<char>)
    requires
        forall|j: int| 0 <= j < title.len() ==> title[j] != '\n',
        forall|j: int| 0 <= j < author.len() ==> author[j] != '\n',
        forall|j: int|
            0 <= j && j + 3 <= title.len() ==> !(#[trigger] title[j] == '-' && title[j + 1] == '-'
                && title[j + 2] == '-'),
        forall|j: int|
            0 <= j && j + 3 <= author.len() ==> !(#[trigger] author[j] == '-' && author[j + 1]
                == '-' && author[j + 2] == '-'),
        body.len() > 0 ==> body[0] != '\n',
    ensures
        header_of(headered(title, author, body)) matches Ok(h) && h.title == title && h.author
            == author && h.body_start == headered(title, author, body).len() - body.len()
            && headered(title, author, body).subrange(
            h.body_start,
            headered(title, author, body).len() as int,
        ) == body,
{
    let text = headered(title, author, body);
    let doc = doc_of(title, author);
    let tl = title.len() as int;
    let al = author.len() as int;
    let e = 4 + doc.len() as int;
    assert(doc.len() == 17 + tl + al);
    assert(text.len() == e + 5 + body.len());

    // The opening marker is in place.
    assert(text.subrange(0, 4) =~= open_marker());

    // The closing marker stands at e, and nowhere earlier past the opening.
    assert(marker_at(text, e));
    assert forall|j: int| 4 <= j < e implies !marker_at(text, j) by {
        if marker_at(text, j) {
            if j < 11 {
                assert(text[j] == title_prefix()[j - 4]);
                assert(text[j] != '-');
            } else if j < 11 + tl {
                if j + 2 < 11 + tl {
                    assert(text[j] == title[j - 11]);
                    assert(text[j + 1] == title[j - 10]);
                    assert(text[j + 2] == title[j - 9]);
                } else if j + 1 == 11 + tl {
                    assert(text[j + 1] == '\n');
                } else {
                    assert(text[j + 2] == '\n');
                }
            } else if j == 11 + tl {
                assert(text[j] == '\n');
            } else if j < 20 + tl {
                assert(text[j] == author_prefix()[j - 12 - tl]);
                assert(text[j] != '-');
            } else if j < 20 + tl + al {
                if j + 2 < 20 + tl + al {
                    assert(text[j] == author[j - 20 - tl]);
                    assert(text[j + 1] == author[j - 19 - tl]);
                    assert(text[j + 2] == author[j - 18 - tl]);
                } else if j + 1 == 20 + tl + al {
                    assert(text[j + 1] == '\n');
                } else {
                    assert(text[j + 2] == '\n');
                }
            } else {
                assert(j == e - 1);
                assert(text[j] == '\n');
            }
        }
    }
    lemma_find_marker_some(text, 4, e);

    // The block between the markers is the canonical header block.
    assert(text.subrange(4, e) =~= doc);

    // The block splits into the title line, the author line, and the empty
    // line its trailing newline leaves.
    let l1 = title_prefix() + title;
    let l2 = author_prefix() + author;
    assert forall|j: int| 0 <= j < 7 + tl implies doc[j] != '\n' by {
        if j < 7 {
            assert(doc[j] == title_prefix()[j]);
        } else {
            assert(doc[j] == title[j - 7]);
        }
    }
    assert(doc[7 + tl] == '\n');
    lemma_find_from_some(doc, '\n', 0, 7 + tl);
    let rest1 = doc.subrange(8 + tl, doc.len() as int);
    assert(doc.subrange(0, 7 + tl) =~= l1);
    assert(rest1.len() == 9 + al);
    assert forall|j: int| 0 <= j < 8 + al implies rest1[j] != '\n' by {
        assert(rest1[j] == doc[8 + tl + j]);
        if j < 8 {
            assert(doc[8 + tl + j] == author_prefix()[j]);
        } else {
            assert(doc[8 + tl + j] == author[j - 8]);
        }
    }
    assert(rest1[8 + al] == doc[16 + tl + al]);
    assert(rest1[8 + al] == '\n');
    lemma_find_from_some(rest1, '\n', 0, 8 + al);
    let rest2 = rest1.subrange(9 + al, rest1.len() as int);
    assert(rest1.subrange(0, 8 + al) =~= l2);
    assert(rest2 =~= Seq::<char>::empty());
    lemma_find_from_none(rest2, '\n', 0);
    assert(split_lines(rest2) == seq![rest2]);
    assert(split_lines(rest1) == seq![rest1.subrange(0, 8 + al)] + split_lines(rest2));
    assert(split_lines(doc) == seq![doc.subrange(0, 7 + tl)] + split_lines(rest1));
    assert(split_lines(doc) =~= seq![l1, l2, rest2]);

    // The title line binds `title`, the author line `author`.
    assert forall|j: int| 0 <= j < 5 implies l1[j] != ':' by {
        assert(l1[j] == title_prefix()[j]);
    }
    assert(l1[5] == ':');
    lemma_find_from_some(l1, ':', 0, 5);
    assert(l1[6] == ' ');
    assert(l1.subrange(0, 5) =~= title_key());
    assert(l1.subrange(7, l1.len() as int) =~= title);
    assert(parse_line(l1) == Some((title_key(), title)));

    assert forall|j: int| 0 <= j < 6 implies l2[j] != ':' by {
        assert(l2[j] == author_prefix()[j]);
    }
    assert(l2[6] == ':');
    lemma_find_from_some(l2, ':', 0, 6);
    assert(l2[7] == ' ');
    assert(l2.subrange(0, 6) =~= author_key());
    assert(l2.subrange(8, l2.len() as int) =~= author);
    assert(parse_line(l2) == Some((author_key(), author)));

    let lines = seq![l1, l2, rest2];
    assert(l1.len() > 0);
    assert(title_key() != author_key()) by {
        assert(title_key().len() != author_key().len());
    }
    assert(lines.drop_first() =~= seq![l2, rest2]);
    assert(seq![l2, rest2].drop_first() =~= seq![rest2]);
    assert(seq![rest2].drop_first() =~= Seq::<Seq<char>>::empty());
    assert(parse_fields(lines, None, None) == parse_fields(seq![l2, rest2], Some(title), None));
    assert(parse_fields(seq![l2, rest2], Some(title), None) == parse_fields(
        seq![rest2],
        Some(title),
        Some(author),
    ));
    assert(parse_fields(seq![rest2], Some(title), Some(author)) == parse_fields(
        Seq::<Seq<char>>::empty(),
        Some(title),
        Some(author),
    ));
    assert(parse_fields(lines, None, None) == Ok::<_, HeaderErr>((title, author)));

    // The body starts right after the closing marker's line and the one blank
    // line.
    assert(text[e + 3] == '\n');
    assert(text[e + 4] == '\n');
    if body.len() > 0 {
        assert(text[e + 5] == body[0]);
        assert(skip_newlines(text, e + 5) == e + 5);
    } else {
        assert(e + 5 == text.len());
    }
    assert(skip_newlines(text, e + 3) == skip_newlines(text, e + 4));
    assert(skip_newlines(text, e + 4) == skip_newlines(text, e + 5));
    assert(skip_newlines(text, e + 3) == e + 5);
    assert(text.subrange(e + 5, text.len() as int) =~= body);
}

} // verus!
