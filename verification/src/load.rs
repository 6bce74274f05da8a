//! Loading posts: each directory entry's name is decoded, its header parsed,
//! its body converted to HTML, and its URL derived; the collection is then
//! sorted most-recent-first. Any bad entry fails the whole load, with the
//! offending filename attached.

use vstd::prelude::*;
use vstd::string::*;
use vstd::seq_lib::group_to_multiset_ensures;

use crate::filename::decode_name;
use crate::filename::decode_filename;
use crate::filename::strip_extension;
use crate::filename::strip_ext;
use crate::filename::FilenameError;
use crate::header::header_of;
use crate::header::parse_header;
use crate::header::HeaderErr;
use crate::header::HeaderError;
use crate::markdown::markdown_of;
use crate::markdown::markdown_to_html;
use crate::post::Post;
use crate::post::PostV;
use crate::post::url_of;
use crate::post::make_url;
use crate::order::sorted_desc;
use crate::order::sort_posts;

verus! {

/// Why one entry failed to load.
pub enum LoadErrKind {
    /// Its name has fewer than four dash-separated fields.
    BadFilename,
    /// Its text has no well-formed `title`/`author` header.
    BadHeader(HeaderErr),
}

/// Why one entry failed to load, with the offending detail.
#[derive(Debug, PartialEq, Eq, Clone)]
pub enum LoadErrorKind {
    BadFilename(FilenameError),
    BadHeader(HeaderError),
}

impl View for LoadErrorKind {
    type V = LoadErrKind;

    open spec fn view(&self) -> LoadErrKind {
        match self {
            LoadErrorKind::BadFilename(_) => LoadErrKind::BadFilename,
            LoadErrorKind::BadHeader(e) => LoadErrKind::BadHeader(e@),
        }
    }
}

/// A failed load: which file, and why.
#[derive(Debug, PartialEq, Eq, Clone)]
pub struct LoadError {
    pub filename: String,
    pub kind: LoadErrorKind,
}

/// What loading one entry `(name, contents)` yields: the slug is the name's
/// remainder with its extension stripped, the body is everything past the
/// header converted to HTML, and the URL is derived from date and slug.
pub open spec fn load_post_v(name: Seq<char>, contents: Seq<char>) -> Result<PostV, LoadErrKind> {
    match decode_name(name) {
        None => Err(LoadErrKind::BadFilename),
        Some(parts) => match header_of(contents) {
            Err(h) => Err(LoadErrKind::BadHeader(h)),
            Ok(h) => Ok(
                PostV {
                    filename: strip_extension(parts.rest),
                    title: h.title,
                    author: h.author,
                    year: parts.year,
                    month: parts.month,
                    day: parts.day,
                    contents: markdown_of(
                        contents.subrange(h.body_start, contents.len() as int),
                    ),
                    url: url_of(parts.year, parts.month, parts.day, strip_extension(parts.rest)),
                },
            ),
        },
    }
}

/// Every post that loads carries the URL its date and slug derive: the stored
/// `url` and the formatting rule can never fall out of step.
pub proof fn lemma_loaded_url(name: Seq<char>, contents: Seq<char>)
    requires
        load_post_v(name, contents) is Ok,
    ensures
        (load_post_v(name, contents)->Ok_0).wf(),
{
}

/// Load one entry, exactly as `load_post_v` describes.
pub fn load_post(name: &str, contents: &str) -> (r: Result<Post, LoadError>)
    ensures
        match r {
            Ok(p) => load_post_v(name@, contents@) == Ok::<PostV, LoadErrKind>(p@) && p@.wf(),
            Err(e) => e.filename@ == name@ && load_post_v(name@, contents@) == Err::<
                PostV,
                LoadErrKind,
            >(e.kind@),
        },
{
    let parts = match decode_filename(name) {
        Ok(p) => p,
        Err(fe) => {
            return Err(
                LoadError {
                    filename: String::from_str(name),
                    kind: LoadErrorKind::BadFilename(fe),
                },
            );
        },
    };
    let (year, month, day, rest) = parts;
    let slug = strip_ext(rest.as_str());
    let header = match parse_header(contents) {
        Ok(h) => h,
        Err(he) => {
            return Err(
                LoadError { filename: String::from_str(name), kind: LoadErrorKind::BadHeader(he) },
            );
        },
    };
    let (title, author, body_start) = header;
    let n = contents.unicode_len();
    let body = contents.substring_char(body_start, n);
    let html = markdown_to_html(body);
    let url = make_url(year.as_str(), month.as_str(), day.as_str(), slug.as_str());
    Ok(
        Post {
            filename: slug,
            title: title,
            author: author,
            year: year,
            month: month,
            day: day,
            contents: html,
            url: url,
        },
    )
}

/// The per-entry load outcomes, in listing order.
pub open spec fn load_results(entries: Seq<(String, String)>) -> Seq<Result<PostV, LoadErrKind>> {
    Seq::new(entries.len(), |i: int| load_post_v(entries[i].0@, entries[i].1@))
}

/// The loaded posts of an all-good listing, in listing order.
pub open spec fn loaded_views(entries: Seq<(String, String)>) -> Seq<PostV> {
    Seq::new(entries.len(), |i: int| load_results(entries)[i]->Ok_0)
}

/// Load a whole directory listing. On success the result holds exactly the
/// posts of the entries — every one well-formed — sorted most-recent-first.
/// On failure it names the first entry (in listing order) that is bad, and
/// why; every entry before it is good.
pub fn load_posts(entries: &Vec<(String, String)>) -> (r: Result<Vec<Post>, LoadError>)
    ensures
        match r {
            Ok(posts) => {
                &&& forall|i: int|
                    0 <= i < entries@.len() ==> #[trigger] load_results(entries@)[i] is Ok
                &&& posts@.len() == entries@.len()
                &&& posts.deep_view().to_multiset() == loaded_views(entries@).to_multiset()
                &&& sorted_desc(posts.deep_view())
                &&& forall|k: int|
                    0 <= k < posts.deep_view().len() ==> (#[trigger] posts.deep_view()[k]).wf()
            },
            Err(e) => exists|i: int|
                {
                    &&& 0 <= i < entries@.len()
                    &&& #[trigger] load_results(entries@)[i] == Err::<PostV, LoadErrKind>(e.kind@)
                    &&& e.filename@ == entries@[i].0@
                    &&& forall|j: int| 0 <= j < i ==> load_results(entries@)[j] is Ok
                },
        },
{
    let ghost ev = entries@;
    let mut acc: Vec<Post> = Vec::new();
    let mut i: usize = 0;
    while i < entries.len()
        invariant
            i <= ev.len(),
            ev == entries@,
            acc.deep_view().len() == i,
            forall|k: int|
                0 <= k < i ==> {
                    &&& #[trigger] load_results(ev)[k] is Ok
                    &&& acc.deep_view()[k] == load_results(ev)[k]->Ok_0
                    &&& acc.deep_view()[k].wf()
                },
        decreases ev.len() - i,
    {
        let entry = &entries[i];
        match load_post(entry.0.as_str(), entry.1.as_str()) {
            Ok(p) => {
                let ghost pre = acc.deep_view();
                acc.push(p);
                proof {
                    assert(acc.deep_view() =~= pre.push(p@));
                }
            },
            Err(e) => {
                proof {
                    assert(load_results(ev)[i as int] == Err::<PostV, LoadErrKind>(e.kind@));
                }
                return Err(e);
            },
        }
        i = i + 1;
    }
    let sorted = sort_posts(&acc);
    proof {
        broadcast use group_to_multiset_ensures;

        assert(acc.deep_view() =~= loaded_views(ev));
        let sv = sorted.deep_view();
        assert(sv.to_multiset().len() == sv.len());
        assert(acc.deep_view().to_multiset().len() == acc.deep_view().len());
        assert(sv.len() == ev.len());
        assert forall|k: int| 0 <= k < sv.len() implies (#[trigger] sv[k]).wf() by {
            let x = sv[k];
            assert(sv.contains(x));
            assert(acc.deep_view().to_multiset().count(x) > 0);
            assert(acc.deep_view().contains(x));
            let j = choose|j: int| 0 <= j < acc.deep_view().len() && acc.deep_view()[j] == x;
            assert(load_results(ev)[j] is Ok);
        }
    }
    Ok(sorted)
}

} // verus!
