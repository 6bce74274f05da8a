//! The post record: one per source file, read-only once loaded, with its
//! site-relative URL derived from the date and the slug by a fixed rule.

use vstd::prelude::*;
use vstd::string::*;

verus! {

/// One loaded post.
#[derive(Debug)]
pub struct Post {
    /// The slug: the filename remainder with its extension stripped.
    pub filename: String,
    pub title: String,
    pub author: String,
    /// Date components, kept as the exact text of the filename fields.
    pub year: String,
    pub month: String,
    pub day: String,
    /// The body as HTML, never the raw markdown.
    pub contents: String,
    /// `{year}/{month}/{day}/{filename}.html`.
    pub url: String,
}

/// The mathematical image of a post: each field as a character sequence.
pub struct PostV {
    pub filename: Seq<char>,
    pub title: Seq<char>,
    pub author: Seq<char>,
    pub year: Seq<char>,
    pub month: Seq<char>,
    pub day: Seq<char>,
    pub contents: Seq<char>,
    pub url: Seq<char>,
}

impl View for Post {
    type V = PostV;

    open spec fn view(&self) -> PostV {
        PostV {
            filename: self.filename@,
            title: self.title@,
            author: self.author@,
            year: self.year@,
            month: self.month@,
            day: self.day@,
            contents: self.contents@,
            url: self.url@,
        }
    }
}

impl DeepView for Post {
    type V = PostV;

    open spec fn deep_view(&self) -> PostV {
        self.view()
    }
}

/// `{year}/{month}/{day}`: the output directory of a post's page.
pub open spec fn dir_path_of(year: Seq<char>, month: Seq<char>, day: Seq<char>) -> Seq<char> {
    year + seq!['/'] + month + seq!['/'] + day
}

/// `{year}/{month}/{day}/{slug}.html`: a post's site-relative URL, which is
/// also its output path under the destination root.
pub open spec fn url_of(
    year: Seq<char>,
    month: Seq<char>,
    day: Seq<char>,
    slug: Seq<char>,
) -> Seq<char> {
    dir_path_of(year, month, day) + seq!['/'] + slug + seq!['.', 'h', 't', 'm', 'l']
}

impl PostV {
    /// The record's invariant: the stored URL is the one its date and slug
    /// derive.
    pub open spec fn wf(self) -> bool {
        self.url == url_of(self.year, self.month, self.day, self.filename)
    }
}

/// Build `{year}/{month}/{day}`.
pub fn make_dir_path(year: &str, month: &str, day: &str) -> (r: String)
    ensures
        r@ == dir_path_of(year@, month@, day@),
{
    proof {
        reveal_strlit("/");
    }
    let mut u = String::from_str(year);
    u.append("/");
    u.append(month);
    u.append("/");
    u.append(day);
    proof {
        assert(u@ =~= dir_path_of(year@, month@, day@));
    }
    u
}

/// Build `{year}/{month}/{day}/{slug}.html`.
pub fn make_url(year: &str, month: &str, day: &str, slug: &str) -> (r: String)
    ensures
        r@ == url_of(year@, month@, day@, slug@),
{
    proof {
        reveal_strlit("/");
        reveal_strlit(".html");
    }
    let mut u = make_dir_path(year, month, day);
    u.append("/");
    u.append(slug);
    u.append(".html");
    proof {
        assert(u@ =~= url_of(year@, month@, day@, slug@));
    }
    u
}

} // verus!
