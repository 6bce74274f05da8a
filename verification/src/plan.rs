//! The render plan: the exact sequence of output steps a render pass takes.
//! The index page is written first, then, per post in collection order, the
//! post's date directory is ensured and its page written. Executing the steps
//! against a filesystem — where ensuring an existing directory is a no-op and
//! a write replaces prior content — is left to the caller.

use vstd::prelude::*;
use vstd::string::*;

use crate::post::Post;
use crate::post::PostV;
use crate::post::dir_path_of;
use crate::post::url_of;
use crate::post::make_dir_path;
use crate::post::make_url;

verus! {

/// One output step, with paths relative to the destination root.
#[derive(Debug, PartialEq, Eq, Clone)]
pub enum PlanStep {
    /// Create this directory, and its parents, if not already there.
    EnsureDir(String),
    /// Render the `index` template, with the whole collection as context,
    /// into this file.
    WriteIndex(String),
    /// Render the `post` template, with the post at this collection index as
    /// context, into the file at this path.
    WritePost(String, usize),
}

/// The mathematical image of a step.
pub enum PlanStepV {
    EnsureDir(Seq<char>),
    WriteIndex(Seq<char>),
    WritePost(Seq<char>, int),
}

impl View for PlanStep {
    type V = PlanStepV;

    open spec fn view(&self) -> PlanStepV {
        match self {
            PlanStep::EnsureDir(d) => PlanStepV::EnsureDir(d@),
            PlanStep::WriteIndex(p) => PlanStepV::WriteIndex(p@),
            PlanStep::WritePost(p, i) => PlanStepV::WritePost(p@, *i as int),
        }
    }
}

impl DeepView for PlanStep {
    type V = PlanStepV;

    open spec fn deep_view(&self) -> PlanStepV {
        self.view()
    }
}

/// `index.html`, the index page's path under the destination root.
pub open spec fn index_file() -> Seq<char> {
    seq!['i', 'n', 'd', 'e', 'x', '.', 'h', 't', 'm', 'l']
}

/// The plan for a collection: the index write, then one directory step and
/// one page write per post, in collection order, each page at the path its
/// post's date and slug derive.
pub open spec fn plan_of(posts: Seq<PostV>) -> Seq<PlanStepV> {
    Seq::new(
        1 + 2 * posts.len(),
        |k: int|
            if k == 0 {
                PlanStepV::WriteIndex(index_file())
            } else if (k - 1) % 2 == 0 {
                PlanStepV::EnsureDir(
                    dir_path_of(
                        posts[(k - 1) / 2].year,
                        posts[(k - 1) / 2].month,
                        posts[(k - 1) / 2].day,
                    ),
                )
            } else {
                PlanStepV::WritePost(
                    url_of(
                        posts[(k - 1) / 2].year,
                        posts[(k - 1) / 2].month,
                        posts[(k - 1) / 2].day,
                        posts[(k - 1) / 2].filename,
                    ),
                    (k - 1) / 2,
                )
            },
    )
}

/// Build the plan for a collection, exactly as `plan_of` describes.
pub fn render_plan(posts: &Vec<Post>) -> (r: Vec<PlanStep>)
    ensures
        r.deep_view() == plan_of(posts.deep_view()),
{
    let ghost pv = posts.deep_view();
    let mut r: Vec<PlanStep> = Vec::new();
    proof {
        reveal_strlit("index.html");
        assert("index.html"@ =~= index_file());
    }
    r.push(PlanStep::WriteIndex(String::from_str("index.html")));
    let mut i: usize = 0;
    proof {
        assert(r.deep_view() =~= plan_of(pv).take(1));
    }
    while i < posts.len()
        invariant
            i <= posts.len(),
            pv == posts.deep_view(),
            r.deep_view() == plan_of(pv).take(1 + 2 * i as int),
        decreases posts.len() - i,
    {
        let ghost pre = r.deep_view();
        let ghost stepa = PlanStepV::EnsureDir(
            dir_path_of(pv[i as int].year, pv[i as int].month, pv[i as int].day),
        );
        let ghost stepb = PlanStepV::WritePost(
            url_of(
                pv[i as int].year,
                pv[i as int].month,
                pv[i as int].day,
                pv[i as int].filename,
            ),
            i as int,
        );
        proof {
            assert(pv[i as int] == posts@[i as int].deep_view());
        }
        let post = &posts[i];
        r.push(
            PlanStep::EnsureDir(
                make_dir_path(post.year.as_str(), post.month.as_str(), post.day.as_str()),
            ),
        );
        proof {
            assert(r.deep_view() =~= pre.push(stepa));
        }
        let ghost mid = r.deep_view();
        r.push(
            PlanStep::WritePost(
                make_url(
                    post.year.as_str(),
                    post.month.as_str(),
                    post.day.as_str(),
                    post.filename.as_str(),
                ),
                i,
            ),
        );
        proof {
            assert(r.deep_view() =~= mid.push(stepb));
            let dv = pre.push(stepa).push(stepb);
            let target = plan_of(pv).take(3 + 2 * i as int);
            assert forall|k: int| 0 <= k < dv.len() implies dv[k] == target[k] by {
                if k < 1 + 2 * i as int {
                    assert(dv[k] == pre[k]);
                    assert(pre[k] == plan_of(pv).take(1 + 2 * i as int)[k]);
                } else if k == 1 + 2 * i as int {
                    assert(dv[k] == stepa);
                } else {
                    assert(dv[k] == stepb);
                }
            }
            assert(r.deep_view() =~= target);
        }
        i = i + 1;
    }
    proof {
        assert(plan_of(pv).take(1 + 2 * posts.len() as int) =~= plan_of(pv));
    }
    r
}

/// Rendering is deterministic: the same collection always yields the same
/// plan, so running the pass twice against the same input writes the same
/// paths with the same contexts — byte-identical output, given a template
/// engine that is a function of template and context.
pub proof fn lemma_plan_deterministic(a: Seq<PostV>, b: Seq<PostV>)
    requires
        a == b,
    ensures
        plan_of(a) == plan_of(b),
{
}

/// For a well-formed collection, each page write targets exactly the URL the
/// post itself carries: the paths of the output tree and the links a template
/// renders from `url` can never disagree.
pub proof fn lemma_page_written_at_its_url(posts: Seq<PostV>, i: int)
    requires
        0 <= i < posts.len(),
        posts[i].wf(),
    ensures
        plan_of(posts)[2 + 2 * i] == PlanStepV::WritePost(posts[i].url, i),
{
}

/// Posts that share a date yield identical directory steps, so a pass over
/// two same-day posts asks for the same directory twice: creating a directory
/// that already exists must be tolerated as a no-op.
pub proof fn lemma_shared_date_same_dir(posts: Seq<PostV>, i: int, j: int)
    requires
        0 <= i < posts.len(),
        0 <= j < posts.len(),
        posts[i].year == posts[j].year,
        posts[i].month == posts[j].month,
        posts[i].day == posts[j].day,
    ensures
        plan_of(posts)[1 + 2 * i] == plan_of(posts)[1 + 2 * j],
{
}

} // verus!
