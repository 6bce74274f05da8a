//! The most-recent-first order of the post collection: posts are sorted by
//! `(year, month, day)` descending, with the slug as tie-break, regardless of
//! the order the source directory listed them in.

use vstd::prelude::*;
use vstd::seq_lib::group_to_multiset_ensures;

use crate::post::Post;
use crate::post::PostV;

verus! {

/// A three-way comparison outcome.
#[derive(Debug, Clone, Copy, PartialEq, Eq, Structural)]
pub enum Cmp {
    Lt,
    Eq,
    Gt,
}

/// The opposite outcome.
pub open spec fn flip(c: Cmp) -> Cmp {
    match c {
        Cmp::Lt => Cmp::Gt,
        Cmp::Eq => Cmp::Eq,
        Cmp::Gt => Cmp::Lt,
    }
}

/// Lexicographic comparison of character sequences by code point, shorter
/// prefixes first.
pub open spec fn seq_cmp(a: Seq<char>, b: Seq<char>) -> Cmp
    decreases a.len(),
{
    if a.len() == 0 && b.len() == 0 {
        Cmp::Eq
    } else if a.len() == 0 {
        Cmp::Lt
    } else if b.len() == 0 {
        Cmp::Gt
    } else if (a[0] as u32) < (b[0] as u32) {
        Cmp::Lt
    } else if (b[0] as u32) < (a[0] as u32) {
        Cmp::Gt
    } else {
        seq_cmp(a.drop_first(), b.drop_first())
    }
}

/// Swapping the arguments flips the outcome.
pub proof fn lemma_seq_cmp_flip(a: Seq<char>, b: Seq<char>)
    ensures
        seq_cmp(b, a) == flip(seq_cmp(a, b)),
    decreases a.len(),
{
    if a.len() > 0 && b.len() > 0 && !((a[0] as u32) < (b[0] as u32)) && !((b[0] as u32) < (
    a[0] as u32)) {
        lemma_seq_cmp_flip(a.drop_first(), b.drop_first());
    }
}

/// Transitivity, in the form the descending sort needs: "not below" carries
/// over, and strictly above on either side stays strictly above.
pub proof fn lemma_seq_cmp_trans(a: Seq<char>, b: Seq<char>, c: Seq<char>)
    requires
        seq_cmp(a, b) != Cmp::Lt,
        seq_cmp(b, c) != Cmp::Lt,
    ensures
        seq_cmp(a, c) != Cmp::Lt,
        (seq_cmp(a, b) == Cmp::Gt || seq_cmp(b, c) == Cmp::Gt) ==> seq_cmp(a, c) == Cmp::Gt,
    decreases a.len(),
{
    if a.len() > 0 && b.len() > 0 && c.len() > 0 {
        if (a[0] as u32) == (b[0] as u32) && (b[0] as u32) == (c[0] as u32) {
            lemma_seq_cmp_trans(a.drop_first(), b.drop_first(), c.drop_first());
        }
    }
}

/// Executable counterpart of `seq_cmp`.
pub fn str_cmp(a: &str, b: &str) -> (r: Cmp)
    ensures
        r == seq_cmp(a@, b@),
{
    let an = a.unicode_len();
    let bn = b.unicode_len();
    let mut i: usize = 0;
    proof {
        assert(a@.skip(0) =~= a@);
        assert(b@.skip(0) =~= b@);
    }
    while i < an && i < bn
        invariant
            i <= an,
            i <= bn,
            an == a@.len(),
            bn == b@.len(),
            seq_cmp(a@, b@) == seq_cmp(a@.skip(i as int), b@.skip(i as int)),
        decreases an - i,
    {
        let ca = a.get_char(i) as u32;
        let cb = b.get_char(i) as u32;
        proof {
            assert(a@.skip(i as int)[0] == a@[i as int]);
            assert(b@.skip(i as int)[0] == b@[i as int]);
        }
        if ca < cb {
            return Cmp::Lt;
        }
        if cb < ca {
            return Cmp::Gt;
        }
        proof {
            assert(a@.skip(i as int).drop_first() =~= a@.skip(i as int + 1));
            assert(b@.skip(i as int).drop_first() =~= b@.skip(i as int + 1));
        }
        i = i + 1;
    }
    if an < bn {
        Cmp::Lt
    } else if bn < an {
        Cmp::Gt
    } else {
        Cmp::Eq
    }
}

/// Posts compare by year, then month, then day, then slug.
pub open spec fn key_cmp(a: PostV, b: PostV) -> Cmp {
    match seq_cmp(a.year, b.year) {
        Cmp::Eq => match seq_cmp(a.month, b.month) {
            Cmp::Eq => match seq_cmp(a.day, b.day) {
                Cmp::Eq => seq_cmp(a.filename, b.filename),
                c => c,
            },
            c => c,
        },
        c => c,
    }
}

/// `a` may stand at or before `b` in the rendered collection: `a`'s key is
/// not below `b`'s, so the newest post comes first.
pub open spec fn post_le(a: PostV, b: PostV) -> bool {
    key_cmp(a, b) != Cmp::Lt
}

/// Every post's key is at or above every later post's: most-recent-first.
pub open spec fn sorted_desc(s: Seq<PostV>) -> bool {
    forall|i: int, j: int| 0 <= i < j < s.len() ==> post_le(s[i], s[j])
}

pub proof fn lemma_key_cmp_flip(a: PostV, b: PostV)
    ensures
        key_cmp(b, a) == flip(key_cmp(a, b)),
{
    lemma_seq_cmp_flip(a.year, b.year);
    lemma_seq_cmp_flip(a.month, b.month);
    lemma_seq_cmp_flip(a.day, b.day);
    lemma_seq_cmp_flip(a.filename, b.filename);
}

/// The post order is transitive.
pub proof fn lemma_post_le_trans(a: PostV, b: PostV, c: PostV)
    requires
        post_le(a, b),
        post_le(b, c),
    ensures
        post_le(a, c),
{
    lemma_seq_cmp_trans(a.year, b.year, c.year);
    if seq_cmp(a.year, b.year) == Cmp::Eq && seq_cmp(b.year, c.year) == Cmp::Eq {
        lemma_seq_cmp_trans(a.month, b.month, c.month);
        if seq_cmp(a.month, b.month) == Cmp::Eq && seq_cmp(b.month, c.month) == Cmp::Eq {
            lemma_seq_cmp_trans(a.day, b.day, c.day);
            if seq_cmp(a.day, b.day) == Cmp::Eq && seq_cmp(b.day, c.day) == Cmp::Eq {
                lemma_seq_cmp_trans(a.filename, b.filename, c.filename);
            }
        }
    }
}

/// Executable counterpart of `key_cmp`.
pub fn post_key_cmp(a: &Post, b: &Post) -> (r: Cmp)
    ensures
        r == key_cmp(a@, b@),
{
    let y = str_cmp(a.year.as_str(), b.year.as_str());
    if y != Cmp::Eq {
        return y;
    }
    let m = str_cmp(a.month.as_str(), b.month.as_str());
    if m != Cmp::Eq {
        return m;
    }
    let d = str_cmp(a.day.as_str(), b.day.as_str());
    if d != Cmp::Eq {
        return d;
    }
    str_cmp(a.filename.as_str(), b.filename.as_str())
}

/// A field-for-field copy of a post.
fn clone_post(p: &Post) -> (r: Post)
    ensures
        r == *p,
{
    Post {
        filename: p.filename.clone(),
        title: p.title.clone(),
        author: p.author.clone(),
        year: p.year.clone(),
        month: p.month.clone(),
        day: p.day.clone(),
        contents: p.contents.clone(),
        url: p.url.clone(),
    }
}

/// Where `p` belongs in a descending collection: past every post whose key is
/// at or above `p`'s, before the first whose key is below.
fn find_insert_pos(out: &Vec<Post>, p: &Post) -> (j: usize)
    ensures
        j <= out@.len(),
        forall|k: int| 0 <= k < j ==> post_le(out.deep_view()[k], p@),
        j < out@.len() ==> key_cmp(out.deep_view()[j as int], p@) == Cmp::Lt,
{
    let mut j: usize = 0;
    while j < out.len()
        invariant
            j <= out@.len(),
            forall|k: int| 0 <= k < j ==> post_le(out.deep_view()[k], p@),
        decreases out@.len() - j,
    {
        proof {
            assert(out.deep_view()[j as int] == out@[j as int].deep_view());
        }
        let c = post_key_cmp(&out[j], p);
        if c == Cmp::Lt {
            return j;
        }
        j = j + 1;
    }
    j
}

/// Sort the collection most-recent-first: the result is a permutation of the
/// input, ordered by `(year, month, day)` descending with the slug as
/// tie-break.
pub fn sort_posts(posts: &Vec<Post>) -> (r: Vec<Post>)
    ensures
        r.deep_view().to_multiset() == posts.deep_view().to_multiset(),
        sorted_desc(r.deep_view()),
{
    broadcast use group_to_multiset_ensures;

    let ghost all = posts.deep_view();
    let mut out: Vec<Post> = Vec::new();
    let mut idx: usize = 0;
    proof {
        assert(out.deep_view() =~= Seq::<PostV>::empty());
        assert(all.take(0) =~= Seq::<PostV>::empty());
        assert(out.deep_view().to_multiset() =~= all.take(0).to_multiset());
    }
    while idx < posts.len()
        invariant
            idx <= posts.len(),
            all == posts.deep_view(),
            sorted_desc(out.deep_view()),
            out.deep_view().to_multiset() == all.take(idx as int).to_multiset(),
        decreases posts.len() - idx,
    {
        let p = clone_post(&posts[idx]);
        let ghost pv = p@;
        let ghost dv_old = out.deep_view();
        let j = find_insert_pos(&out, &p);
        proof {
            assert(pv == all[idx as int]);
            if j < out.len() {
                assert(dv_old[j as int] == out@[j as int].deep_view());
                assert(key_cmp(dv_old[j as int], pv) == Cmp::Lt);
                lemma_key_cmp_flip(dv_old[j as int], pv);
                assert(post_le(pv, dv_old[j as int]));
                assert forall|k: int| j <= k < dv_old.len() implies post_le(pv, dv_old[k]) by {
                    if k > j {
                        lemma_post_le_trans(pv, dv_old[j as int], dv_old[k]);
                    }
                }
            }
        }
        out.insert(j, p);
        idx = idx + 1;
        proof {
            let dv_new = out.deep_view();
            assert(dv_new =~= dv_old.insert(j as int, pv));
            assert forall|i1: int, i2: int| 0 <= i1 < i2 < dv_new.len() implies post_le(
                dv_new[i1],
                dv_new[i2],
            ) by {
                let a = dv_new[i1];
                let b = dv_new[i2];
                if i1 == j {
                    assert(a == pv);
                } else if i2 == j {
                    assert(b == pv);
                }
            }
            assert(all.take(idx as int) =~= all.take(idx as int - 1).push(all[idx as int - 1]));
            vstd::seq_lib::to_multiset_insert(dv_old, j as int, pv);
            vstd::seq_lib::to_multiset_build(all.take(idx as int - 1), all[idx as int - 1]);
            assert(dv_new.to_multiset() =~= all.take(idx as int).to_multiset());
        }
    }
    proof {
        assert(all.take(posts.len() as int) =~= all);
    }
    out
}

} // verus!
