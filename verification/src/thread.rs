//! Reconstruction of a self-thread from the flat list of reply descendants.
//!
//! The model is the function [`self_thread`] on views of posts; the executable
//! [`reconstruct_thread`] computes exactly it. What follows from the model for
//! every thread is proved in [`crate::thread_lemmas`].

use crate::model::{Status, StatusView};
use crate::seq_filter::{lemma_filter_push, lemma_filter_split_len};
use crate::thread_lemmas::{lemma_thread_is_chained, lemma_thread_starts_with_root};
use vstd::prelude::*;

verus! {

/// Whether `post` continues a self-thread whose newest post is `target`: it is
/// written by `author` and replies to `target`. A post without a reply target
/// continues nothing.
pub open spec fn continues_thread(post: StatusView, author: Seq<char>, target: Seq<char>) -> bool {
    post.account.id == author && post.in_reply_to_id == Some(target)
}

/// The test of [`continues_thread`] for a fixed author and target.
pub open spec fn continuation(author: Seq<char>, target: Seq<char>) -> spec_fn(StatusView) -> bool {
    |post: StatusView| continues_thread(post, author, target)
}

/// The negation of [`continuation`].
pub open spec fn no_continuation(author: Seq<char>, target: Seq<char>) -> spec_fn(
    StatusView,
) -> bool {
    |post: StatusView| !continues_thread(post, author, target)
}

/// The posts of `pool` that continue the thread at `target`, in the order of `pool`.
pub open spec fn matched_replies(
    pool: Seq<StatusView>,
    author: Seq<char>,
    target: Seq<char>,
) -> Seq<StatusView> {
    pool.filter(continuation(author, target))
}

/// The posts of `pool` that do not continue the thread at `target`, in the
/// order of `pool`.
pub open spec fn unmatched_replies(
    pool: Seq<StatusView>,
    author: Seq<char>,
    target: Seq<char>,
) -> Seq<StatusView> {
    pool.filter(no_continuation(author, target))
}

/// One round of matching moves every post of the pool either into the thread
/// or into the pool of the next round.
pub proof fn lemma_partition_len(pool: Seq<StatusView>, author: Seq<char>, target: Seq<char>)
    ensures
        matched_replies(pool, author, target).len() + unmatched_replies(pool, author, target).len()
            == pool.len(),
{
    lemma_filter_split_len(pool, continuation(author, target), no_continuation(author, target));
}

/// The thread that grows out of `thread` when the posts of `remaining` are
/// matched round by round: each round appends every remaining post by `author`
/// that replies to the last post of the thread, in the order of `remaining`,
/// and goes on with the others; the first round that matches nothing ends it.
pub open spec fn extend_thread(
    thread: Seq<StatusView>,
    remaining: Seq<StatusView>,
    author: Seq<char>,
) -> Seq<StatusView>
    recommends
        thread.len() > 0,
    decreases remaining.len(),
    via extend_thread_decreases
{
    let matched = matched_replies(remaining, author, thread.last().id);
    if matched.len() == 0 {
        thread
    } else {
        extend_thread(
            thread + matched,
            unmatched_replies(remaining, author, thread.last().id),
            author,
        )
    }
}

#[via_fn]
proof fn extend_thread_decreases(
    thread: Seq<StatusView>,
    remaining: Seq<StatusView>,
    author: Seq<char>,
) {
    lemma_partition_len(remaining, author, thread.last().id);
}

/// The self-thread of `root` among `descendants`: `root`, followed by the
/// replies that its author wrote to the thread, round by round.
pub open spec fn self_thread(root: StatusView, descendants: Seq<StatusView>) -> Seq<StatusView> {
    extend_thread(seq![root], descendants, root.account.id)
}

/// Whether the post at `index` of `thread` carries the thread on: it is
/// written by `author`, it has a reply target, and it replies either to the
/// post just before it or, like the post just before it, to an earlier one.
pub open spec fn carries_on(thread: Seq<StatusView>, index: int, author: Seq<char>) -> bool {
    let post = thread[index];
    let previous = thread[index - 1];
    &&& post.account.id == author
    &&& post.in_reply_to_id is Some
    &&& (post.in_reply_to_id == Some(previous.id) || (index >= 2 && post.in_reply_to_id
        == previous.in_reply_to_id))
}

/// Whether `thread` has the shape of a self-thread: it is not empty, and every
/// post behind the first carries it on for the author of the first.
pub open spec fn is_chained(thread: Seq<StatusView>) -> bool {
    &&& thread.len() >= 1
    &&& forall|i: int| 1 <= i < thread.len() ==> carries_on(thread, i, thread[0].account.id)
}

/// The views of a vector that got one more element are the views it had,
/// followed by the view of that element.
proof fn lemma_deep_view_push(before: Seq<Status>, post: Status, after: Seq<Status>)
    requires
        after == before.push(post),
    ensures
        Seq::new(after.len(), |i: int| after[i].deep_view()) == Seq::new(
            before.len(),
            |i: int| before[i].deep_view(),
        ).push(post@),
{
    assert(Seq::new(after.len(), |i: int| after[i].deep_view()) =~= Seq::new(
        before.len(),
        |i: int| before[i].deep_view(),
    ).push(post@));
}

/// Tells whether `post` is written by the account `author` in reply to the
/// post `target`.
pub fn is_continuation(post: &Status, author: &String, target: &String) -> (found: bool)
    ensures
        found == continues_thread(post@, author@, target@),
{
    if post.account.id == *author {
        match &post.in_reply_to_id {
            Some(reply_target) => *reply_target == *target,
            None => false,
        }
    } else {
        false
    }
}

/// Splits `pool` into the posts that continue the thread at `target` and the
/// others. Both parts keep the order that their posts had in `pool`.
pub fn partition_replies(pool: Vec<Status>, author: &String, target: &String) -> (parts: (
    Vec<Status>,
    Vec<Status>,
))
    ensures
        parts.0.deep_view() == matched_replies(pool.deep_view(), author@, target@),
        parts.1.deep_view() == unmatched_replies(pool.deep_view(), author@, target@),
{
    let ghost posts = pool@;
    let ghost views = pool.deep_view();
    let mut matched: Vec<Status> = Vec::new();
    let mut unmatched: Vec<Status> = Vec::new();
    proof {
        reveal(Seq::filter);
        assert(views.take(0) =~= Seq::<StatusView>::empty());
        assert(matched.deep_view() =~= matched_replies(views.take(0), author@, target@));
        assert(unmatched.deep_view() =~= unmatched_replies(views.take(0), author@, target@));
    }
    for post in it: pool
        invariant
            it.seq() == posts,
            views.len() == posts.len(),
            forall|i: int| 0 <= i < posts.len() ==> views[i] == (#[trigger] posts[i])@,
            matched.deep_view() == matched_replies(views.take(it.index()), author@, target@),
            unmatched.deep_view() == unmatched_replies(views.take(it.index()), author@, target@),
    {
        let ghost done = it.index();
        proof {
            assert(views.take(done + 1) =~= views.take(done).push(post@));
            lemma_filter_push(views.take(done), post@, continuation(author@, target@));
            lemma_filter_push(views.take(done), post@, no_continuation(author@, target@));
        }
        if is_continuation(&post, author, target) {
            proof {
                lemma_deep_view_push(matched@, post, matched@.push(post));
            }
            matched.push(post);
        } else {
            proof {
                lemma_deep_view_push(unmatched@, post, unmatched@.push(post));
            }
            unmatched.push(post);
        }
    }
    proof {
        assert(views.take(posts.len() as int) =~= views);
    }
    (matched, unmatched)
}

/// Reconstructs the self-thread of `root` from the flat list of its reply
/// descendants.
///
/// The result starts with `root`. Then, round by round, every remaining
/// descendant that the author of `root` wrote in reply to the last post of
/// the thread so far is appended, in the order of the list, until a round
/// finds none. A descendant without a reply target is never appended.
pub fn reconstruct_thread(root: Status, descendants: Vec<Status>) -> (thread: Vec<Status>)
    ensures
        thread.deep_view() == self_thread(root@, descendants.deep_view()),
        1 <= thread@.len() <= 1 + descendants@.len(),
        thread@[0] == root,
        is_chained(thread.deep_view()),
{
    let ghost goal = self_thread(root@, descendants.deep_view());
    proof {
        lemma_thread_is_chained(root@, descendants.deep_view());
        lemma_thread_starts_with_root(root@, descendants.deep_view());
    }
    let author = root.account.id.clone();
    let mut thread: Vec<Status> = Vec::new();
    thread.push(root);
    let mut remaining = descendants;
    proof {
        assert(thread.deep_view() =~= seq![root@]);
    }
    loop
        invariant_except_break
            extend_thread(thread.deep_view(), remaining.deep_view(), author@) == goal,
        invariant
            thread@.len() >= 1,
            thread@[0] == root,
        ensures
            thread.deep_view() == goal,
        decreases remaining.len(),
    {
        let ghost before = thread.deep_view();
        let ghost pool = remaining.deep_view();
        let last = thread.len() - 1;
        let (mut matched, unmatched) = partition_replies(remaining, &author, &thread[last].id);
        proof {
            assert(before.last().id == thread[last as int].id@);
            lemma_partition_len(pool, author@, before.last().id);
        }
        if matched.is_empty() {
            break ;
        }
        let ghost batch = matched.deep_view();
        thread.append(&mut matched);
        remaining = unmatched;
        proof {
            assert(thread.deep_view() =~= before + batch);
        }
    }
    thread
}

} // verus!
