//! What holds of every reconstructed self-thread, proved of [`self_thread`].

use crate::model::{Status, StatusView};
use crate::seq_filter::{
    lemma_filter_all, lemma_filter_elements, lemma_filter_keeps, lemma_filter_keeps_order,
    lemma_filter_none, lemma_filter_split_multiset, occur_in_order,
};
use crate::thread::{
    carries_on, continuation, continues_thread, extend_thread, is_chained, lemma_partition_len,
    matched_replies, no_continuation, self_thread, unmatched_replies,
};
use vstd::prelude::*;
use vstd::seq_lib::lemma_multiset_commutative;

verus! {

/// Whether `post` stands in `thread` behind its first post.
pub open spec fn appended_to(thread: Seq<StatusView>, post: StatusView) -> bool {
    exists|i: int| 1 <= i < thread.len() && #[trigger] thread[i] == post
}

/// Whether no two posts of `pool` by `author` reply to the same post.
pub open spec fn replies_are_unshared(pool: Seq<StatusView>, author: Seq<char>) -> bool {
    forall|j: int, k: int|
        0 <= j < k < pool.len() && (#[trigger] pool[j]).account.id == author && (
        #[trigger] pool[k]).account.id == author && pool[j].in_reply_to_id is Some
            ==> pool[j].in_reply_to_id != pool[k].in_reply_to_id
}

/// Whether every post of `thread` behind the first replies to the post just
/// before it.
pub open spec fn is_strict_chain(thread: Seq<StatusView>) -> bool {
    forall|i: int|
        1 <= i < thread.len() ==> (#[trigger] thread[i]).in_reply_to_id == Some(thread[i - 1].id)
}

/// Growing a thread keeps the posts it has, and adds no more posts than remain.
pub proof fn lemma_extend_keeps_prefix(
    thread: Seq<StatusView>,
    remaining: Seq<StatusView>,
    author: Seq<char>,
)
    ensures
        thread.len() <= extend_thread(thread, remaining, author).len() <= thread.len()
            + remaining.len(),
        extend_thread(thread, remaining, author).take(thread.len() as int) == thread,
    decreases remaining.len(),
{
    let target = thread.last().id;
    let matched = matched_replies(remaining, author, target);
    let rest = unmatched_replies(remaining, author, target);
    if matched.len() == 0 {
        assert(thread.take(thread.len() as int) =~= thread);
    } else {
        lemma_partition_len(remaining, author, target);
        lemma_extend_keeps_prefix(thread + matched, rest, author);
        let grown = extend_thread(thread + matched, rest, author);
        assert(grown.take(thread.len() as int) =~= grown.take((thread + matched).len() as int).take(
            thread.len() as int,
        ));
        assert((thread + matched).take(thread.len() as int) =~= thread);
    }
}

/// Where a round matches some posts, what growing the thread appends starts
/// with those posts; the rest is what growing the longer thread appends.
proof fn lemma_extend_appends_batch_first(
    thread: Seq<StatusView>,
    remaining: Seq<StatusView>,
    author: Seq<char>,
)
    requires
        matched_replies(remaining, author, thread.last().id).len() > 0,
    ensures
        ({
            let matched = matched_replies(remaining, author, thread.last().id);
            let grown = extend_thread(thread, remaining, author);
            grown.skip(thread.len() as int) == matched + grown.skip(
                (thread + matched).len() as int,
            )
        }),
{
    let target = thread.last().id;
    let matched = matched_replies(remaining, author, target);
    let rest = unmatched_replies(remaining, author, target);
    let longer = thread + matched;
    let grown = extend_thread(thread, remaining, author);
    lemma_extend_keeps_prefix(longer, rest, author);
    assert forall|i: int| 0 <= i < matched.len() implies grown[thread.len() + i]
        == matched[i] by {
        assert(grown.take(longer.len() as int)[thread.len() + i] == longer[thread.len() + i]);
    }
    assert(grown.skip(thread.len() as int) =~= matched + grown.skip(longer.len() as int));
}

/// Every post that growing a thread appends is written by `author` and is
/// one of the remaining posts.
proof fn lemma_extend_appends_remaining_posts(
    thread: Seq<StatusView>,
    remaining: Seq<StatusView>,
    author: Seq<char>,
)
    ensures
        forall|i: int|
            thread.len() <= i < extend_thread(thread, remaining, author).len() ==> (
            #[trigger] extend_thread(thread, remaining, author)[i]).account.id == author
                && remaining.contains(extend_thread(thread, remaining, author)[i]),
    decreases remaining.len(),
{
    let target = thread.last().id;
    let matched = matched_replies(remaining, author, target);
    let rest = unmatched_replies(remaining, author, target);
    let grown = extend_thread(thread, remaining, author);
    if matched.len() == 0 {
        assert(grown == thread);
    } else {
        let longer = thread + matched;
        lemma_partition_len(remaining, author, target);
        lemma_extend_appends_remaining_posts(longer, rest, author);
        lemma_extend_keeps_prefix(longer, rest, author);
        lemma_filter_elements(remaining, continuation(author, target));
        lemma_filter_elements(remaining, no_continuation(author, target));
        assert forall|i: int| thread.len() <= i < grown.len() implies (#[trigger] grown[i]).account.id
            == author && remaining.contains(grown[i]) by {
            if i < longer.len() {
                assert(grown.take(longer.len() as int)[i] == longer[i]);
                assert(grown[i] == matched[i - thread.len()]);
                assert(continues_thread(grown[i], author, target));
            } else {
                assert(rest.contains(grown[i]));
                let k = choose|k: int| 0 <= k < rest.len() && rest[k] == grown[i];
                assert(remaining.contains(rest[k]));
            }
        }
    }
}

/// What growing a thread appends, it takes from the remaining posts: no post
/// is appended more often than it remained.
proof fn lemma_extend_takes_from_remaining(
    thread: Seq<StatusView>,
    remaining: Seq<StatusView>,
    author: Seq<char>,
)
    ensures
        extend_thread(thread, remaining, author).skip(thread.len() as int).to_multiset().subset_of(
            remaining.to_multiset(),
        ),
    decreases remaining.len(),
{
    let target = thread.last().id;
    let matched = matched_replies(remaining, author, target);
    let rest = unmatched_replies(remaining, author, target);
    let grown = extend_thread(thread, remaining, author);
    if matched.len() == 0 {
        assert(grown.skip(thread.len() as int) =~= Seq::<StatusView>::empty());
        assert(grown.skip(thread.len() as int).to_multiset().len() == 0) by {
            grown.skip(thread.len() as int).to_multiset_ensures();
        }
    } else {
        let longer = thread + matched;
        lemma_partition_len(remaining, author, target);
        lemma_extend_takes_from_remaining(longer, rest, author);
        lemma_filter_split_multiset(
            remaining,
            continuation(author, target),
            no_continuation(author, target),
        );
        let tail = grown.skip(longer.len() as int);
        lemma_extend_appends_batch_first(thread, remaining, author);
        lemma_multiset_commutative(matched, tail);
    }
}

/// Growing a thread whose posts behind the first carry it on gives a thread
/// whose posts behind the first carry it on.
proof fn lemma_extend_carries_on(
    thread: Seq<StatusView>,
    remaining: Seq<StatusView>,
    author: Seq<char>,
)
    requires
        thread.len() >= 1,
        forall|i: int| 1 <= i < thread.len() ==> carries_on(thread, i, author),
    ensures
        forall|i: int|
            1 <= i < extend_thread(thread, remaining, author).len() ==> carries_on(
                extend_thread(thread, remaining, author),
                i,
                author,
            ),
    decreases remaining.len(),
{
    let target = thread.last().id;
    let matched = matched_replies(remaining, author, target);
    let rest = unmatched_replies(remaining, author, target);
    let grown = extend_thread(thread, remaining, author);
    if matched.len() == 0 {
        assert(grown == thread);
    } else {
        let longer = thread + matched;
        lemma_partition_len(remaining, author, target);
        lemma_filter_elements(remaining, continuation(author, target));
        assert forall|i: int| 1 <= i < longer.len() implies carries_on(longer, i, author) by {
            if i < thread.len() {
                assert(carries_on(thread, i, author));
            } else {
                let post = matched[i - thread.len()];
                assert(longer[i] == post);
                assert(continues_thread(post, author, target));
                if i == thread.len() {
                    assert(longer[i - 1] == thread.last());
                } else {
                    let previous = matched[i - 1 - thread.len()];
                    assert(longer[i - 1] == previous);
                    assert(continues_thread(previous, author, target));
                }
            }
        }
        lemma_extend_carries_on(longer, rest, author);
        assert(grown == extend_thread(longer, rest, author));
    }
}

/// Growing a strict chain from posts among which the author's replies are
/// unshared gives a strict chain: every round appends one post at most.
proof fn lemma_extend_strict_chain(
    thread: Seq<StatusView>,
    remaining: Seq<StatusView>,
    author: Seq<char>,
)
    requires
        thread.len() >= 1,
        is_strict_chain(thread),
        replies_are_unshared(remaining, author),
    ensures
        is_strict_chain(extend_thread(thread, remaining, author)),
    decreases remaining.len(),
{
    let target = thread.last().id;
    let wanted = continuation(author, target);
    let unwanted = no_continuation(author, target);
    let matched = matched_replies(remaining, author, target);
    let rest = unmatched_replies(remaining, author, target);
    let grown = extend_thread(thread, remaining, author);
    if matched.len() == 0 {
        assert(grown == thread);
    } else {
        let longer = thread + matched;
        lemma_partition_len(remaining, author, target);
        lemma_filter_elements(remaining, wanted);
        lemma_filter_keeps_order(remaining, wanted);
        lemma_filter_keeps_order(remaining, unwanted);
        assert(matched.len() == 1) by {
            if matched.len() >= 2 {
                assert(wanted(matched[0]) && wanted(matched[1]));
                assert(occur_in_order(remaining, matched[0], matched[1]));
                let (j, k) = choose|j: int, k: int|
                    0 <= j < k < remaining.len() && #[trigger] remaining[j] == matched[0]
                        && #[trigger] remaining[k] == matched[1];
                assert(remaining[j].in_reply_to_id != remaining[k].in_reply_to_id);
            }
        }
        assert(is_strict_chain(longer)) by {
            assert forall|i: int| 1 <= i < longer.len() implies (
            #[trigger] longer[i]).in_reply_to_id == Some(longer[i - 1].id) by {
                if i < thread.len() {
                    assert(longer[i] == thread[i] && longer[i - 1] == thread[i - 1]);
                } else {
                    assert(longer[i] == matched[0] && longer[i - 1] == thread.last());
                    assert(wanted(matched[0]));
                }
            }
        }
        assert(replies_are_unshared(rest, author)) by {
            assert forall|j: int, k: int|
                0 <= j < k < rest.len() && (#[trigger] rest[j]).account.id == author && (
                #[trigger] rest[k]).account.id == author && rest[j].in_reply_to_id
                    is Some implies rest[j].in_reply_to_id != rest[k].in_reply_to_id by {
                assert(occur_in_order(remaining, rest[j], rest[k]));
                let (m, n) = choose|m: int, n: int|
                    0 <= m < n < remaining.len() && #[trigger] remaining[m] == rest[j]
                        && #[trigger] remaining[n] == rest[k];
                assert(remaining[m].in_reply_to_id != remaining[n].in_reply_to_id);
            }
        }
        lemma_extend_strict_chain(longer, rest, author);
        assert(grown == extend_thread(longer, rest, author));
    }
}

/// Two posts that growing a thread appends in reply to the same post stand
/// in the result in the order in which they stand in `pool`, if `pool` holds
/// the remaining posts in their order.
proof fn lemma_extend_keeps_order_of_siblings(
    thread: Seq<StatusView>,
    remaining: Seq<StatusView>,
    author: Seq<char>,
    pool: Seq<StatusView>,
)
    requires
        forall|x: StatusView, y: StatusView| #[trigger]
            occur_in_order(remaining, x, y) ==> occur_in_order(pool, x, y),
    ensures
        forall|i: int, k: int|
            thread.len() <= i < k < extend_thread(thread, remaining, author).len() && (
            #[trigger] extend_thread(thread, remaining, author)[i]).in_reply_to_id == (
            #[trigger] extend_thread(thread, remaining, author)[k]).in_reply_to_id
                ==> occur_in_order(
                pool,
                extend_thread(thread, remaining, author)[i],
                extend_thread(thread, remaining, author)[k],
            ),
    decreases remaining.len(),
{
    let target = thread.last().id;
    let wanted = continuation(author, target);
    let unwanted = no_continuation(author, target);
    let matched = matched_replies(remaining, author, target);
    let rest = unmatched_replies(remaining, author, target);
    let grown = extend_thread(thread, remaining, author);
    if matched.len() == 0 {
        assert(grown == thread);
    } else {
        let longer = thread + matched;
        lemma_partition_len(remaining, author, target);
        lemma_filter_keeps_order(remaining, wanted);
        lemma_filter_keeps_order(remaining, unwanted);
        lemma_filter_elements(remaining, wanted);
        lemma_filter_elements(remaining, unwanted);
        lemma_extend_keeps_prefix(longer, rest, author);
        lemma_extend_appends_remaining_posts(longer, rest, author);
        assert forall|x: StatusView, y: StatusView| #[trigger]
            occur_in_order(rest, x, y) implies occur_in_order(pool, x, y) by {
            let (j, k) = choose|j: int, k: int|
                0 <= j < k < rest.len() && #[trigger] rest[j] == x && #[trigger] rest[k] == y;
            assert(occur_in_order(remaining, rest[j], rest[k]));
        }
        lemma_extend_keeps_order_of_siblings(longer, rest, author, pool);
        assert forall|i: int, k: int|
            thread.len() <= i < k < grown.len() && (#[trigger] grown[i]).in_reply_to_id == (
            #[trigger] grown[k]).in_reply_to_id implies occur_in_order(
            pool,
            grown[i],
            grown[k],
        ) by {
            if i < longer.len() {
                assert(grown.take(longer.len() as int)[i] == longer[i]);
                assert(grown[i] == matched[i - thread.len()]);
                assert(wanted(grown[i]));
                if k < longer.len() {
                    assert(grown.take(longer.len() as int)[k] == longer[k]);
                    assert(grown[k] == matched[k - thread.len()]);
                    assert(occur_in_order(remaining, grown[i], grown[k]));
                } else {
                    assert(rest.contains(grown[k]));
                    let m = choose|m: int| 0 <= m < rest.len() && rest[m] == grown[k];
                    assert(unwanted(rest[m]));
                }
            }
        }
    }
}

/// Growing a thread leaves out no post that could carry the result on: each
/// post of `pool` that `author` wrote in reply to the last post of the result
/// stands in the result.
proof fn lemma_extend_is_maximal(
    thread: Seq<StatusView>,
    remaining: Seq<StatusView>,
    author: Seq<char>,
    pool: Seq<StatusView>,
)
    requires
        thread.len() >= 1,
        forall|k: int|
            0 <= k < pool.len() ==> appended_to(thread, #[trigger] pool[k]) || remaining.contains(
                pool[k],
            ),
    ensures
        forall|k: int|
            0 <= k < pool.len() && continues_thread(
                #[trigger] pool[k],
                author,
                extend_thread(thread, remaining, author).last().id,
            ) ==> appended_to(extend_thread(thread, remaining, author), pool[k]),
    decreases remaining.len(),
{
    let target = thread.last().id;
    let matched = matched_replies(remaining, author, target);
    let rest = unmatched_replies(remaining, author, target);
    lemma_filter_keeps(remaining, continuation(author, target));
    if matched.len() == 0 {
        assert forall|k: int|
            0 <= k < pool.len() && continues_thread(
                #[trigger] pool[k],
                author,
                target,
            ) implies appended_to(thread, pool[k]) by {
            if remaining.contains(pool[k]) {
                let j = choose|j: int| 0 <= j < remaining.len() && remaining[j] == pool[k];
                assert(continuation(author, target)(remaining[j]));
                assert(matched.contains(remaining[j]));
            }
        }
    } else {
        lemma_partition_len(remaining, author, target);
        lemma_filter_keeps(remaining, no_continuation(author, target));
        let longer = thread + matched;
        assert forall|k: int| 0 <= k < pool.len() implies appended_to(longer, #[trigger] pool[k])
            || rest.contains(pool[k]) by {
            if appended_to(thread, pool[k]) {
                let i = choose|i: int| 1 <= i < thread.len() && thread[i] == pool[k];
                assert(longer[i] == pool[k]);
            } else {
                let j = choose|j: int| 0 <= j < remaining.len() && remaining[j] == pool[k];
                if continues_thread(remaining[j], author, target) {
                    assert(continuation(author, target)(remaining[j]));
                    assert(matched.contains(remaining[j]));
                    let m = choose|m: int| 0 <= m < matched.len() && matched[m] == pool[k];
                    assert(longer[thread.len() + m] == pool[k]);
                } else {
                    assert(no_continuation(author, target)(remaining[j]));
                    assert(rest.contains(remaining[j]));
                }
            }
        }
        lemma_extend_is_maximal(longer, rest, author, pool);
    }
}

/// Growing a thread from the posts that growing it appended appends them
/// again, in the same order.
proof fn lemma_extend_is_idempotent(
    thread: Seq<StatusView>,
    remaining: Seq<StatusView>,
    author: Seq<char>,
)
    ensures
        extend_thread(
            thread,
            extend_thread(thread, remaining, author).skip(thread.len() as int),
            author,
        ) == extend_thread(thread, remaining, author),
    decreases remaining.len(),
{
    let target = thread.last().id;
    let wanted = continuation(author, target);
    let unwanted = no_continuation(author, target);
    let matched = matched_replies(remaining, author, target);
    let rest = unmatched_replies(remaining, author, target);
    let grown = extend_thread(thread, remaining, author);
    let appended = grown.skip(thread.len() as int);
    if matched.len() == 0 {
        assert(appended =~= Seq::<StatusView>::empty());
        lemma_filter_none(appended, wanted);
    } else {
        let longer = thread + matched;
        let tail = grown.skip(longer.len() as int);
        lemma_partition_len(remaining, author, target);
        lemma_extend_is_idempotent(longer, rest, author);
        lemma_extend_keeps_prefix(longer, rest, author);
        lemma_extend_appends_remaining_posts(longer, rest, author);
        lemma_filter_elements(remaining, wanted);
        lemma_filter_elements(remaining, unwanted);
        lemma_extend_appends_batch_first(thread, remaining, author);
        assert forall|i: int| 0 <= i < tail.len() implies !wanted(#[trigger] tail[i]) by {
            assert(rest.contains(grown[longer.len() + i]));
            let k = choose|k: int| 0 <= k < rest.len() && rest[k] == tail[i];
            assert(unwanted(rest[k]));
        }
        assert forall|i: int| 0 <= i < tail.len() implies unwanted(#[trigger] tail[i]) by {
            assert(!wanted(tail[i]));
        }
        assert forall|i: int| 0 <= i < matched.len() implies !unwanted(#[trigger] matched[i]) by {
            assert(wanted(matched[i]));
        }
        lemma_filter_all(matched, wanted);
        lemma_filter_none(tail, wanted);
        lemma_filter_none(matched, unwanted);
        lemma_filter_all(tail, unwanted);
        Seq::filter_distributes_over_add(matched, tail, wanted);
        Seq::filter_distributes_over_add(matched, tail, unwanted);
        assert(matched_replies(appended, author, target) =~= matched);
        assert(unmatched_replies(appended, author, target) =~= tail);
    }
}

/// A self-thread is never empty and starts with its root, whatever the
/// descendants are; it holds at most one post per descendant besides.
pub proof fn lemma_thread_starts_with_root(root: StatusView, descendants: Seq<StatusView>)
    ensures
        1 <= self_thread(root, descendants).len() <= 1 + descendants.len(),
        self_thread(root, descendants)[0] == root,
{
    lemma_extend_keeps_prefix(seq![root], descendants, root.account.id);
    assert(self_thread(root, descendants).take(1)[0] == root);
}

/// Where no descendant is written by the author of the root in reply to the
/// root, the self-thread is the root alone.
pub proof fn lemma_no_reply_to_root_gives_root_alone(
    root: StatusView,
    descendants: Seq<StatusView>,
)
    requires
        forall|k: int|
            0 <= k < descendants.len() ==> !continues_thread(
                #[trigger] descendants[k],
                root.account.id,
                root.id,
            ),
    ensures
        self_thread(root, descendants) == seq![root],
{
    let matched = matched_replies(descendants, root.account.id, root.id);
    lemma_filter_elements(descendants, continuation(root.account.id, root.id));
    if matched.len() > 0 {
        let post = matched[0];
        assert(descendants.contains(post));
        let k = choose|k: int| 0 <= k < descendants.len() && descendants[k] == post;
        assert(continues_thread(descendants[k], root.account.id, root.id));
    }
    assert(seq![root].last() == root);
}

/// Where no descendant is written by the author of the root, the self-thread
/// is the root alone.
pub proof fn lemma_foreign_descendants_give_root_alone(
    root: StatusView,
    descendants: Seq<StatusView>,
)
    requires
        forall|k: int|
            0 <= k < descendants.len() ==> (#[trigger] descendants[k]).account.id
                != root.account.id,
    ensures
        self_thread(root, descendants) == seq![root],
{
    lemma_no_reply_to_root_gives_root_alone(root, descendants);
}

/// Every post of a self-thread behind the root carries the thread on: the
/// author of the root wrote it, it has a reply target, and it replies to the
/// post just before it or, like that post, to an earlier one.
pub proof fn lemma_thread_is_chained(root: StatusView, descendants: Seq<StatusView>)
    ensures
        is_chained(self_thread(root, descendants)),
        forall|i: int|
            1 <= i < self_thread(root, descendants).len() ==> carries_on(
                self_thread(root, descendants),
                i,
                root.account.id,
            ),
{
    lemma_extend_carries_on(seq![root], descendants, root.account.id);
    lemma_thread_starts_with_root(root, descendants);
}

/// Where no two descendants by the author of the root reply to the same
/// post, every post of the self-thread behind the root replies to the post
/// just before it.
pub proof fn lemma_unshared_replies_give_strict_chain(
    root: StatusView,
    descendants: Seq<StatusView>,
)
    requires
        replies_are_unshared(descendants, root.account.id),
    ensures
        is_strict_chain(self_thread(root, descendants)),
{
    lemma_extend_strict_chain(seq![root], descendants, root.account.id);
}

/// Posts of a self-thread that reply to the same post keep the order of the
/// descendants: of two such posts behind the root, the one that comes first
/// in the thread stands among the descendants before the other.
pub proof fn lemma_siblings_keep_their_order(root: StatusView, descendants: Seq<StatusView>)
    ensures
        forall|i: int, k: int|
            1 <= i < k < self_thread(root, descendants).len() && (#[trigger] self_thread(
                root,
                descendants,
            )[i]).in_reply_to_id == (#[trigger] self_thread(root, descendants)[k]).in_reply_to_id
                ==> occur_in_order(
                descendants,
                self_thread(root, descendants)[i],
                self_thread(root, descendants)[k],
            ),
{
    lemma_extend_keeps_order_of_siblings(seq![root], descendants, root.account.id, descendants);
}

/// A descendant without a reply target never stands in a self-thread behind
/// the root.
pub proof fn lemma_thread_skips_posts_without_target(
    root: StatusView,
    descendants: Seq<StatusView>,
)
    ensures
        forall|i: int|
            1 <= i < self_thread(root, descendants).len() ==> (#[trigger] self_thread(
                root,
                descendants,
            )[i]).in_reply_to_id is Some,
        forall|k: int|
            0 <= k < descendants.len() && (#[trigger] descendants[k]).in_reply_to_id is None
                ==> !appended_to(self_thread(root, descendants), descendants[k]),
{
    let thread = self_thread(root, descendants);
    lemma_thread_is_chained(root, descendants);
    assert forall|i: int| 1 <= i < thread.len() implies (#[trigger] thread[i]).in_reply_to_id
        is Some by {
        assert(carries_on(thread, i, root.account.id));
    }
}

/// Every post of a self-thread behind the root is one of the descendants,
/// and none is used more often than the descendants hold it: counted with
/// repetition, the posts behind the root are among the descendants.
pub proof fn lemma_thread_draws_from_descendants(root: StatusView, descendants: Seq<StatusView>)
    ensures
        self_thread(root, descendants).skip(1).to_multiset().subset_of(
            descendants.to_multiset(),
        ),
        forall|i: int|
            1 <= i < self_thread(root, descendants).len() ==> descendants.contains(
                #[trigger] self_thread(root, descendants)[i],
            ),
{
    let thread = self_thread(root, descendants);
    let appended = thread.skip(1);
    lemma_extend_takes_from_remaining(seq![root], descendants, root.account.id);
    appended.to_multiset_ensures();
    descendants.to_multiset_ensures();
    assert forall|i: int| 1 <= i < thread.len() implies descendants.contains(
        #[trigger] thread[i],
    ) by {
        assert(appended[i - 1] == thread[i]);
        assert(appended.to_multiset().count(thread[i]) > 0);
        assert(descendants.to_multiset().count(thread[i]) > 0);
    }
}

/// A self-thread cannot be carried on: every descendant that the author of
/// the root wrote in reply to the last post of the thread stands in the
/// thread already.
pub proof fn lemma_thread_is_maximal(root: StatusView, descendants: Seq<StatusView>)
    ensures
        forall|k: int|
            0 <= k < descendants.len() && continues_thread(
                #[trigger] descendants[k],
                root.account.id,
                self_thread(root, descendants).last().id,
            ) ==> appended_to(self_thread(root, descendants), descendants[k]),
{
    lemma_extend_is_maximal(seq![root], descendants, root.account.id, descendants);
}

/// Reconstructing a self-thread from its own posts gives it back: with the
/// posts behind the root as descendants, the self-thread of the root is the
/// same thread.
pub proof fn lemma_thread_is_fixed_point(root: StatusView, descendants: Seq<StatusView>)
    ensures
        self_thread(root, self_thread(root, descendants).skip(1)) == self_thread(
            root,
            descendants,
        ),
{
    lemma_extend_is_idempotent(seq![root], descendants, root.account.id);
}

/// Reconstruction depends on what the posts hold and on nothing else: two
/// threads reconstructed from roots and descendants with the same views have
/// the same views, post for post.
pub proof fn lemma_same_input_same_thread(
    root: Status,
    descendants: Vec<Status>,
    thread: Vec<Status>,
    other_root: Status,
    other_descendants: Vec<Status>,
    other_thread: Vec<Status>,
)
    requires
        root@ == other_root@,
        descendants.deep_view() == other_descendants.deep_view(),
        thread.deep_view() == self_thread(root@, descendants.deep_view()),
        other_thread.deep_view() == self_thread(other_root@, other_descendants.deep_view()),
    ensures
        thread.deep_view() == other_thread.deep_view(),
        thread.len() == other_thread.len(),
        forall|i: int| 0 <= i < thread.len() ==> (#[trigger] thread[i])@ == other_thread[i]@,
{
    assert(thread.deep_view().len() == thread@.len());
    assert(other_thread.deep_view().len() == other_thread@.len());
    assert forall|i: int| 0 <= i < thread.len() implies (#[trigger] thread[i])@
        == other_thread[i]@ by {
        assert(thread.deep_view()[i] == thread[i]@);
        assert(other_thread.deep_view()[i] == other_thread[i]@);
    }
}

} // verus!
