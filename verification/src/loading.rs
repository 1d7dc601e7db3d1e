//! From what a fetch brought back to what a view shows: the failures of a
//! fetch, the thread that a successful fetch gives, and the state of a thread
//! view.

use crate::model::{Context, Status, StatusView};
use crate::thread::{reconstruct_thread, self_thread};
use vstd::prelude::*;

verus! {

/// Why the post and its replies could not be had from the server.
#[derive(Clone, Copy, Debug, PartialEq, Eq)]
pub enum FetchError {
    /// A request did not complete, or the server answered it with a status
    /// outside the 2xx range.
    Network,
    /// A response did not hold the expected document.
    Decode,
}

/// What a thread view shows.
#[derive(Clone, Debug, PartialEq, Eq)]
pub enum ThreadState {
    /// The fetch has not come back yet.
    Loading,
    /// The fetch came back; the posts of the self-thread, in order.
    Ready(Vec<Status>),
    /// The fetch failed.
    Failed(FetchError),
}

/// The view of a [`ThreadState`].
pub enum ThreadStateView {
    Loading,
    Ready(Seq<StatusView>),
    Failed(FetchError),
}

impl View for ThreadState {
    type V = ThreadStateView;

    open spec fn view(&self) -> ThreadStateView {
        match *self {
            ThreadState::Loading => ThreadStateView::Loading,
            ThreadState::Ready(thread) => ThreadStateView::Ready(thread.deep_view()),
            ThreadState::Failed(error) => ThreadStateView::Failed(error),
        }
    }
}

impl DeepView for ThreadState {
    type V = ThreadStateView;

    open spec fn deep_view(&self) -> ThreadStateView {
        self@
    }
}

/// Whether an HTTP status code reports success: the codes from 200 to 299.
pub open spec fn is_success(code: u16) -> bool {
    200 <= code <= 299
}

/// Judges the status code of a response: any code outside the 2xx range is a
/// network failure.
pub fn check_status(code: u16) -> (outcome: Result<(), FetchError>)
    ensures
        outcome == if is_success(code) {
            Ok::<(), FetchError>(())
        } else {
            Err::<(), FetchError>(FetchError::Network)
        },
{
    if 200 <= code && code <= 299 {
        Ok(())
    } else {
        Err(FetchError::Network)
    }
}

/// The thread that the outcome of a fetch gives: the self-thread of the post
/// among the descendants that came with it, or the failure of the fetch.
pub open spec fn thread_of_fetch(fetched: Result<(Status, Context), FetchError>) -> Result<
    Seq<StatusView>,
    FetchError,
> {
    match fetched {
        Ok((root, context)) => Ok(self_thread(root@, context@)),
        Err(error) => Err(error),
    }
}

/// The views of the posts of a thread that was assembled, or the failure in
/// its place.
pub open spec fn views_of(thread: Result<Vec<Status>, FetchError>) -> Result<
    Seq<StatusView>,
    FetchError,
> {
    match thread {
        Ok(posts) => Ok(posts.deep_view()),
        Err(error) => Err(error),
    }
}

/// Turns the outcome of a fetch into the thread to show: reconstructs the
/// self-thread of a fetched post, and hands a failure on unchanged.
pub fn assemble_thread(fetched: Result<(Status, Context), FetchError>) -> (thread: Result<
    Vec<Status>,
    FetchError,
>)
    ensures
        views_of(thread) == thread_of_fetch(fetched),
{
    match fetched {
        Ok((root, context)) => Ok(reconstruct_thread(root, context.descendants)),
        Err(error) => Err(error),
    }
}

/// The state that a view is in, given what is known of its thread so far.
pub open spec fn state_of(progress: Option<Result<Vec<Status>, FetchError>>) -> ThreadState {
    match progress {
        None => ThreadState::Loading,
        Some(Ok(thread)) => ThreadState::Ready(thread),
        Some(Err(error)) => ThreadState::Failed(error),
    }
}

impl ThreadState {
    /// The state of a view whose thread is still being fetched (`None`), has
    /// arrived, or has failed to arrive.
    pub fn from_progress(progress: Option<Result<Vec<Status>, FetchError>>) -> (state: ThreadState)
        ensures
            state == state_of(progress),
    {
        match progress {
            None => ThreadState::Loading,
            Some(Ok(thread)) => ThreadState::Ready(thread),
            Some(Err(error)) => ThreadState::Failed(error),
        }
    }
}

} // verus!
