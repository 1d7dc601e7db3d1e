//! Reading self-threads from Mastodon-protocol servers.
//!
//! A self-thread is the chain of replies that the author of a post wrote to
//! their own post. This crate holds the pure logic of a thread reader: the
//! data model of posts, the reconstruction of a self-thread from the flat list
//! of reply descendants that a server returns, the interpretation of a pasted
//! post link, the addresses of the server resources to fetch, and the state
//! that a view shows while a thread loads.
//!
//! - [`model`]: accounts, posts and reply contexts, with their views.
//! - [`thread`]: the self-thread of a post as a function on views, and the
//!   executable reconstruction that computes it.
//! - [`thread_lemmas`]: what holds of every self-thread.
//! - [`address`]: the address of a post, read from a link or from a route, and
//!   the paths and URLs that it gives.
//! - [`loading`]: fetch failures, and the state of a thread view.
//! - [`seq_filter`]: facts about filtered sequences that the proofs rest on.
//!
//! Requests, decoding and rendering are left to the program around this
//! crate; nothing here touches the network.

pub mod address;
pub mod loading;
pub mod model;
pub mod seq_filter;
pub mod thread;
pub mod thread_lemmas;
