//! The data model: accounts, posts and the reply context of a post, each with
//! the mathematical view that the contracts of this crate speak of.

use vstd::prelude::*;

verus! {

/// The author of a post, as the remote server describes it.
#[derive(Clone, Debug, PartialEq, Eq)]
pub struct Account {
    /// Server-scoped identifier of the account.
    pub id: String,
    pub username: String,
    pub display_name: String,
}

/// The view of an [`Account`]: its fields as sequences of characters.
pub struct AccountView {
    pub id: Seq<char>,
    pub username: Seq<char>,
    pub display_name: Seq<char>,
}

impl View for Account {
    type V = AccountView;

    open spec fn view(&self) -> AccountView {
        AccountView { id: self.id@, username: self.username@, display_name: self.display_name@ }
    }
}

impl DeepView for Account {
    type V = AccountView;

    open spec fn deep_view(&self) -> AccountView {
        self@
    }
}

/// A single post ("status") on the remote server.
#[derive(Clone, Debug, PartialEq, Eq)]
pub struct Status {
    /// Server-scoped identifier of the post.
    pub id: String,
    /// Identifier of the post that this one replies to; absent for a post
    /// that starts a conversation.
    pub in_reply_to_id: Option<String>,
    pub account: Account,
    /// The body of the post, as HTML rendered by the server.
    pub content: String,
}

/// The view of a [`Status`].
pub struct StatusView {
    pub id: Seq<char>,
    pub in_reply_to_id: Option<Seq<char>>,
    pub account: AccountView,
    pub content: Seq<char>,
}

impl View for Status {
    type V = StatusView;

    open spec fn view(&self) -> StatusView {
        StatusView {
            id: self.id@,
            in_reply_to_id: match self.in_reply_to_id {
                Some(target) => Some(target@),
                None => None,
            },
            account: self.account@,
            content: self.content@,
        }
    }
}

impl DeepView for Status {
    type V = StatusView;

    open spec fn deep_view(&self) -> StatusView {
        self@
    }
}

/// What the server knows around one post: every reply below it, at any depth
/// and by any author, in the order the server lists them.
#[derive(Clone, Debug, PartialEq, Eq)]
pub struct Context {
    pub descendants: Vec<Status>,
}

impl View for Context {
    type V = Seq<StatusView>;

    open spec fn view(&self) -> Seq<StatusView> {
        self.descendants.deep_view()
    }
}

impl DeepView for Context {
    type V = Seq<StatusView>;

    open spec fn deep_view(&self) -> Seq<StatusView> {
        self@
    }
}

} // verus!
