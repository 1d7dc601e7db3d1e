//! Where a post lives: the server host and the post's identifier, read from a
//! pasted link or from the parameters of a route.

use vstd::prelude::*;

verus! {

/// The address of a post: the host of its server and its identifier there.
#[derive(Clone, Debug, PartialEq, Eq)]
pub struct PostAddress {
    pub host: String,
    pub id: String,
}

/// The view of a [`PostAddress`].
pub struct PostAddressView {
    pub host: Seq<char>,
    pub id: Seq<char>,
}

impl View for PostAddress {
    type V = PostAddressView;

    open spec fn view(&self) -> PostAddressView {
        PostAddressView { host: self.host@, id: self.id@ }
    }
}

impl DeepView for PostAddress {
    type V = PostAddressView;

    open spec fn deep_view(&self) -> PostAddressView {
        self@
    }
}

/// What the interpretation of a link reads from a parsed URL: its host, if it
/// has one, and the segments of its path, if it has a path of segments.
#[derive(Clone, Debug, PartialEq, Eq)]
pub struct UrlParts {
    pub host: Option<String>,
    pub path_segments: Option<Vec<String>>,
}

/// The view of [`UrlParts`].
pub struct UrlPartsView {
    pub host: Option<Seq<char>>,
    pub path_segments: Option<Seq<Seq<char>>>,
}

impl View for UrlParts {
    type V = UrlPartsView;

    open spec fn view(&self) -> UrlPartsView {
        UrlPartsView {
            host: self.host.deep_view(),
            path_segments: self.path_segments.deep_view(),
        }
    }
}

impl DeepView for UrlParts {
    type V = UrlPartsView;

    open spec fn deep_view(&self) -> UrlPartsView {
        self@
    }
}

/// Whether `c` is one of the ten decimal digits.
pub open spec fn is_decimal_digit(c: char) -> bool {
    '0' <= c <= '9'
}

/// Whether `text` consists of decimal digits only. The empty text does.
pub open spec fn is_numeric(text: Seq<char>) -> bool {
    forall|i: int| 0 <= i < text.len() ==> is_decimal_digit(#[trigger] text[i])
}

/// The address that the parts of a URL give: its host and the last segment of
/// its path, where it has both and that segment is numeric.
pub open spec fn address_of_parts(parts: UrlPartsView) -> Option<PostAddressView> {
    match (parts.host, parts.path_segments) {
        (Some(host), Some(segments)) => if segments.len() > 0 && is_numeric(segments.last()) {
            Some(PostAddressView { host, id: segments.last() })
        } else {
            None
        },
        _ => None,
    }
}

/// Tells whether `text` consists of decimal digits only.
pub fn has_only_digits(text: &str) -> (numeric: bool)
    ensures
        numeric == is_numeric(text@),
{
    for c in it: text.chars()
        invariant
            it.seq() == text@,
            forall|i: int| 0 <= i < it.index() ==> is_decimal_digit(#[trigger] text@[i]),
    {
        if !('0' <= c && c <= '9') {
            assert(!is_decimal_digit(text@[it.index()]));
            return false;
        }
    }
    true
}

/// Reads the address of a post from the parts of a URL: the host and the last
/// segment of the path, if the URL has both and that segment is numeric.
pub fn address_from_parts(parts: UrlParts) -> (address: Option<PostAddress>)
    ensures
        address.deep_view() == address_of_parts(parts@),
        address matches Some(found) ==> is_numeric(found.id@),
{
    match (parts.host, parts.path_segments) {
        (Some(host), Some(mut segments)) => {
            let ghost all = segments.deep_view();
            match segments.pop() {
                Some(id) => {
                    assert(all.last() == id@);
                    if has_only_digits(id.as_str()) {
                        Some(PostAddress { host, id })
                    } else {
                        None
                    }
                },
                None => None,
            }
        },
        _ => None,
    }
}

/// What parsing `input` as an absolute URL gives: nothing where it is not
/// one, else the host and the path segments of the URL that it denotes.
pub uninterp spec fn parsed_url(input: Seq<char>) -> Option<UrlPartsView>;

/// Parses `input` with `url::Url::parse` and reads the result with
/// `Url::host_str` and `Url::path_segments`.
///
/// Believed, not proved: the outcome is a function of the text of `input`
/// alone, named [`parsed_url`]. Nothing is claimed of which texts parse, nor
/// of what host or segments they give.
#[verifier::external_body]
fn parse_url(input: &str) -> (parts: Option<UrlParts>)
    ensures
        parts.deep_view() == parsed_url(input@),
{
    match url::Url::parse(input) {
        Ok(url) => Some(
            UrlParts {
                host: url.host_str().map(|host| host.to_owned()),
                path_segments: url.path_segments().map(
                    |segments| segments.map(|segment| segment.to_owned()).collect(),
                ),
            },
        ),
        Err(_) => None,
    }
}

/// The address that a pasted link gives: that of the parts of the URL it
/// parses to, and none where it does not parse.
pub open spec fn address_of_link(input: Seq<char>) -> Option<PostAddressView> {
    match parsed_url(input) {
        Some(parts) => address_of_parts(parts),
        None => None,
    }
}

/// Interprets a pasted link to a post.
///
/// Gives the host of the link and the last segment of its path as the
/// identifier of the post, if the link is an absolute URL with a host whose
/// last path segment is numeric; gives nothing for any other text.
pub fn interpret_url(input: &str) -> (address: Option<PostAddress>)
    ensures
        address.deep_view() == address_of_link(input@),
        address matches Some(found) ==> is_numeric(found.id@),
{
    match parse_url(input) {
        Some(parts) => address_from_parts(parts),
        None => None,
    }
}

/// The host that a route without a usable host parameter stands for.
pub const DEFAULT_HOST: &'static str = "mastodon.social";

/// The post that a route without a usable id parameter stands for.
pub const DEFAULT_ID: &'static str = "1";

/// The parameters that the route to a thread may carry. A route that names
/// only the post carries no host.
#[derive(Clone, Debug, PartialEq, Eq)]
pub struct RouteParams {
    pub host: Option<String>,
    pub id: Option<String>,
}

/// The view of [`RouteParams`].
pub struct RouteParamsView {
    pub host: Option<Seq<char>>,
    pub id: Option<Seq<char>>,
}

impl View for RouteParams {
    type V = RouteParamsView;

    open spec fn view(&self) -> RouteParamsView {
        RouteParamsView { host: self.host.deep_view(), id: self.id.deep_view() }
    }
}

impl DeepView for RouteParams {
    type V = RouteParamsView;

    open spec fn deep_view(&self) -> RouteParamsView {
        self@
    }
}

/// `value` where there is one, else `fallback`.
pub open spec fn or_fallback(value: Option<Seq<char>>, fallback: Seq<char>) -> Seq<char> {
    match value {
        Some(text) => text,
        None => fallback,
    }
}

/// The address that the parameters of a route stand for: each parameter that
/// is there, and the default for each that is not. Parameters that could not
/// be read at all stand for the default host and the default post.
pub open spec fn address_of_route(params: Option<RouteParamsView>) -> PostAddressView {
    match params {
        Some(given) => PostAddressView {
            host: or_fallback(given.host, DEFAULT_HOST@),
            id: or_fallback(given.id, DEFAULT_ID@),
        },
        None => PostAddressView { host: DEFAULT_HOST@, id: DEFAULT_ID@ },
    }
}

/// The path of the route that shows the thread of the post at `address`.
pub open spec fn route_of(address: PostAddressView) -> Seq<char> {
    "/"@ + address.host + "/"@ + address.id
}

/// The URL of the resource that describes the post at `address`.
pub open spec fn status_url_of(address: PostAddressView) -> Seq<char> {
    "https://"@ + address.host + "/api/v1/statuses/"@ + address.id
}

/// The URL of the resource that lists the replies below the post at `address`.
pub open spec fn context_url_of(address: PostAddressView) -> Seq<char> {
    status_url_of(address) + "/context"@
}

/// Gives `value` where there is one, else a copy of `fallback`.
fn text_or(value: Option<String>, fallback: &str) -> (text: String)
    ensures
        text@ == or_fallback(value.deep_view(), fallback@),
{
    match value {
        Some(text) => text,
        None => fallback.to_owned(),
    }
}

/// Reads the address of the post to show from the parameters of a route.
///
/// `params` is `None` where the route's parameters could not be read. A
/// parameter that is missing is replaced by its default, [`DEFAULT_HOST`] or
/// [`DEFAULT_ID`].
pub fn address_from_route(params: Option<RouteParams>) -> (address: PostAddress)
    ensures
        address@ == address_of_route(params.deep_view()),
{
    match params {
        Some(given) => PostAddress {
            host: text_or(given.host, DEFAULT_HOST),
            id: text_or(given.id, DEFAULT_ID),
        },
        None => PostAddress { host: DEFAULT_HOST.to_owned(), id: DEFAULT_ID.to_owned() },
    }
}

impl PostAddress {
    /// The path of the route that shows the thread of this post:
    /// `/{host}/{id}`.
    pub fn route(&self) -> (path: String)
        ensures
            path@ == route_of(self@),
    {
        let mut path = "/".to_owned();
        path.append(self.host.as_str());
        path.append("/");
        path.append(self.id.as_str());
        path
    }

    /// The URL to fetch the post from:
    /// `https://{host}/api/v1/statuses/{id}`.
    pub fn status_url(&self) -> (url: String)
        ensures
            url@ == status_url_of(self@),
    {
        let mut url = "https://".to_owned();
        url.append(self.host.as_str());
        url.append("/api/v1/statuses/");
        url.append(self.id.as_str());
        url
    }

    /// The URL to fetch the replies below the post from:
    /// `https://{host}/api/v1/statuses/{id}/context`.
    pub fn context_url(&self) -> (url: String)
        ensures
            url@ == context_url_of(self@),
    {
        let mut url = self.status_url();
        url.append("/context");
        url
    }
}

} // verus!
