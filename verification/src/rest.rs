//! Requests to the REST interface, as plain descriptions: which method, which
//! URL, which credentials. Sending them is left to the caller.

use crate::client::ClientData;
use crate::text::same_bytes;
use vstd::prelude::*;
use vstd::slice::slice_subrange;
use vstd::string::StringExecFns;
use vstd::utf8::encode_utf8;

verus! {

#[derive(Debug, Clone, Copy, PartialEq, Eq)]
pub enum HTTPMethod {
    GET,
    POST,
    PATCH,
    DELETE,
    PUT,
}

/// A request, ready to be sent.
#[derive(Debug, PartialEq, Eq)]
pub struct RestRequest {
    pub method: HTTPMethod,
    pub url: String,
    /// The value of the `Authorization` header, if there is a token.
    pub authorization: Option<String>,
}

/// The mathematical value of a request.
pub struct RequestView {
    pub method: HTTPMethod,
    pub url: Seq<char>,
    pub authorization: Option<Seq<char>>,
}

/// The mathematical value of a router: the route so far, and the token.
pub struct RouterView {
    pub route: Seq<char>,
    pub token: Option<Seq<char>>,
}

impl RouterView {
    /// The route with one more segment.
    pub open spec fn step(self, segment: Seq<char>) -> RouterView {
        RouterView { route: self.route + "/"@ + segment, token: self.token }
    }

    /// The request for the route, with the token after the word `Bot`.
    pub open spec fn request(self, method: HTTPMethod) -> RequestView {
        RequestView {
            method,
            url: self.route,
            authorization: match self.token {
                Some(token) => Some("Bot "@ + token),
                None => None,
            },
        }
    }
}

impl RestRequest {
    pub open spec fn view(&self) -> RequestView {
        RequestView {
            method: self.method,
            url: self.url@,
            authorization: match self.authorization {
                Some(a) => Some(a@),
                None => None,
            },
        }
    }
}

/// A route of the REST interface under construction.
pub struct APIRouter {
    route: String,
    token: Option<String>,
}

impl APIRouter {
    pub closed spec fn view(&self) -> RouterView {
        RouterView {
            route: self.route@,
            token: match self.token {
                Some(t) => Some(t@),
                None => None,
            },
        }
    }

    /// The router at the root of the interface.
    pub open spec fn start(token: Option<Seq<char>>) -> RouterView {
        RouterView { route: "https://discord.com/api/v9"@, token }
    }

    /// A router at the root of the interface, with the client's token.
    pub fn new(data: &ClientData) -> (r: APIRouter)
        ensures
            r@ == Self::start(
                match data.token {
                    Some(t) => Some(t@),
                    None => None,
                },
            ),
    {
        APIRouter {
            route: String::from_str("https://discord.com/api/v9"),
            token: match &data.token {
                Some(t) => Some(t.clone()),
                None => None,
            },
        }
    }

    /// The route so far.
    pub fn _url(&self) -> (r: String)
        ensures
            r@ == self@.route,
    {
        self.route.clone()
    }

    /// The router one segment further down the route.
    pub fn index(self, segment: &str) -> (r: APIRouter)
        ensures
            r@ == self@.step(segment@),
    {
        let mut route = self.route;
        route.append("/");
        route.append(segment);
        APIRouter { route, token: self.token }
    }

    /// The request for the route with the given method.
    pub fn _build_request(&self, method: HTTPMethod) -> (r: RestRequest)
        ensures
            r@ == self@.request(method),
    {
        RestRequest {
            method,
            url: self.route.clone(),
            authorization: match &self.token {
                Some(token) => {
                    let mut value = String::from_str("Bot ");
                    value.append(token.as_str());
                    Some(value)
                },
                None => None,
            },
        }
    }

    pub fn get(&self) -> (r: RestRequest)
        ensures
            r@ == self@.request(HTTPMethod::GET),
    {
        self._build_request(HTTPMethod::GET)
    }

    pub fn post(&self) -> (r: RestRequest)
        ensures
            r@ == self@.request(HTTPMethod::POST),
    {
        self._build_request(HTTPMethod::POST)
    }

    pub fn patch(&self) -> (r: RestRequest)
        ensures
            r@ == self@.request(HTTPMethod::PATCH),
    {
        self._build_request(HTTPMethod::PATCH)
    }

    pub fn delete(&self) -> (r: RestRequest)
        ensures
            r@ == self@.request(HTTPMethod::DELETE),
    {
        self._build_request(HTTPMethod::DELETE)
    }

    pub fn put(&self) -> (r: RestRequest)
        ensures
            r@ == self@.request(HTTPMethod::PUT),
    {
        self._build_request(HTTPMethod::PUT)
    }
}

/// Whether `needle` stands somewhere in `hay`.
pub open spec fn contains_bytes(hay: Seq<u8>, needle: Seq<u8>) -> bool {
    exists|i: int|
        0 <= i && i + needle.len() <= hay.len() && #[trigger] hay.subrange(i, i + needle.len())
            == needle
}

/// Whether a body is JSON by its content type: the header is there and its
/// bytes hold those of `application/json`.
pub open spec fn is_json_spec(content_type: Option<Seq<char>>) -> bool {
    match content_type {
        Some(value) => contains_bytes(encode_utf8(value), encode_utf8("application/json"@)),
        None => false,
    }
}

/// Whether `needle` stands somewhere in `hay`.
pub fn find_bytes(hay: &[u8], needle: &[u8]) -> (r: bool)
    ensures
        r == contains_bytes(hay@, needle@),
{
    if needle.len() > hay.len() {
        return false;
    }
    let last: usize = hay.len() - needle.len();
    let mut i: usize = 0;
    loop
        invariant
            needle@.len() <= hay@.len(),
            last == hay@.len() - needle@.len(),
            hay@.len() <= usize::MAX,
            i <= last,
            forall|j: int| 0 <= j < i ==> #[trigger] hay@.subrange(j, j + needle@.len()) != needle@,
        decreases last - i,
    {
        let window = slice_subrange(hay, i, i + needle.len());
        if same_bytes(window, needle) {
            return true;
        }
        if i == last {
            return false;
        }
        i = i + 1;
    }
}

/// Whether a body is JSON by its content type.
pub fn is_json(content_type: Option<&str>) -> (r: bool)
    ensures
        r == is_json_spec(
            match content_type {
                Some(v) => Some(v@),
                None => None,
            },
        ),
{
    match content_type {
        Some(value) => find_bytes(value.as_bytes(), "application/json".as_bytes()),
        None => false,
    }
}

} // verus!
