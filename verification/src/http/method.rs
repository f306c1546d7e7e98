//! The request method.

use crate::text::str_eq;
use vstd::prelude::*;
use vstd::string::StringExecFns;

verus! {

/// The verb of a request.
#[derive(Debug)]
pub enum Method {
    Get,
    Post,
    Put,
    Delete,
    /// Any other verb, kept as it was received.
    Unknown(String),
}

/// A method whose unknown verb is held as plain text.
pub enum MethodView {
    Get,
    Post,
    Put,
    Delete,
    Unknown(Seq<char>),
}

impl MethodView {
    /// The verb as it stands on the request line.
    pub open spec fn token(self) -> Seq<char> {
        match self {
            MethodView::Get => "GET"@,
            MethodView::Post => "POST"@,
            MethodView::Put => "PUT"@,
            MethodView::Delete => "DELETE"@,
            MethodView::Unknown(verb) => verb,
        }
    }

    /// Whether `token` is one of the four verbs that have a variant of
    /// their own.
    pub open spec fn known(token: Seq<char>) -> bool {
        token == "GET"@ || token == "POST"@ || token == "PUT"@ || token == "DELETE"@
    }

    /// The method that `token` names. No token is refused.
    pub open spec fn of(token: Seq<char>) -> MethodView {
        if token == "GET"@ {
            MethodView::Get
        } else if token == "POST"@ {
            MethodView::Post
        } else if token == "PUT"@ {
            MethodView::Put
        } else if token == "DELETE"@ {
            MethodView::Delete
        } else {
            MethodView::Unknown(token)
        }
    }
}

impl View for Method {
    type V = MethodView;

    open spec fn view(&self) -> MethodView {
        match self {
            Method::Get => MethodView::Get,
            Method::Post => MethodView::Post,
            Method::Put => MethodView::Put,
            Method::Delete => MethodView::Delete,
            Method::Unknown(verb) => MethodView::Unknown(verb@),
        }
    }
}

impl Method {
    /// The method that `token` names.
    pub fn from_token(token: &str) -> (method: Method)
        ensures
            method@ == MethodView::of(token@),
    {
        if str_eq(token, "GET") {
            Method::Get
        } else if str_eq(token, "POST") {
            Method::Post
        } else if str_eq(token, "PUT") {
            Method::Put
        } else if str_eq(token, "DELETE") {
            Method::Delete
        } else {
            Method::Unknown(String::from_str(token))
        }
    }

    /// The verb as it stands on the request line.
    pub fn to_str(&self) -> (verb: &str)
        ensures
            verb@ == self@.token(),
    {
        match self {
            Method::Get => "GET",
            Method::Post => "POST",
            Method::Put => "PUT",
            Method::Delete => "DELETE",
            Method::Unknown(method) => method.as_str(),
        }
    }

    /// Whether this is `GET`.
    pub fn is_get(&self) -> (yes: bool)
        ensures
            yes == (self@ == MethodView::Get),
    {
        match self {
            Method::Get => true,
            _ => false,
        }
    }

    /// Whether this is `POST`.
    pub fn is_post(&self) -> (yes: bool)
        ensures
            yes == (self@ == MethodView::Post),
    {
        match self {
            Method::Post => true,
            _ => false,
        }
    }

    /// Whether this is `PUT`.
    pub fn is_put(&self) -> (yes: bool)
        ensures
            yes == (self@ == MethodView::Put),
    {
        match self {
            Method::Put => true,
            _ => false,
        }
    }

    /// Whether this is `DELETE`.
    pub fn is_delete(&self) -> (yes: bool)
        ensures
            yes == (self@ == MethodView::Delete),
    {
        match self {
            Method::Delete => true,
            _ => false,
        }
    }
}

/// A verb that is none of `GET`, `POST`, `PUT` and `DELETE` is kept as it is:
/// its method is `Unknown` with that very verb.
pub proof fn lemma_unknown_verb_is_kept(token: Seq<char>)
    requires
        !MethodView::known(token),
    ensures
        MethodView::of(token) == MethodView::Unknown(token),
{
}

/// The verb of a method names that method again, but for an `Unknown` that
/// holds one of the four known verbs.
pub proof fn lemma_token_names_method(method: MethodView)
    requires
        method matches MethodView::Unknown(verb) ==> !MethodView::known(verb),
    ensures
        MethodView::of(method.token()) == method,
{
    reveal_strlit("GET");
    reveal_strlit("POST");
    reveal_strlit("PUT");
    reveal_strlit("DELETE");
    if method is Post {
        assert("POST"@.len() != "GET"@.len());
    }
    if method is Put {
        assert("PUT"@[0] != "GET"@[0]);
        assert("PUT"@.len() != "POST"@.len());
    }
    if method is Delete {
        assert("DELETE"@.len() != "GET"@.len());
        assert("DELETE"@.len() != "POST"@.len());
        assert("DELETE"@.len() != "PUT"@.len());
    }
}

} // verus!
