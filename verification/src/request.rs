//! The slice of an HTTP request the file server reads: the method, the URI,
//! and the four recognised headers.

use vstd::prelude::*;
use vstd::string::StringExecFns;

verus! {

/// The request method, as far as the server distinguishes it.
#[derive(Clone, Copy, Debug, PartialEq, Eq, Structural)]
pub enum HttpMethod {
    Get,
    Head,
    /// Any other method.
    Other,
}

/// A request URI, split into its parts. The path is the decoded-on-the-wire
/// path, always beginning with `/` for origin-form requests.
#[derive(Clone, Debug)]
pub struct Uri {
    pub scheme: Option<String>,
    pub authority: Option<String>,
    pub path: String,
    pub query: Option<String>,
}

/// The characters of a URI built from its parts:
/// `scheme ":" "//" authority path "?" query`, each part only when present.
pub open spec fn uri_chars(
    scheme: Option<Seq<char>>,
    authority: Option<Seq<char>>,
    path: Seq<char>,
    query: Option<Seq<char>>,
) -> Seq<char> {
    (match scheme {
        Option::Some(s) => s + seq![':', '/', '/'],
        Option::None => Seq::empty(),
    }) + (match authority {
        Option::Some(a) => a,
        Option::None => Seq::empty(),
    }) + path + (match query {
        Option::Some(q) => seq!['?'] + q,
        Option::None => Seq::empty(),
    })
}

impl Uri {
    /// The characters of this URI.
    pub open spec fn chars(&self) -> Seq<char> {
        uri_chars(
            match self.scheme {
                Option::Some(ref s) => Some(s@),
                Option::None => None,
            },
            match self.authority {
                Option::Some(ref a) => Some(a@),
                Option::None => None,
            },
            self.path@,
            match self.query {
                Option::Some(ref q) => Some(q@),
                Option::None => None,
            },
        )
    }

    /// Write the URI out as one string.
    pub fn to_uri_string(&self) -> (r: String)
        ensures
            r@ == self.chars(),
    {
        let mut out = String::new();
        match &self.scheme {
            Option::Some(s) => {
                out.append(s.as_str());
                let sep = "://";
                proof {
                    reveal_strlit("://");
                    assert(sep@ =~= seq![':', '/', '/']);
                }
                out.append(sep);
            },
            Option::None => {},
        }
        match &self.authority {
            Option::Some(a) => out.append(a.as_str()),
            Option::None => {},
        }
        out.append(self.path.as_str());
        match &self.query {
            Option::Some(q) => {
                let sep = "?";
                proof {
                    reveal_strlit("?");
                    assert(sep@ =~= seq!['?']);
                }
                out.append(sep);
                out.append(q.as_str());
            },
            Option::None => {},
        }
        proof {
            assert(out@ =~= self.chars());
        }
        out
    }
}

/// Append a trailing slash to the URI's path, preserving scheme, authority
/// and query: where a request for a directory is redirected to.
pub fn append_slash_on_path(uri: Uri) -> (r: Uri)
    ensures
        r.chars() == uri_chars(
            match uri.scheme {
                Option::Some(ref s) => Some(s@),
                Option::None => None,
            },
            match uri.authority {
                Option::Some(ref a) => Some(a@),
                Option::None => None,
            },
            uri.path@ + seq!['/'],
            match uri.query {
                Option::Some(ref q) => Some(q@),
                Option::None => None,
            },
        ),
{
    let Uri { scheme, authority, mut path, query } = uri;
    let slash = "/";
    proof {
        reveal_strlit("/");
        assert(slash@ =~= seq!['/']);
    }
    path.append(slash);
    Uri { scheme, authority, path, query }
}

/// What the server reads from a request: the method, the URI, and the four
/// headers it recognises, each as delivered.
#[derive(Clone, Debug)]
pub struct HttpRequest {
    pub method: HttpMethod,
    pub uri: Uri,
    pub accept_encoding: Option<String>,
    pub range: Option<String>,
    pub if_modified_since: Option<String>,
    pub if_unmodified_since: Option<String>,
}

/// Copy an optional string, field for field.
pub fn clone_opt_string(o: &Option<String>) -> (r: Option<String>)
    ensures
        r == *o,
{
    match o {
        Option::Some(s) => Some(s.clone()),
        Option::None => None,
    }
}

/// Copy a URI, field for field.
pub fn clone_uri(uri: &Uri) -> (r: Uri)
    ensures
        r == *uri,
{
    Uri {
        scheme: clone_opt_string(&uri.scheme),
        authority: clone_opt_string(&uri.authority),
        path: uri.path.clone(),
        query: clone_opt_string(&uri.query),
    }
}

/// The view of an optional header value.
pub open spec fn opt_chars(h: &Option<String>) -> Option<Seq<char>> {
    match h {
        Option::Some(s) => Some(s@),
        Option::None => None,
    }
}

} // verus!
