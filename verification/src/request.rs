//! The request model: methods, errors, path and version validation, and the
//! builder that assembles a validated request.

use vstd::prelude::*;

use crate::headers::Headers;

verus! {

/// The closed set of supported request methods.
#[derive(Clone, Copy, Debug, PartialEq, Eq, Structural)]
pub enum Method {
    Get,
    Post,
    Delete,
    Put,
}

/// ASCII lower-casing of a single character; characters outside `A`..`Z`
/// are unchanged.
pub open spec fn lower_char(c: char) -> char {
    if 65 <= c as u32 <= 90 {
        ((c as u32 + 32) as u8) as char
    } else {
        c
    }
}

/// ASCII lower-casing of a character sequence.
pub open spec fn lower_chars(s: Seq<char>) -> Seq<char> {
    s.map(|i: int, c: char| lower_char(c))
}

pub open spec fn get_chars() -> Seq<char> {
    seq!['g', 'e', 't']
}

pub open spec fn post_chars() -> Seq<char> {
    seq!['p', 'o', 's', 't']
}

pub open spec fn delete_chars() -> Seq<char> {
    seq!['d', 'e', 'l', 'e', 't', 'e']
}

pub open spec fn put_chars() -> Seq<char> {
    seq!['p', 'u', 't']
}

/// The method a token denotes, compared case-insensitively; `None` for a
/// token outside the supported set.
pub open spec fn method_of(s: Seq<char>) -> Option<Method> {
    if lower_chars(s) == get_chars() {
        Some(Method::Get)
    } else if lower_chars(s) == post_chars() {
        Some(Method::Post)
    } else if lower_chars(s) == delete_chars() {
        Some(Method::Delete)
    } else if lower_chars(s) == put_chars() {
        Some(Method::Put)
    } else {
        None
    }
}

/// ASCII lower-casing of one character.
pub(crate) fn lower_char_exec(c: char) -> (r: char)
    ensures
        r == lower_char(c),
{
    let u = c as u32;
    if 65 <= u && u <= 90 {
        ((u + 32) as u8) as char
    } else {
        c
    }
}

impl Method {
    /// Parses a method token case-insensitively against the supported set.
    pub fn parse(s: &str) -> (r: Option<Method>)
        ensures
            r == method_of(s@),
    {
        proof {
            assert forall|i: int| 0 <= i < s@.len() implies lower_chars(s@)[i] == lower_char(
                s@[i],
            ) by {}
        }
        let n = s.unicode_len();
        if n == 3 && lower_char_exec(s.get_char(0)) == 'g' && lower_char_exec(s.get_char(1)) == 'e'
            && lower_char_exec(s.get_char(2)) == 't' {
            proof {
                assert(lower_chars(s@) =~= get_chars());
            }
            Some(Method::Get)
        } else if n == 4 && lower_char_exec(s.get_char(0)) == 'p' && lower_char_exec(s.get_char(1))
            == 'o' && lower_char_exec(s.get_char(2)) == 's' && lower_char_exec(s.get_char(3))
            == 't' {
            proof {
                assert(lower_chars(s@) =~= post_chars());
            }
            Some(Method::Post)
        } else if n == 6 && lower_char_exec(s.get_char(0)) == 'd' && lower_char_exec(s.get_char(1))
            == 'e' && lower_char_exec(s.get_char(2)) == 'l' && lower_char_exec(s.get_char(3))
            == 'e' && lower_char_exec(s.get_char(4)) == 't' && lower_char_exec(s.get_char(5))
            == 'e' {
            proof {
                assert(lower_chars(s@) =~= delete_chars());
            }
            Some(Method::Delete)
        } else if n == 3 && lower_char_exec(s.get_char(0)) == 'p' && lower_char_exec(s.get_char(1))
            == 'u' && lower_char_exec(s.get_char(2)) == 't' {
            proof {
                assert(lower_chars(s@) =~= put_chars());
            }
            Some(Method::Put)
        } else {
            proof {
                assert(lower_chars(s@).len() == s@.len());
                assert(method_of(s@) is None) by {
                    if lower_chars(s@) == get_chars() {
                        assert(lower_chars(s@)[0] == 'g' && lower_chars(s@)[1] == 'e'
                            && lower_chars(s@)[2] == 't');
                    }
                    if lower_chars(s@) == post_chars() {
                        assert(lower_chars(s@)[0] == 'p' && lower_chars(s@)[1] == 'o'
                            && lower_chars(s@)[2] == 's' && lower_chars(s@)[3] == 't');
                    }
                    if lower_chars(s@) == delete_chars() {
                        assert(lower_chars(s@)[0] == 'd' && lower_chars(s@)[1] == 'e'
                            && lower_chars(s@)[2] == 'l' && lower_chars(s@)[3] == 'e'
                            && lower_chars(s@)[4] == 't' && lower_chars(s@)[5] == 'e');
                    }
                    if lower_chars(s@) == put_chars() {
                        assert(lower_chars(s@)[0] == 'p' && lower_chars(s@)[1] == 'u'
                            && lower_chars(s@)[2] == 't');
                    }
                }
            }
            None
        }
    }
}

/// Law: method parsing is case-insensitive — a token parses exactly as its
/// ASCII-lower-cased form does.
pub proof fn lemma_method_case_insensitive(s: Seq<char>)
    ensures
        method_of(s) == method_of(lower_chars(s)),
{
    assert(lower_chars(lower_chars(s)) =~= lower_chars(s)) by {
        assert forall|i: int| 0 <= i < s.len() implies lower_chars(lower_chars(s))[i]
            == lower_chars(s)[i] by {
            assert(lower_chars(s)[i] == lower_char(s[i]));
        }
    }
}

/// A character allowed inside a path segment: `A`-`Z`, `a`-`z`, `0`-`9`,
/// `_` or `-`.
pub open spec fn is_segment_char(c: char) -> bool {
    (65 <= c as u32 <= 90) || (97 <= c as u32 <= 122) || (48 <= c as u32 <= 57) || c == '_' || c
        == '-'
}

/// The path grammar: `/`, optionally followed by segments of segment
/// characters separated by single `/`; no empty segment, no trailing `/`
/// beyond the root.
pub open spec fn valid_path(s: Seq<char>) -> bool {
    &&& s.len() >= 1
    &&& s[0] == '/'
    &&& forall|i: int| 1 <= i < s.len() ==> (is_segment_char(#[trigger] s[i]) || s[i] == '/')
    &&& forall|i: int| 1 <= i < s.len() ==> !(#[trigger] s[i] == '/' && s[i - 1] == '/')
    &&& s.len() > 1 ==> s[s.len() - 1] != '/'
}

fn is_segment_char_exec(c: char) -> (r: bool)
    ensures
        r == is_segment_char(c),
{
    let u = c as u32;
    (65 <= u && u <= 90) || (97 <= u && u <= 122) || (48 <= u && u <= 57) || c == '_' || c == '-'
}

/// Checks a path against the grammar by a single character scan.
pub fn is_valid_path(path: &str) -> (r: bool)
    ensures
        r == valid_path(path@),
{
    let n = path.unicode_len();
    if n == 0 {
        return false;
    }
    if path.get_char(0) != '/' {
        return false;
    }
    let mut i: usize = 1;
    let mut prev: char = '/';
    while i < n
        invariant
            1 <= i <= n,
            n == path@.len(),
            path@[0] == '/',
            i > 1 ==> prev == path@[i - 1],
            i == 1 ==> prev == '/',
            forall|j: int| 1 <= j < i ==> (is_segment_char(#[trigger] path@[j]) || path@[j] == '/'),
            forall|j: int| 1 <= j < i ==> !(#[trigger] path@[j] == '/' && path@[j - 1] == '/'),
        decreases n - i,
    {
        let c = path.get_char(i);
        if !is_segment_char_exec(c) && c != '/' {
            return false;
        }
        if c == '/' && prev == '/' {
            return false;
        }
        prev = c;
        i += 1;
    }
    if n > 1 && prev == '/' {
        return false;
    }
    true
}

/// The version prefix `HTTP/`.
pub open spec fn version_prefix() -> Seq<char> {
    seq!['H', 'T', 'T', 'P', '/']
}

/// Whether a version token starts with the literal `HTTP/`.
pub open spec fn valid_version(s: Seq<char>) -> bool {
    s.len() >= 5 && s.subrange(0, 5) == version_prefix()
}

/// Checks that a version token starts with the literal `HTTP/`.
pub fn is_valid_version(version: &str) -> (r: bool)
    ensures
        r == valid_version(version@),
{
    let n = version.unicode_len();
    if n < 5 {
        return false;
    }
    let r = version.get_char(0) == 'H' && version.get_char(1) == 'T' && version.get_char(2) == 'T'
        && version.get_char(3) == 'P' && version.get_char(4) == '/';
    proof {
        if r {
            assert(version@.subrange(0, 5) =~= version_prefix());
        } else {
            assert(version@.subrange(0, 5) != version_prefix()) by {
                if version@.subrange(0, 5) == version_prefix() {
                    assert(version@[0] == 'H' && version@[1] == 'T' && version@[2] == 'T'
                        && version@[3] == 'P' && version@[4] == '/') by {
                        assert forall|i: int| 0 <= i < 5 implies version@[i] == version_prefix()[i]
                            by {
                            assert(version@.subrange(0, 5)[i] == version@[i]);
                        }
                    }
                }
            }
        }
    }
    r
}

/// The ghost image of a build failure.
pub ghost enum BuildErrorView {
    MissingMethod,
    MissingPath,
    MissingVersion,
    InvalidMethod(Seq<char>),
    InvalidPath(Seq<char>),
    InvalidVersion(Seq<char>),
}

/// A failure of the validating `build` step.
#[derive(Debug)]
pub enum HttpRequestError {
    MissingMethod,
    MissingPath,
    MissingVersion,
    InvalidMethod(String),
    InvalidPath(String),
    InvalidVersion(String),
}

impl View for HttpRequestError {
    type V = BuildErrorView;

    open spec fn view(&self) -> BuildErrorView {
        match self {
            HttpRequestError::MissingMethod => BuildErrorView::MissingMethod,
            HttpRequestError::MissingPath => BuildErrorView::MissingPath,
            HttpRequestError::MissingVersion => BuildErrorView::MissingVersion,
            HttpRequestError::InvalidMethod(s) => BuildErrorView::InvalidMethod(s@),
            HttpRequestError::InvalidPath(s) => BuildErrorView::InvalidPath(s@),
            HttpRequestError::InvalidVersion(s) => BuildErrorView::InvalidVersion(s@),
        }
    }
}

/// The text a build failure reports: the original offending token follows
/// the fixed description.
pub open spec fn message_view(e: BuildErrorView) -> Seq<char> {
    match e {
        BuildErrorView::MissingMethod => "Missing HTTP method"@,
        BuildErrorView::MissingPath => "Missing HTTP path"@,
        BuildErrorView::MissingVersion => "Missing HTTP version"@,
        BuildErrorView::InvalidMethod(s) => "Unsupported HTTP method: "@ + s,
        BuildErrorView::InvalidPath(s) => "Unsupported HTTP path: "@ + s,
        BuildErrorView::InvalidVersion(s) => "Unsupported HTTP version: "@ + s,
    }
}

impl HttpRequestError {
    /// The failure as text, for a caller that reports it.
    pub fn message(&self) -> (r: String)
        ensures
            r@ == message_view(self@),
    {
        match self {
            HttpRequestError::MissingMethod => String::from_str("Missing HTTP method"),
            HttpRequestError::MissingPath => String::from_str("Missing HTTP path"),
            HttpRequestError::MissingVersion => String::from_str("Missing HTTP version"),
            HttpRequestError::InvalidMethod(m) => {
                let mut s = String::from_str("Unsupported HTTP method: ");
                s.append(m.as_str());
                s
            },
            HttpRequestError::InvalidPath(m) => {
                let mut s = String::from_str("Unsupported HTTP path: ");
                s.append(m.as_str());
                s
            },
            HttpRequestError::InvalidVersion(m) => {
                let mut s = String::from_str("Unsupported HTTP version: ");
                s.append(m.as_str());
                s
            },
        }
    }
}

/// The ghost image of a validated request.
pub ghost struct RequestView {
    pub method: Method,
    pub path: Seq<char>,
    pub version: Seq<char>,
    pub headers: Map<Seq<char>, Seq<char>>,
    pub body: Option<Seq<u8>>,
}

/// The ghost image of a builder's accumulated fields.
pub ghost struct BuilderView {
    pub method: Option<Seq<char>>,
    pub path: Option<Seq<char>>,
    pub version: Option<Seq<char>>,
    pub headers: Map<Seq<char>, Seq<char>>,
    pub body: Option<Seq<u8>>,
}

/// What `build` returns for a given builder state: the first applicable
/// failure, in check order, or the assembled request.
pub open spec fn spec_build(b: BuilderView) -> Result<RequestView, BuildErrorView> {
    if b.method is None {
        Err(BuildErrorView::MissingMethod)
    } else if method_of(b.method->0) is None {
        Err(BuildErrorView::InvalidMethod(b.method->0))
    } else if b.path is None {
        Err(BuildErrorView::MissingPath)
    } else if !valid_path(b.path->0) {
        Err(BuildErrorView::InvalidPath(b.path->0))
    } else if b.version is None {
        Err(BuildErrorView::MissingVersion)
    } else if !valid_version(b.version->0) {
        Err(BuildErrorView::InvalidVersion(b.version->0))
    } else {
        Ok(
            RequestView {
                method: method_of(b.method->0)->0,
                path: b.path->0,
                version: b.version->0,
                headers: b.headers,
                body: b.body,
            },
        )
    }
}

/// A transient accumulator for the fields of a request, consumed by a single
/// validating `build` call.
pub struct HttpRequestBuilder {
    method: Option<String>,
    path: Option<String>,
    version: Option<String>,
    headers: Headers,
    body: Option<Vec<u8>>,
}

impl View for HttpRequestBuilder {
    type V = BuilderView;

    closed spec fn view(&self) -> BuilderView {
        BuilderView {
            method: match self.method {
                Some(s) => Some(s@),
                None => None,
            },
            path: match self.path {
                Some(s) => Some(s@),
                None => None,
            },
            version: match self.version {
                Some(s) => Some(s@),
                None => None,
            },
            headers: self.headers@,
            body: match self.body {
                Some(b) => Some(b@),
                None => None,
            },
        }
    }
}

impl HttpRequestBuilder {
    /// Sets the raw method token.
    pub fn method(self, method: String) -> (r: Self)
        ensures
            r@ == (BuilderView { method: Some(method@), ..self@ }),
    {
        Self { method: Some(method), ..self }
    }

    /// Sets the raw path token.
    pub fn path(self, path: String) -> (r: Self)
        ensures
            r@ == (BuilderView { path: Some(path@), ..self@ }),
    {
        Self { path: Some(path), ..self }
    }

    /// Sets the raw version token.
    pub fn version(self, version: String) -> (r: Self)
        ensures
            r@ == (BuilderView { version: Some(version@), ..self@ }),
    {
        Self { version: Some(version), ..self }
    }

    /// Replaces the header mapping.
    pub fn headers(self, headers: Headers) -> (r: Self)
        ensures
            r@ == (BuilderView { headers: headers@, ..self@ }),
    {
        Self { headers, ..self }
    }

    /// Sets or clears the body.
    pub fn body(self, body: Option<Vec<u8>>) -> (r: Self)
        ensures
            r@ == (BuilderView {
                body: match body {
                    Some(b) => Some(b@),
                    None => None,
                },
                ..self@
            }),
    {
        Self { body, ..self }
    }

    /// Validates the accumulated fields in order — method, path, version —
    /// and returns the immutable request, or the first applicable failure.
    pub fn build(self) -> (r: Result<HttpRequest, HttpRequestError>)
        ensures
            match spec_build(self@) {
                Ok(v) => r matches Ok(q) && q@ == v,
                Err(ev) => r matches Err(e) && e@ == ev,
            },
    {
        let method_str = match self.method {
            Some(m) => m,
            None => { return Err(HttpRequestError::MissingMethod) },
        };
        let method = match Method::parse(method_str.as_str()) {
            Some(m) => m,
            None => { return Err(HttpRequestError::InvalidMethod(method_str)) },
        };
        let path = match self.path {
            Some(p) => p,
            None => { return Err(HttpRequestError::MissingPath) },
        };
        if !is_valid_path(path.as_str()) {
            return Err(HttpRequestError::InvalidPath(path));
        }
        let version = match self.version {
            Some(v) => v,
            None => { return Err(HttpRequestError::MissingVersion) },
        };
        if !is_valid_version(version.as_str()) {
            return Err(HttpRequestError::InvalidVersion(version));
        }
        Ok(
            HttpRequest {
                method,
                path,
                version,
                headers: self.headers,
                body: self.body,
            },
        )
    }
}

/// An immutable, validated request. A value of this type exists only in
/// fully valid form: the method is in the supported set, the path matches
/// the grammar, and the version starts with `HTTP/`.
#[derive(Debug)]
pub struct HttpRequest {
    method: Method,
    path: String,
    version: String,
    headers: Headers,
    body: Option<Vec<u8>>,
}

impl View for HttpRequest {
    type V = RequestView;

    closed spec fn view(&self) -> RequestView {
        RequestView {
            method: self.method,
            path: self.path@,
            version: self.version@,
            headers: self.headers@,
            body: match self.body {
                Some(b) => Some(b@),
                None => None,
            },
        }
    }
}

impl HttpRequest {
    /// A fresh builder with no field set and an empty header mapping.
    pub fn builder() -> (r: HttpRequestBuilder)
        ensures
            r@ == (BuilderView {
                method: None,
                path: None,
                version: None,
                headers: Map::<Seq<char>, Seq<char>>::empty(),
                body: None,
            }),
    {
        HttpRequestBuilder {
            method: None,
            path: None,
            version: None,
            headers: Headers::new(),
            body: None,
        }
    }

    /// The parsed method.
    pub fn method(&self) -> (r: Method)
        ensures
            r == self@.method,
    {
        self.method
    }

    /// The validated path.
    pub fn path(&self) -> (r: &String)
        ensures
            r@ == self@.path,
    {
        &self.path
    }

    /// The validated version token.
    pub fn version(&self) -> (r: &String)
        ensures
            r@ == self@.version,
    {
        &self.version
    }

    /// The header mapping.
    pub fn headers(&self) -> (r: &Headers)
        ensures
            r@ == self@.headers,
    {
        &self.headers
    }

    /// The body, absent when no body indicator was present or the body
    /// decoded to zero bytes.
    pub fn body(&self) -> (r: &Option<Vec<u8>>)
        ensures
            match r {
                Some(b) => self@.body matches Some(s) && b@ == s,
                None => self@.body is None,
            },
    {
        &self.body
    }
}

} // verus!
