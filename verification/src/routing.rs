//! What a request is answered with: the static files and their types, the
//! tokens that open the pages, and the page or export that a path and a
//! method ask for.

use crate::decimal::chars_of;
use crate::form::{form_urlencoded_pairs, lookup, Form};
use crate::units::same_text;
use vstd::prelude::*;
use vstd::string::StringSliceAdditionalSpecFns;

verus! {

/// A later part of a string: whether `s` ends with `suffix`.
pub open spec fn ends_with(s: Seq<char>, suffix: Seq<char>) -> bool {
    suffix.len() <= s.len() && s.skip(s.len() - suffix.len()) == suffix
}

/// The first part of a string: whether `s` begins with `prefix`.
pub open spec fn begins_with(s: Seq<char>, prefix: Seq<char>) -> bool {
    prefix.len() <= s.len() && s.take(prefix.len() as int) == prefix
}

/// Whether the characters of `s` from `at` on are those of `part`, and `s`
/// has as many.
fn holds_at(s: &Vec<char>, at: usize, part: &Vec<char>) -> (r: bool)
    requires
        at <= s.len(),
    ensures
        r == (part.len() <= s.len() - at && s@.subrange(at as int, at + part.len()) == part@),
{
    if part.len() > s.len() - at {
        return false;
    }
    let mut i: usize = 0;
    while i < part.len()
        invariant
            i <= part.len(),
            at + part.len() <= s.len(),
            forall|j: int| 0 <= j < i ==> s@[at + j] == part@[j],
        decreases part.len() - i,
    {
        if s[at + i] != part[i] {
            assert(s@.subrange(at as int, at + part.len())[i as int] == s@[at + i]);
            return false;
        }
        i = i + 1;
    }
    proof {
        assert(s@.subrange(at as int, at + part.len()) =~= part@);
    }
    true
}

/// Whether a string ends with another.
pub fn text_ends_with(s: &str, suffix: &str) -> (r: bool)
    ensures
        r == ends_with(s@, suffix@),
{
    let chars = chars_of(s);
    let tail = chars_of(suffix);
    if tail.len() > chars.len() {
        return false;
    }
    let at = chars.len() - tail.len();
    proof {
        assert(s@.skip(at as int) =~= s@.subrange(at as int, at + tail.len()));
    }
    holds_at(&chars, at, &tail)
}

/// The beginning of the path of every static file.
pub open spec fn static_prefix() -> Seq<char> {
    "/static/"@
}

/// A character of the name of a static file: a small letter, a digit, or
/// one of `-`, `.` and `_`.
pub open spec fn is_file_name_char(c: char) -> bool {
    ('a' <= c <= 'z') || ('0' <= c <= '9') || c == '-' || c == '.' || c == '_'
}

/// The name of the static file that a path asks for: the path is
/// `/static/` followed by one or more characters of a file name.
pub open spec fn static_name_of(path: Seq<char>) -> Option<Seq<char>> {
    let start = static_prefix().len() as int;
    if begins_with(path, static_prefix()) && path.len() > start && (forall|i: int|
        start <= i < path.len() ==> is_file_name_char(#[trigger] path[i])) {
        Some(path.skip(start))
    } else {
        None
    }
}

/// The text of a string that may be absent.
pub open spec fn text_of(s: Option<String>) -> Option<Seq<char>> {
    match s {
        Some(t) => Some(t@),
        None => None,
    }
}

/// The name of the static file that a path asks for, if it asks for one.
pub fn static_file_name(path: &str) -> (r: Option<String>)
    ensures
        text_of(r) == static_name_of(path@),
{
    let chars = chars_of(path);
    let prefix = chars_of("/static/");
    if !holds_at(&chars, 0, &prefix) {
        proof {
            assert(path@.take(prefix.len() as int) =~= path@.subrange(0, 0 + prefix.len()));
        }
        return None;
    }
    proof {
        assert(path@.take(prefix.len() as int) =~= path@.subrange(0, 0 + prefix.len()));
    }
    let start = prefix.len();
    if chars.len() == start {
        return None;
    }
    let mut name = String::new();
    let mut i: usize = start;
    while i < chars.len()
        invariant
            start <= i <= chars.len(),
            chars@ == path@,
            start == static_prefix().len(),
            name@ == path@.subrange(start as int, i as int),
            forall|j: int| start <= j < i ==> is_file_name_char(#[trigger] path@[j]),
        decreases chars.len() - i,
    {
        let c = chars[i];
        let fits = ('a' <= c && c <= 'z') || ('0' <= c && c <= '9') || c == '-' || c == '.' || c
            == '_';
        if !fits {
            return None;
        }
        name.push(c);
        proof {
            assert(name@ =~= path@.subrange(start as int, i as int + 1));
        }
        i = i + 1;
    }
    proof {
        assert(name@ =~= path@.skip(start as int));
    }
    Some(name)
}

/// The media type of a static file, by the ending of its name.
pub open spec fn mime_type(name: Seq<char>) -> Seq<char> {
    if ends_with(name, ".css"@) {
        "text/css"@
    } else if ends_with(name, ".js"@) {
        "text/javascript"@
    } else if ends_with(name, ".jpg"@) || ends_with(name, ".jpeg"@) {
        "image/jpeg"@
    } else if ends_with(name, ".png"@) {
        "image/png"@
    } else if ends_with(name, ".txt"@) {
        "text/plain; charset=utf-8"@
    } else {
        "application/octet-stream"@
    }
}

/// The media type of a static file, by the ending of its name.
pub fn mime_type_of(file_name: &str) -> (r: &'static str)
    ensures
        r@ == mime_type(file_name@),
{
    if text_ends_with(file_name, ".css") {
        "text/css"
    } else if text_ends_with(file_name, ".js") {
        "text/javascript"
    } else if text_ends_with(file_name, ".jpg") || text_ends_with(file_name, ".jpeg") {
        "image/jpeg"
    } else if text_ends_with(file_name, ".png") {
        "image/png"
    } else if text_ends_with(file_name, ".txt") {
        "text/plain; charset=utf-8"
    } else {
        "application/octet-stream"
    }
}

/// A token that opens the pages, and whether it also allows to submit
/// measurements.
#[derive(Clone, Debug, PartialEq, Eq)]
pub struct AuthToken {
    pub token: String,
    pub write: bool,
}

/// The position of the first token with the given text, if there is one.
pub open spec fn first_token(tokens: Seq<AuthToken>, value: Seq<char>) -> Option<int>
    decreases tokens.len(),
{
    if tokens.len() == 0 {
        None
    } else {
        match first_token(tokens.drop_last(), value) {
            Some(i) => Some(i),
            None => if tokens.last().token@ == value {
                Some(tokens.len() - 1)
            } else {
                None
            },
        }
    }
}

/// The position of the first token with the given text, if there is one.
pub fn find_token(tokens: &Vec<AuthToken>, value: &str) -> (r: Option<usize>)
    ensures
        match r {
            Some(i) => first_token(tokens@, value@) == Some(i as int) && i < tokens.len(),
            None => first_token(tokens@, value@) is None,
        },
{
    let mut i: usize = 0;
    while i < tokens.len()
        invariant
            i <= tokens.len(),
            first_token(tokens@.take(i as int), value@) is None,
        decreases tokens.len() - i,
    {
        proof {
            assert(tokens@.take(i as int + 1).drop_last() =~= tokens@.take(i as int));
        }
        if same_text(tokens[i].token.as_str(), value) {
            proof {
                lemma_first_token_stays(tokens@, value@, i as int + 1);
            }
            return Some(i);
        }
        i = i + 1;
    }
    proof {
        assert(tokens@.take(i as int) =~= tokens@);
    }
    None
}

/// A token that is the first among some tokens is the first among more.
pub proof fn lemma_first_token_stays(tokens: Seq<AuthToken>, value: Seq<char>, k: int)
    requires
        0 <= k <= tokens.len(),
        first_token(tokens.take(k), value) is Some,
    ensures
        first_token(tokens, value) == first_token(tokens.take(k), value),
    decreases tokens.len() - k,
{
    if k < tokens.len() {
        assert(tokens.take(k + 1).drop_last() =~= tokens.take(k));
        lemma_first_token_stays(tokens, value, k + 1);
    } else {
        assert(tokens.take(k) =~= tokens);
    }
}

/// The method of a request, as far as the pages tell methods apart.
#[derive(Clone, Copy, Debug, PartialEq, Eq, Structural)]
pub enum Method {
    Get,
    Post,
    Other,
}

/// A page that shows measurements of one kind and takes new ones.
#[derive(Clone, Copy, Debug, PartialEq, Eq, Structural)]
pub enum Page {
    BloodPressure,
    Mass,
    Temperature,
    Sugar,
}

/// What a request with a valid token asks for.
#[derive(Clone, Copy, Debug, PartialEq, Eq, Structural)]
pub enum Target {
    /// Show the measurements of a kind.
    Show(Page),
    /// Take a new measurement of a kind.
    Submit(Page),
    /// Hand out the measurements of a kind as data.
    Export(Page),
    /// The token does not allow to submit measurements.
    ReadOnly,
    /// The path knows the methods `GET` and `POST` only.
    OnlyGetAndPost,
    /// The path knows the method `GET` only.
    OnlyGet,
    /// No page has this path.
    NotFound,
}

/// The page with the given path, if there is one.
pub open spec fn page_of(path: Seq<char>) -> Option<Page> {
    if path == "/"@ {
        Some(Page::BloodPressure)
    } else if path == "/mass"@ {
        Some(Page::Mass)
    } else if path == "/temperature"@ {
        Some(Page::Temperature)
    } else if path == "/sugar"@ {
        Some(Page::Sugar)
    } else {
        None
    }
}

/// The export with the given path, if there is one.
pub open spec fn export_of(path: Seq<char>) -> Option<Page> {
    if path == "/api/bp"@ {
        Some(Page::BloodPressure)
    } else if path == "/api/mass"@ {
        Some(Page::Mass)
    } else if path == "/api/temperature"@ {
        Some(Page::Temperature)
    } else if path == "/api/sugar"@ {
        Some(Page::Sugar)
    } else {
        None
    }
}

/// What a path and a method ask for, for a token that may or may not
/// submit measurements.
pub open spec fn target_of(path: Seq<char>, method: Method, may_write: bool) -> Target {
    match page_of(path) {
        Some(page) => match method {
            Method::Get => Target::Show(page),
            Method::Post => if may_write {
                Target::Submit(page)
            } else {
                Target::ReadOnly
            },
            Method::Other => Target::OnlyGetAndPost,
        },
        None => match export_of(path) {
            Some(page) => match method {
                Method::Get => Target::Export(page),
                _ => Target::OnlyGet,
            },
            None => Target::NotFound,
        },
    }
}

/// The page with the given path, if there is one.
pub fn find_page(path: &str) -> (r: Option<Page>)
    ensures
        r == page_of(path@),
{
    if same_text(path, "/") {
        Some(Page::BloodPressure)
    } else if same_text(path, "/mass") {
        Some(Page::Mass)
    } else if same_text(path, "/temperature") {
        Some(Page::Temperature)
    } else if same_text(path, "/sugar") {
        Some(Page::Sugar)
    } else {
        None
    }
}

/// The export with the given path, if there is one.
pub fn find_export(path: &str) -> (r: Option<Page>)
    ensures
        r == export_of(path@),
{
    if same_text(path, "/api/bp") {
        Some(Page::BloodPressure)
    } else if same_text(path, "/api/mass") {
        Some(Page::Mass)
    } else if same_text(path, "/api/temperature") {
        Some(Page::Temperature)
    } else if same_text(path, "/api/sugar") {
        Some(Page::Sugar)
    } else {
        None
    }
}

/// Decides what a path and a method ask for, for a token that may or may
/// not submit measurements.
pub fn find_target(path: &str, method: Method, may_write: bool) -> (r: Target)
    ensures
        r == target_of(path@, method, may_write),
{
    match find_page(path) {
        Some(page) => match method {
            Method::Get => Target::Show(page),
            Method::Post => if may_write {
                Target::Submit(page)
            } else {
                Target::ReadOnly
            },
            Method::Other => Target::OnlyGetAndPost,
        },
        None => match find_export(path) {
            Some(page) => match method {
                Method::Get => Target::Export(page),
                _ => Target::OnlyGet,
            },
            None => Target::NotFound,
        },
    }
}

/// How a request is answered.
#[derive(Clone, Debug, PartialEq, Eq)]
pub enum Route {
    /// With the static file of this name.
    StaticFile(String),
    /// With a refusal: the request names no token that is known.
    Forbidden,
    /// With what the target says, for the token at this position.
    Authorized(usize, Target),
}

/// The model of `Route`.
pub enum RouteView {
    StaticFile(Seq<char>),
    Forbidden,
    Authorized(int, Target),
}

impl View for Route {
    type V = RouteView;

    open spec fn view(&self) -> RouteView {
        match self {
            Route::StaticFile(name) => RouteView::StaticFile(name@),
            Route::Forbidden => RouteView::Forbidden,
            Route::Authorized(i, target) => RouteView::Authorized(*i as int, *target),
        }
    }
}

/// The name under which a query carries the token.
pub open spec fn token_key() -> Seq<char> {
    "token"@
}

/// How a request is answered, given the pairs of its query, if it has a
/// query. Static files need no token. Everything else needs a query whose
/// value `token` is the text of a token that is known; the first such
/// token counts.
pub open spec fn route_of(
    path: Seq<char>,
    query: Option<Seq<(Seq<char>, Seq<char>)>>,
    method: Method,
    tokens: Seq<AuthToken>,
) -> RouteView {
    match static_name_of(path) {
        Some(name) => RouteView::StaticFile(name),
        None => match query {
            None => RouteView::Forbidden,
            Some(pairs) => match lookup(pairs, token_key()) {
                None => RouteView::Forbidden,
                Some(value) => match first_token(tokens, value) {
                    None => RouteView::Forbidden,
                    Some(i) => RouteView::Authorized(
                        i,
                        target_of(path, method, tokens[i].write),
                    ),
                },
            },
        },
    }
}

/// Decides how a request is answered, given the pairs of its query.
pub fn route_with(path: &str, query: Option<&Form>, method: Method, tokens: &Vec<AuthToken>) -> (r:
    Route)
    ensures
        r@ == route_of(
            path@,
            match query {
                Some(form) => Some(form@),
                None => None,
            },
            method,
            tokens@,
        ),
{
    if let Some(name) = static_file_name(path) {
        return Route::StaticFile(name);
    }
    let form = match query {
        None => {
            return Route::Forbidden;
        },
        Some(f) => f,
    };
    let value = match form.get("token") {
        None => {
            return Route::Forbidden;
        },
        Some(v) => v,
    };
    match find_token(tokens, value.as_str()) {
        None => Route::Forbidden,
        Some(i) => Route::Authorized(i, find_target(path, method, tokens[i].write)),
    }
}

/// The bytes of a query that may be absent.
pub open spec fn query_pairs(query: Option<&str>) -> Option<Seq<(Seq<char>, Seq<char>)>> {
    match query {
        Some(q) => Some(form_urlencoded_pairs(q.spec_bytes())),
        None => None,
    }
}

/// The address that the crate url makes of a reference that is joined to a
/// base address, as text; nothing where the base or the joined reference
/// is no address.
pub uninterp spec fn url_joined(base: Seq<char>, reference: Seq<char>) -> Option<Seq<char>>;

/// Calls url's `Url::join` on the address that `Url::parse` makes of
/// `base`, and takes the text of the joined address.
///
/// The result depends on the two texts alone; the contract names it.
#[verifier::external_body]
fn join_url(base: &str, reference: &str) -> (r: Option<String>)
    ensures
        text_of(r) == url_joined(base@, reference@),
{
    let base = url::Url::parse(base).ok()?;
    Some(base.join(reference).ok()?.to_string())
}

/// A text without the slashes at its beginning.
pub open spec fn without_leading_slashes(s: Seq<char>) -> Seq<char>
    decreases s.len(),
{
    if s.len() > 0 && s[0] == '/' {
        without_leading_slashes(s.skip(1))
    } else {
        s
    }
}

/// A text that begins with `k` slashes and goes on with another character
/// is, without its leading slashes, what follows the `k` slashes.
pub proof fn lemma_leading_slashes(s: Seq<char>, k: int)
    requires
        0 <= k <= s.len(),
        forall|j: int| 0 <= j < k ==> s[j] == '/',
        k == s.len() || s[k] != '/',
    ensures
        without_leading_slashes(s) == s.skip(k),
    decreases k,
{
    if k > 0 {
        let rest = s.skip(1);
        assert forall|j: int| 0 <= j < k - 1 implies rest[j] == '/' by {
            assert(rest[j] == s[j + 1]);
        }
        lemma_leading_slashes(rest, k - 1);
        assert(rest.skip(k - 1) =~= s.skip(k));
    } else {
        assert(s.skip(0) =~= s);
    }
}

/// The address to which a request is sent back after it has been dealt
/// with: the address of its own page, made by joining what the request
/// asked for, without the slashes at its beginning, to the base address of
/// the service.
pub fn redirect_target(base_url: &str, request_uri: &str) -> (r: Option<String>)
    ensures
        text_of(r) == url_joined(base_url@, without_leading_slashes(request_uri@)),
{
    let chars = chars_of(request_uri);
    let mut k: usize = 0;
    while k < chars.len() && chars[k] == '/'
        invariant
            k <= chars.len(),
            forall|j: int| 0 <= j < k ==> chars@[j] == '/',
        decreases chars.len() - k,
    {
        k = k + 1;
    }
    let mut reference = String::new();
    let mut i: usize = k;
    while i < chars.len()
        invariant
            k <= i <= chars.len(),
            reference@ == chars@.subrange(k as int, i as int),
        decreases chars.len() - i,
    {
        reference.push(chars[i]);
        proof {
            assert(reference@ =~= chars@.subrange(k as int, i as int + 1));
        }
        i = i + 1;
    }
    proof {
        lemma_leading_slashes(request_uri@, k as int);
        assert(reference@ =~= request_uri@.skip(k as int));
    }
    join_url(base_url, reference.as_str())
}

/// Decides how a request is answered: reads the query as a form and
/// decides by its pairs.
pub fn route(path: &str, query: Option<&str>, method: Method, tokens: &Vec<AuthToken>) -> (r: Route)
    ensures
        r@ == route_of(path@, query_pairs(query), method, tokens@),
{
    match query {
        None => route_with(path, None, method, tokens),
        Some(q) => {
            let form = Form::parse(q.as_bytes());
            route_with(path, Some(&form), method, tokens)
        },
    }
}

} // verus!
