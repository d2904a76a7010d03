//! Addresses, events and answers of the debugging protocol.

use vstd::prelude::*;

use crate::cdp::{CdpError, CdpErrorSpec};
use crate::json::{lemma_object_view, members_view, optional_text, Json, JsonSpec};
use crate::patch::chained;
use crate::paths::{path_suffixes, suffixes};
use crate::runtime::error::SessionError;
use crate::text::{concat, joined, starts_with, str_eq, texts, Text};
use crate::text_map::TextMap;

verus! {

// ---------------------------------------------------------------------------
// Addresses

/// A page that has no document yet.
pub open spec fn is_transitional(url: Seq<char>) -> bool {
    url.len() == 0 || url == "about:blank"@
}

/// A page with a document that is not the application's.
pub open spec fn is_non_app(url: Seq<char>) -> bool {
    !is_transitional(url) && !"app://"@.is_prefix_of(url)
}

pub fn is_transitional_page_url(url: &str) -> (yes: bool)
    ensures
        yes == is_transitional(url@),
{
    Text::new(url).len() == 0 || str_eq(url, "about:blank")
}

pub fn is_non_app_page_url(url: &str) -> (yes: bool)
    ensures
        yes == is_non_app(url@),
{
    !is_transitional_page_url(url) && !starts_with(url, "app://")
}

/// First place from `i` on of a character that ends a path, the end without one.
pub open spec fn path_end(s: Seq<char>, i: int) -> int
    decreases s.len() - i,
{
    if 0 <= i < s.len() && s[i] != '?' && s[i] != '#' {
        path_end(s, i + 1)
    } else {
        i
    }
}

/// Place after the first slash from `i` on, the end without one.
pub open spec fn after_slash(s: Seq<char>, i: int) -> int
    decreases s.len() - i,
{
    if !(0 <= i < s.len()) {
        i
    } else if s[i] == '/' {
        i + 1
    } else {
        after_slash(s, i + 1)
    }
}

/// First place from `i` up to before `end` that is not a slash.
pub open spec fn past_slashes(s: Seq<char>, i: int, end: int) -> int
    decreases end - i,
{
    if i < end && s[i] == '/' {
        past_slashes(s, i + 1, end)
    } else {
        i
    }
}

/// End of the part from `start` to before `end` without the slashes at its end.
pub open spec fn before_slashes(s: Seq<char>, start: int, end: int) -> int
    decreases end - start,
{
    if start < end && s[end - 1] == '/' {
        before_slashes(s, start, end - 1)
    } else {
        end
    }
}

/// The path of an address of the application, without the host, the query and the slashes
/// at its ends.
pub open spec fn app_path(url: Seq<char>) -> Option<Seq<char>> {
    if "app://"@.is_prefix_of(url) {
        let from = after_slash(url, 6);
        let end = path_end(url, from);
        let start = past_slashes(url, from, end);
        Some(url.subrange(start, before_slashes(url, start, end)))
    } else {
        None
    }
}

/// What the first of the texts that is a key leads to.
pub open spec fn first_value(
    texts: Seq<Seq<char>>,
    map: Map<Seq<char>, Seq<char>>,
) -> Option<Seq<char>>
    decreases texts.len(),
{
    if texts.len() == 0 {
        None
    } else if map.contains_key(texts[0]) {
        Some(map[texts[0]])
    } else {
        first_value(texts.drop_first(), map)
    }
}

/// The resource that an address of the application asks for: that of the longest end of its
/// path that is a request path.
pub open spec fn resource_of(url: Seq<char>, paths: Map<Seq<char>, Seq<char>>) -> Option<
    Seq<char>,
> {
    match app_path(url) {
        Some(path) => first_value(suffixes(path), paths),
        None => None,
    }
}

pub open spec fn paths_view(paths: TextMap<String>) -> Map<Seq<char>, Seq<char>> {
    paths@.map_values(|path: String| path@)
}

fn path_of_url<'u>(url: &'u str) -> (path: Option<&'u str>)
    ensures
        optional_text(path) == app_path(url@),
{
    if !starts_with(url, "app://") {
        return None;
    }
    proof {
        reveal_strlit("app://");
    }
    let chars = Text::new(url);
    let n = chars.len();
    let ghost s = url@;
    let mut from: usize = 6;
    while from < n && chars.at(from) != '/'
        invariant
            chars@ == s,
            6 <= from <= n == s.len(),
            after_slash(s, 6) == after_slash(s, from as int),
        decreases n - from,
    {
        from += 1;
    }
    if from < n {
        from += 1;
    }
    let mut end: usize = from;
    while end < n && chars.at(end) != '?' && chars.at(end) != '#'
        invariant
            chars@ == s,
            from <= end <= n == s.len(),
            path_end(s, from as int) == path_end(s, end as int),
        decreases n - end,
    {
        end += 1;
    }
    let mut start: usize = from;
    while start < end && chars.at(start) == '/'
        invariant
            chars@ == s,
            from <= start <= end <= n == s.len(),
            past_slashes(s, from as int, end as int) == past_slashes(s, start as int, end as int),
        decreases end - start,
    {
        start += 1;
    }
    let mut stop: usize = end;
    while start < stop && chars.at(stop - 1) == '/'
        invariant
            chars@ == s,
            start <= stop <= end <= n == s.len(),
            before_slashes(s, start as int, end as int) == before_slashes(
                s,
                start as int,
                stop as int,
            ),
        decreases stop,
    {
        stop -= 1;
    }
    Some(chars.slice(start, stop))
}

/// The resource that an address of the application asks for.
pub fn normalize_app_resource(url: &str, request_paths: &TextMap<String>) -> (resource: Option<
    String,
>)
    requires
        request_paths.well_formed(),
    ensures
        match resource {
            Some(resource) => resource_of(url@, paths_view(*request_paths)) == Some(resource@),
            None => resource_of(url@, paths_view(*request_paths)) is None,
        },
{
    let path = match path_of_url(url) {
        Some(path) => path,
        None => {
            return None;
        },
    };
    let parts = path_suffixes(path);
    let ghost names = suffixes(path@);
    let ghost paths = paths_view(*request_paths);
    let mut k: usize = 0;
    assert(names.skip(0) =~= names);
    assert(names.len() == texts(parts@).len());
    while k < parts.len()
        invariant
            request_paths.well_formed(),
            paths == paths_view(*request_paths),
            texts(parts@) == names,
            k <= parts@.len() == names.len(),
            resource_of(url@, paths) == first_value(names, paths),
            first_value(names, paths) == first_value(names.skip(k as int), paths),
        decreases parts.len() - k,
    {
        proof {
            assert(names.skip(k as int)[0] == names[k as int]);
            assert(texts(parts@)[k as int] == parts@[k as int]@);
            assert(names.skip(k as int).drop_first() =~= names.skip(k + 1));
        }
        if let Some(resource) = request_paths.get(parts[k]) {
            return Some(resource.as_str().to_owned());
        }
        k += 1;
    }
    None
}

// ---------------------------------------------------------------------------
// Interception patterns

/// The pattern for requests of an address, for specifications.
pub open spec fn pattern_json(url_pattern: Seq<char>) -> JsonSpec {
    JsonSpec::Object(
        seq![
            ("urlPattern"@, JsonSpec::Text(url_pattern)),
            ("requestStage"@, JsonSpec::Text("Request"@)),
        ],
    )
}

/// The patterns for a request path: the path alone, and the path with a query.
pub open spec fn path_patterns(path: Seq<char>) -> Seq<JsonSpec> {
    seq![
        pattern_json(joined(seq!["app://*/"@, path])),
        pattern_json(joined(seq!["app://*/"@, path, "\\?*"@])),
    ]
}

/// The patterns for all request paths, in their order.
pub open spec fn all_patterns(paths: Seq<Seq<char>>) -> Seq<JsonSpec> {
    chained(paths.map_values(|path: Seq<char>| path_patterns(path)))
}

pub open spec fn jsons_view(values: Seq<Json>) -> Seq<JsonSpec> {
    values.map_values(|value: Json| value@)
}

fn pattern(url_pattern: String) -> (json: Json)
    ensures
        json@ == pattern_json(url_pattern@),
{
    let members = vec![
        ("urlPattern".to_owned(), Json::Text(url_pattern)),
        ("requestStage".to_owned(), Json::Text("Request".to_owned())),
    ];
    proof {
        lemma_object_view(members);
        assert(members_view(members@) =~= pattern_json(url_pattern@)->Object_0);
    }
    Json::Object(members)
}

/// The patterns that intercept exactly the requests for the request paths.
pub fn fetch_patterns(request_paths: &TextMap<String>) -> (patterns: Vec<Json>)
    requires
        request_paths.well_formed(),
    ensures
        jsons_view(patterns@) == all_patterns(request_paths.keys()),
{
    let ghost keys = request_paths.keys();
    let ghost parts = keys.map_values(|path: Seq<char>| path_patterns(path));
    let mut patterns: Vec<Json> = Vec::new();
    let mut k: usize = 0;
    assert(jsons_view(patterns@) =~= chained(parts.take(0)));
    while k < request_paths.len()
        invariant
            request_paths.well_formed(),
            keys == request_paths.keys(),
            parts == keys.map_values(|path: Seq<char>| path_patterns(path)),
            k <= keys.len(),
            jsons_view(patterns@) == chained(parts.take(k as int)),
        decreases keys.len() - k,
    {
        let path = request_paths.key_at(k);
        let ghost before = jsons_view(patterns@);
        let plain: [&str; 2] = ["app://*/", path];
        let query: [&str; 3] = ["app://*/", path, "\\?*"];
        proof {
            assert(texts(plain@) =~= seq!["app://*/"@, path@]);
            assert(texts(query@) =~= seq!["app://*/"@, path@, "\\?*"@]);
            assert(parts.take(k + 1).drop_last() =~= parts.take(k as int));
            assert(parts[k as int] == path_patterns(path@));
        }
        patterns.push(pattern(concat(&plain)));
        patterns.push(pattern(concat(&query)));
        assert(jsons_view(patterns@) =~= before + path_patterns(path@));
        k += 1;
    }
    assert(parts.take(k as int) =~= parts);
    patterns
}

// ---------------------------------------------------------------------------
// Fields of events

pub open spec fn missing_message(method: Seq<char>, key: Seq<char>) -> Seq<char> {
    joined(seq![method, " missing "@, key])
}

fn missing(method: &str, key: &str) -> (error: SessionError)
    ensures
        error@ == missing_message(method@, key@),
{
    let parts: [&str; 3] = [method, " missing ", key];
    assert(texts(parts@) =~= seq![method@, " missing "@, key@]);
    SessionError::from_parts(&parts)
}

/// A field that an event must have.
pub fn require_field<'j>(node: &'j Json, method: &str, key: &str) -> (field: Result<
    &'j Json,
    SessionError,
>)
    ensures
        match field {
            Ok(field) => node@.get(key@) == Some(field@),
            Err(error) => node@.get(key@) is None && error@ == missing_message(method@, key@),
        },
{
    match node.get(key) {
        Some(field) => Ok(field),
        None => Err(missing(method, key)),
    }
}

/// A text that an event must have.
pub fn required_str<'j>(node: &'j Json, method: &str, key: &str) -> (field: Result<
    &'j str,
    SessionError,
>)
    ensures
        match field {
            Ok(field) => node@.text_at(key@) == Some(field@),
            Err(error) => node@.text_at(key@) is None && error@ == missing_message(
                method@,
                key@,
            ),
        },
{
    match node.text_at(key) {
        Some(field) => Ok(field),
        None => Err(missing(method, key)),
    }
}

/// A text of an event, empty without one.
pub open spec fn text_or_empty(node: JsonSpec, key: Seq<char>) -> Seq<char> {
    match node.text_at(key) {
        Some(text) => text,
        None => Seq::empty(),
    }
}

pub fn str_field<'j>(node: &'j Json, key: &str) -> (field: &'j str)
    ensures
        field@ == text_or_empty(node@, key@),
{
    match node.text_at(key) {
        Some(field) => field,
        None => {
            proof {
                reveal_strlit("");
                assert(""@ =~= Seq::empty());
            }
            ""
        },
    }
}

/// The address that a request is for.
pub open spec fn requested_url(params: JsonSpec) -> Option<Seq<char>> {
    match params.get("request"@) {
        Some(request) => request.text_at("url"@),
        None => None,
    }
}

pub fn request_url<'j>(params: &'j Json, method: &str) -> (url: Result<&'j str, SessionError>)
    ensures
        match url {
            Ok(url) => requested_url(params@) == Some(url@),
            Err(error) => requested_url(params@) is None && error@ == missing_message(
                method@,
                "request.url"@,
            ),
        },
{
    let url = match params.get("request") {
        Some(request) => request.text_at("url"),
        None => None,
    };
    match url {
        Some(url) => Ok(url),
        None => Err(missing(method, "request.url")),
    }
}

/// A request was stopped before it was answered.
pub open spec fn stopped_at_request(params: JsonSpec) -> bool {
    params.get("responseStatusCode"@) is None && params.get("responseErrorReason"@) is None
}

pub fn is_request_stage(params: &Json) -> (yes: bool)
    ensures
        yes == stopped_at_request(params@),
{
    params.get("responseStatusCode").is_none() && params.get("responseErrorReason").is_none()
}

/// The session that an event takes away.
pub open spec fn detached_session(event: JsonSpec) -> Option<Seq<char>> {
    match event.text_at("method"@) {
        Some(method) => if method == "Target.detachedFromTarget"@ {
            match event.get("params"@) {
                Some(params) => params.text_at("sessionId"@),
                None => None,
            }
        } else if method == "Inspector.detached"@ {
            event.text_at("sessionId"@)
        } else {
            None
        },
        None => None,
    }
}

pub fn event_detaches_session<'j>(event: &'j Json) -> (session: Option<&'j str>)
    ensures
        optional_text(session) == detached_session(event@),
{
    match event.text_at("method") {
        Some(method) => if str_eq(method, "Target.detachedFromTarget") {
            match event.get("params") {
                Some(params) => params.text_at("sessionId"),
                None => None,
            }
        } else if str_eq(method, "Inspector.detached") {
            event.text_at("sessionId")
        } else {
            None
        },
        None => None,
    }
}

// ---------------------------------------------------------------------------
// Main frames

/// What the main frame of a page shows, for specifications.
pub enum MainFrameSpec {
    Transitional { frame_id: Seq<char> },
    App { frame_id: Seq<char>, loader_id: Seq<char> },
    NonApp,
}

/// What the main frame of a page shows.
#[derive(Debug, PartialEq, Eq)]
pub enum MainFrame {
    Transitional { frame_id: String },
    App { frame_id: String, loader_id: String },
    NonApp,
}

impl View for MainFrame {
    type V = MainFrameSpec;

    open spec fn view(&self) -> MainFrameSpec {
        match *self {
            MainFrame::Transitional { frame_id } => MainFrameSpec::Transitional {
                frame_id: frame_id@,
            },
            MainFrame::App { frame_id, loader_id } => MainFrameSpec::App {
                frame_id: frame_id@,
                loader_id: loader_id@,
            },
            MainFrame::NonApp => MainFrameSpec::NonApp,
        }
    }
}

/// What a main frame shows, or why that cannot be told.
pub open spec fn main_frame_of(frame: JsonSpec) -> Result<MainFrameSpec, Seq<char>> {
    match (frame.text_at("id"@), frame.text_at("url"@)) {
        (None, _) => Err(missing_message("page main frame"@, "id"@)),
        (_, None) => Err(missing_message("page main frame"@, "url"@)),
        (Some(frame_id), Some(url)) => if is_transitional(url) {
            Ok(MainFrameSpec::Transitional { frame_id })
        } else if !"app://"@.is_prefix_of(url) {
            Ok(MainFrameSpec::NonApp)
        } else {
            let loader_id = text_or_empty(frame, "loaderId"@);
            if loader_id.len() == 0 {
                Err("app main frame missing loader id"@)
            } else {
                Ok(MainFrameSpec::App { frame_id, loader_id })
            }
        },
    }
}

pub fn classify_main_frame(frame: &Json) -> (result: Result<MainFrame, SessionError>)
    ensures
        match result {
            Ok(main_frame) => main_frame_of(frame@) == Ok::<MainFrameSpec, Seq<char>>(main_frame@),
            Err(error) => main_frame_of(frame@) == Err::<MainFrameSpec, Seq<char>>(error@),
        },
{
    let frame_id = match required_str(frame, "page main frame", "id") {
        Ok(frame_id) => frame_id.to_owned(),
        Err(error) => {
            return Err(error);
        },
    };
    let url = match required_str(frame, "page main frame", "url") {
        Ok(url) => url,
        Err(error) => {
            return Err(error);
        },
    };
    if is_transitional_page_url(url) {
        return Ok(MainFrame::Transitional { frame_id });
    }
    if !starts_with(url, "app://") {
        return Ok(MainFrame::NonApp);
    }
    let loader_id = str_field(frame, "loaderId");
    if Text::new(loader_id).len() == 0 {
        return Err(SessionError::new("app main frame missing loader id"));
    }
    Ok(MainFrame::App { frame_id, loader_id: loader_id.to_owned() })
}

// ---------------------------------------------------------------------------
// Stale interceptions

/// The text without the dots at its end.
pub open spec fn without_dots(s: Seq<char>) -> Seq<char>
    decreases s.len(),
{
    if s.len() > 0 && s.last() == '.' {
        without_dots(s.drop_last())
    } else {
        s
    }
}

fn trim_dots<'s>(text: &'s str) -> (trimmed: &'s str)
    ensures
        trimmed@ == without_dots(text@),
{
    let chars = Text::new(text);
    let mut end: usize = chars.len();
    assert(text@.take(end as int) =~= text@);
    while end > 0 && chars.at(end - 1) == '.'
        invariant
            chars@ == text@,
            end <= text@.len(),
            without_dots(text@) == without_dots(text@.take(end as int)),
        decreases end,
    {
        assert(text@.take(end as int).drop_last() =~= text@.take(end - 1));
        end -= 1;
    }
    let trimmed = chars.slice(0, end);
    assert(trimmed@ =~= text@.take(end as int));
    trimmed
}

pub open spec fn error_code(details: JsonSpec) -> Option<i64> {
    match details.get("code"@) {
        Some(code) => code.as_i64(),
        None => None,
    }
}

/// An answer to a request failed because the request or its page is gone.
pub open spec fn is_stale(error: CdpErrorSpec, page_loaded: bool, session_detached: bool) -> bool {
    match error {
        CdpErrorSpec::Malformed { .. } => false,
        CdpErrorSpec::Command { method, details } => {
            let answers = method == "Fetch.fulfillRequest"@ || method
                == "Fetch.continueRequest"@;
            let code = error_code(details);
            let message = details.text_at("message"@);
            let stale_request = !page_loaded && code == Some(-32602i64) && match message {
                Some(message) => without_dots(message) == "Invalid InterceptionId"@,
                None => false,
            };
            let stale_session = session_detached && code == Some(-32001i64) && message == Some(
                "Session with given id not found."@,
            );
            answers && (stale_request || stale_session)
        },
    }
}

pub fn is_stale_interception_error(
    error: &CdpError,
    page_loaded: bool,
    session_detached: bool,
) -> (yes: bool)
    ensures
        yes == is_stale(error@, page_loaded, session_detached),
{
    match error {
        CdpError::Malformed { .. } => false,
        CdpError::Command { method, details } => {
            if !str_eq(method.as_str(), "Fetch.fulfillRequest") && !str_eq(
                method.as_str(),
                "Fetch.continueRequest",
            ) {
                return false;
            }
            let code: i64 = match details.get("code") {
                Some(code) => match code.as_i64() {
                    Some(code) => code,
                    None => {
                        return false;
                    },
                },
                None => {
                    return false;
                },
            };
            match details.text_at("message") {
                None => false,
                Some(message) => {
                    let stale_request = !page_loaded && code == -32602 && str_eq(
                        trim_dots(message),
                        "Invalid InterceptionId",
                    );
                    let stale_session = session_detached && code == -32001 && str_eq(
                        message,
                        "Session with given id not found.",
                    );
                    stale_request || stale_session
                },
            }
        },
    }
}

} // verus!
