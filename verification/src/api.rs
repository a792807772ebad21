//! Client side of the remote inference API (`/v3/*`).
//!
//! The service is stateless: every react call uploads the current kyoku's mjai
//! event stream, from the bot's seat perspective and ending at the decision
//! point, and gets back the move to play. What is here decides what each call
//! sends and what a refusal says; sending is the caller's.
use vstd::prelude::*;
use vstd::string::*;
use serde_json::Value;
use crate::json::{
    array_value, count_value, json_count, json_items, json_member, json_members, json_of, json_text,
    member, object_value, parse_json, put, text_value,
};
use crate::text::{
    blank, decimal, decimal_text, first_chars, is_space, law_trimmed_empty_iff_blank,
    law_trimmed_ignores_space_around, law_trimmed_is_the_middle,
    law_without_trailing_does_not_end_in_it, law_without_trailing_is_the_rest, trim,
    trim_end_char, trimmed, without_trailing,
};

verus! {

/// Timeout in milliseconds of the management endpoints (key status, models,
/// redeem, health). They run from the UI, never on a game's critical path.
pub const REQUEST_TIMEOUT_MS: u64 = 8_000;

/// Timeout in milliseconds of [`ApiClient::react`], which sits on a live
/// game's critical path: a reach costs two react calls, and both have to fit
/// inside one turn.
pub const REACT_TIMEOUT_MS: u64 = 2_000;

/// One model the key's plan may use (`GET /v3/models`).
#[derive(Debug, Clone)]
pub struct ModelInfo {
    pub id: String,
    pub game: String,
    pub desc: String,
}

/// Response from `POST /v3/redeem`.
#[derive(Debug, Clone)]
pub struct RedeemResponse {
    /// The raw 32-char key, present only when a new key is minted
    /// (`extended == false`). Never re-shown on a renewal.
    pub key: Option<String>,
    pub key_last4: String,
    pub plan: String,
    pub expires_at: String,
    /// `true` when time was stacked onto an existing key (no new key issued).
    pub extended: bool,
}

/// Response from `GET /healthz`: liveness and per-model queue depth.
#[derive(Debug, Clone)]
pub struct Health {
    pub status: String,
    pub models: Vec<String>,
    pub queue_depth: std::collections::BTreeMap<String, i64>,
}

/// The URL of a server: without white space around it and without slashes at
/// its end.
pub open spec fn base_of(base_url: Seq<char>) -> Seq<char> {
    without_trailing(trimmed(base_url), '/')
}

/// The URL of a server, ready to have a path appended.
pub fn normalize_base(base_url: &str) -> (r: String)
    ensures
        r@ == base_of(base_url@),
{
    trim_end_char(trim(base_url), '/').to_owned()
}

/// A server's URL, once normalized, does not end in a slash.
pub proof fn law_base_does_not_end_in_a_slash(base_url: Seq<char>)
    ensures
        base_of(base_url).len() > 0 ==> base_of(base_url).last() != '/',
{
    law_without_trailing_does_not_end_in_it(trimmed(base_url), '/');
}

/// A trailing slash on a server's URL is tolerated: it makes no difference.
pub proof fn law_trailing_slash_is_tolerated(base_url: Seq<char>)
    requires
        base_url.len() > 0 ==> !is_space(base_url.last()),
    ensures
        base_of(base_url.push('/')) == base_of(base_url),
    decreases base_url.len(),
{
    let longer = base_url.push('/');
    if base_url.len() > 0 && is_space(base_url[0]) {
        assert(longer.skip(1) =~= base_url.skip(1).push('/'));
        if base_url.len() > 1 {
            assert(base_url.skip(1).last() == base_url.last());
        }
        law_trailing_slash_is_tolerated(base_url.skip(1));
    } else {
        assert(longer.drop_last() =~= base_url);
        assert(longer[0] == if base_url.len() > 0 {
            base_url[0]
        } else {
            '/'
        });
    }
}

/// White space around a server's URL makes no difference.
pub proof fn law_space_around_is_tolerated(
    before: Seq<char>,
    base_url: Seq<char>,
    behind: Seq<char>,
)
    requires
        blank(before),
        blank(behind),
    ensures
        base_of(before + base_url + behind) == base_of(base_url),
{
    law_trimmed_ignores_space_around(before, base_url, behind);
}

/// How a request is made.
#[derive(Debug, Clone, Copy, PartialEq, Eq, Structural)]
pub enum Method {
    Get,
    Post,
}

/// A request to the server, complete but for sending it.
#[derive(Debug, Clone)]
pub struct Request {
    pub method: Method,
    pub url: String,
    /// The key that goes into the `Authorization` header as a bearer token.
    pub bearer: Option<String>,
    pub timeout_ms: u64,
    /// The JSON body.
    pub body: Option<Value>,
    /// What the request is called in error messages.
    pub what: &'static str,
}

impl Request {
    /// The characters of the bearer token, if there is one.
    pub open spec fn bearer_text(self) -> Option<Seq<char>> {
        match self.bearer {
            Some(key) => Some(key@),
            None => None,
        }
    }
}

/// `base` with `path` appended.
fn join(base: &str, path: &str) -> (r: String)
    ensures
        r@ == base@ + path@,
{
    let mut url = base.to_owned();
    url.append(path);
    url
}

/// What is there, unless it is empty.
pub open spec fn non_empty(s: Option<Seq<char>>) -> Option<Seq<char>> {
    match s {
        Some(t) => if t.len() == 0 {
            None
        } else {
            Some(t)
        },
        None => None,
    }
}

/// The characters of what is there.
pub open spec fn text_view(s: Option<&str>) -> Option<Seq<char>> {
    match s {
        Some(t) => Some(t@),
        None => None,
    }
}

/// What is there without white space around it.
pub open spec fn trimmed_view(s: Option<&str>) -> Option<Seq<char>> {
    match s {
        Some(t) => Some(trimmed(t@)),
        None => None,
    }
}

/// Whether `v` is an object without members beside those named by `names`.
pub open spec fn has_only(v: Value, names: Set<Seq<char>>) -> bool {
    json_members(v) matches Some(members) && members.dom().subset_of(names)
}

/// Whether the member `name` of `v` is the text `s`, and missing where there is
/// no text.
pub open spec fn has_text(v: Value, name: Seq<char>, s: Option<Seq<char>>) -> bool {
    match (s, json_member(v, name)) {
        (Some(t), Some(m)) => json_text(m) == Some(t),
        (None, None) => true,
        _ => false,
    }
}

/// The body of `POST /v3/react`.
#[derive(Debug, Clone)]
pub struct ReactRequest<'a> {
    pub model: Option<&'a str>,
    pub player_id: u8,
    pub events: Vec<Value>,
}

/// Whether `v` is the JSON of a react request: the seat, the events, the model
/// where one is given, and nothing else.
pub open spec fn is_react_body(
    v: Value,
    model: Option<Seq<char>>,
    player_id: u8,
    events: Seq<Value>,
) -> bool {
    &&& has_only(v, set!["model"@, "player_id"@, "events"@])
    &&& has_text(v, "model"@, model)
    &&& json_member(v, "player_id"@) matches Some(n) && json_count(n) == Some(player_id as u64)
    &&& json_member(v, "events"@) matches Some(list) && json_items(list) == Some(events)
}

impl<'a> ReactRequest<'a> {
    /// The JSON of the request. A model that is not given is omitted.
    pub fn to_json(self) -> (v: Value)
        ensures
            is_react_body(v, text_view(self.model), self.player_id, self.events@),
    {
        proof {
            reveal_strlit("model");
            reveal_strlit("player_id");
            reveal_strlit("events");
            assert("model"@.len() == 5 && "player_id"@.len() == 9 && "events"@.len() == 6);
        }
        let mut fields: Vec<(String, Value)> = Vec::new();
        if let Some(m) = self.model {
            put(&mut fields, "model", text_value(m));
        }
        put(&mut fields, "player_id", count_value(self.player_id));
        put(&mut fields, "events", array_value(self.events));
        object_value(fields)
    }
}

/// The body of `POST /v3/redeem`.
#[derive(Debug, Clone)]
pub struct RedeemRequest<'a> {
    pub code: &'a str,
    pub email: Option<&'a str>,
    pub renew_key: Option<&'a str>,
}

/// Whether `v` is the JSON of a redeem request: the code, the address and the
/// key to renew where they are given, and nothing else.
pub open spec fn is_redeem_body(
    v: Value,
    code: Seq<char>,
    email: Option<Seq<char>>,
    renew_key: Option<Seq<char>>,
) -> bool {
    &&& has_only(v, set!["code"@, "email"@, "renew_key"@])
    &&& has_text(v, "code"@, Some(code))
    &&& has_text(v, "email"@, email)
    &&& has_text(v, "renew_key"@, renew_key)
}

impl<'a> RedeemRequest<'a> {
    /// The JSON of the request. What is not given is omitted.
    pub fn to_json(self) -> (v: Value)
        ensures
            is_redeem_body(v, self.code@, text_view(self.email), text_view(self.renew_key)),
    {
        proof {
            reveal_strlit("code");
            reveal_strlit("email");
            reveal_strlit("renew_key");
            assert("code"@.len() == 4 && "email"@.len() == 5 && "renew_key"@.len() == 9);
        }
        let mut fields: Vec<(String, Value)> = Vec::new();
        put(&mut fields, "code", text_value(self.code));
        if let Some(s) = self.email {
            put(&mut fields, "email", text_value(s));
        }
        if let Some(s) = self.renew_key {
            put(&mut fields, "renew_key", text_value(s));
        }
        object_value(fields)
    }
}

/// Leaves out a text that is empty.
fn unless_empty(s: Option<&str>) -> (r: Option<&str>)
    ensures
        text_view(r) == non_empty(text_view(s)),
{
    match s {
        Some(t) => if t.is_empty() {
            None
        } else {
            Some(t)
        },
        None => None,
    }
}

/// Leaves out a text that is blank, and the white space around any other.
fn unless_blank(s: Option<&str>) -> (r: Option<&str>)
    ensures
        text_view(r) == non_empty(trimmed_view(s)),
{
    match s {
        Some(t) => unless_empty(Some(trim(t))),
        None => None,
    }
}

/// Client bound to one server and key: what each of its calls sends.
#[derive(Debug, Clone)]
pub struct ApiClient {
    base: String,
    key: String,
}

impl ApiClient {
    /// The server's URL, without a slash at its end.
    pub closed spec fn base(self) -> Seq<char> {
        self.base@
    }

    /// The key that authenticates the calls.
    pub closed spec fn key(self) -> Seq<char> {
        self.key@
    }

    /// A client for `base_url` authenticating with `key`. A trailing slash on
    /// the URL is tolerated.
    pub fn new(base_url: &str, key: &str) -> (client: Self)
        ensures
            client.base() == base_of(base_url@),
            client.key() == trimmed(key@),
    {
        ApiClient { base: normalize_base(base_url), key: trim(key).to_owned() }
    }

    /// `POST /v3/react`: asks for the move for the final event of `events`. No
    /// `model`, or an empty one, lets the server pick its game default.
    ///
    /// Bounded by [`REACT_TIMEOUT_MS`]: this one blocks the bot's turn.
    pub fn react(&self, model: Option<&str>, player_id: u8, events: Vec<Value>) -> (r: Request)
        ensures
            r.method == Method::Post,
            r.url@ == self.base() + "/v3/react"@,
            r.bearer_text() == Some(self.key()),
            r.timeout_ms == REACT_TIMEOUT_MS,
            r.body matches Some(v) && is_react_body(
                v,
                non_empty(text_view(model)),
                player_id,
                events@,
            ),
            r.what@ == "react"@,
    {
        let body = ReactRequest { model: unless_empty(model), player_id, events };
        Request {
            method: Method::Post,
            url: join(&self.base, "/v3/react"),
            bearer: Some(self.key.clone()),
            timeout_ms: REACT_TIMEOUT_MS,
            body: Some(body.to_json()),
            what: "react",
        }
    }

    /// `GET /v3/key`: asks for the key's plan, expiry and live rate limits.
    pub fn key_status(&self) -> (r: Request)
        ensures
            r.method == Method::Get,
            r.url@ == self.base() + "/v3/key"@,
            r.bearer_text() == Some(self.key()),
            r.timeout_ms == REQUEST_TIMEOUT_MS,
            r.body is None,
            r.what@ == "key status"@,
    {
        Request {
            method: Method::Get,
            url: join(&self.base, "/v3/key"),
            bearer: Some(self.key.clone()),
            timeout_ms: REQUEST_TIMEOUT_MS,
            body: None,
            what: "key status",
        }
    }

    /// `GET /v3/models`: asks for the models this key's plan may use.
    pub fn models(&self) -> (r: Request)
        ensures
            r.method == Method::Get,
            r.url@ == self.base() + "/v3/models"@,
            r.bearer_text() == Some(self.key()),
            r.timeout_ms == REQUEST_TIMEOUT_MS,
            r.body is None,
            r.what@ == "models"@,
    {
        Request {
            method: Method::Get,
            url: join(&self.base, "/v3/models"),
            bearer: Some(self.key.clone()),
            timeout_ms: REQUEST_TIMEOUT_MS,
            body: None,
            what: "models",
        }
    }
}

/// `POST /v3/redeem` (no auth). By default mints a new key; `renew_key` stacks
/// time onto a key already held. `email` links minted keys to an account.
pub fn redeem(base_url: &str, code: &str, email: Option<&str>, renew_key: Option<&str>) -> (r:
    Request)
    ensures
        r.method == Method::Post,
        r.url@ == base_of(base_url@) + "/v3/redeem"@,
        r.bearer is None,
        r.timeout_ms == REQUEST_TIMEOUT_MS,
        r.body matches Some(v) && is_redeem_body(
            v,
            trimmed(code@),
            non_empty(trimmed_view(email)),
            non_empty(trimmed_view(renew_key)),
        ),
        r.what@ == "redeem"@,
{
    let body = RedeemRequest {
        code: trim(code),
        email: unless_blank(email),
        renew_key: unless_blank(renew_key),
    };
    Request {
        method: Method::Post,
        url: join(&normalize_base(base_url), "/v3/redeem"),
        bearer: None,
        timeout_ms: REQUEST_TIMEOUT_MS,
        body: Some(body.to_json()),
        what: "redeem",
    }
}

/// `GET /healthz` (no auth): asks for liveness and per-model queue depth.
pub fn health(base_url: &str) -> (r: Request)
    ensures
        r.method == Method::Get,
        r.url@ == base_of(base_url@) + "/healthz"@,
        r.bearer is None,
        r.timeout_ms == REQUEST_TIMEOUT_MS,
        r.body is None,
        r.what@ == "health"@,
{
    Request {
        method: Method::Get,
        url: join(&normalize_base(base_url), "/healthz"),
        bearer: None,
        timeout_ms: REQUEST_TIMEOUT_MS,
        body: None,
        what: "health",
    }
}

/// Whether an HTTP status is one of success.
pub open spec fn successful(status: u16) -> bool {
    200 <= status < 300
}

/// Whether an HTTP status is one of success.
pub fn is_success(status: u16) -> (r: bool)
    ensures
        r == successful(status),
{
    200 <= status && status < 300
}

/// The text of the member `error` of what a response body holds, if it has one.
pub open spec fn error_text(found: Option<Value>) -> Option<Seq<char>> {
    match found {
        Some(v) => match json_member(v, "error"@) {
            Some(e) => json_text(e),
            None => None,
        },
        None => None,
    }
}

/// How many characters of a response body an error message shows.
pub const SHOWN_CHARS: usize = 200;

/// What a response body says went wrong, given the JSON found in it: the
/// server's own message, else the start of the body.
pub open spec fn reason(found: Option<Value>, raw: Seq<char>) -> Seq<char> {
    match error_text(found) {
        Some(t) => t,
        None => if raw.len() <= SHOWN_CHARS {
            raw
        } else {
            raw.take(SHOWN_CHARS as int)
        },
    }
}

/// What the response body `raw` says went wrong, given the JSON found in it.
pub fn reason_in(found: Option<Value>, raw: &str) -> (r: String)
    ensures
        r@ == reason(found, raw@),
{
    if let Some(v) = &found {
        if let Some(e) = member(v, "error") {
            if let Some(t) = e.as_str() {
                return t.to_owned();
            }
        }
    }
    first_chars(raw, SHOWN_CHARS)
}

/// The error of a request `what` that was answered `status`, with the reason
/// and, where the server gave one, the time to wait before the next try.
pub open spec fn failure_text(
    what: Seq<char>,
    status: u16,
    retry_after: Option<Seq<char>>,
    msg: Seq<char>,
) -> Seq<char> {
    let head = what + " failed: HTTP "@ + decimal(status as nat) + " — "@ + msg;
    match retry_after {
        Some(ra) => head + " (retry after "@ + ra + "s)"@,
        None => head,
    }
}

/// The error of a request `what` that was answered `status`.
pub fn failure(what: &str, status: u16, retry_after: Option<&str>, msg: &str) -> (r: String)
    ensures
        r@ == failure_text(what@, status, text_view(retry_after), msg@),
{
    let mut text = what.to_owned();
    text.append(" failed: HTTP ");
    text.append(&decimal_text(status as u64));
    text.append(" — ");
    text.append(msg);
    if let Some(ra) = retry_after {
        text.append(" (retry after ");
        text.append(ra);
        text.append("s)");
    }
    text
}

/// Turns the answer to a request `what` into a descriptive error unless its
/// status is one of success, surfacing the server's `{"error": "..."}` message
/// and any `Retry-After` hint.
pub fn check(status: u16, what: &str, retry_after: Option<&str>, raw: &str) -> (r: Result<
    (),
    String,
>)
    ensures
        r is Ok <==> successful(status),
        r matches Err(text) ==> text@ == failure_text(
            what@,
            status,
            text_view(retry_after),
            reason(json_of(raw@), raw@),
        ),
{
    if is_success(status) {
        return Ok(());
    }
    let msg = reason_in(parse_json(raw), raw);
    Err(failure(what, status, retry_after, &msg))
}

/// Whether `part` stands somewhere in `whole`.
pub open spec fn stands_in(part: Seq<char>, whole: Seq<char>) -> bool {
    exists|i: int|
        0 <= i <= whole.len() - part.len() && #[trigger] whole.subrange(i, i + part.len()) == part
}

/// An error names the request, the status, the reason and, where the server
/// gave one, the time to wait.
pub proof fn law_failures_tell_what_happened(
    what: Seq<char>,
    status: u16,
    retry_after: Option<Seq<char>>,
    msg: Seq<char>,
)
    ensures
        stands_in(what, failure_text(what, status, retry_after, msg)),
        stands_in(decimal(status as nat), failure_text(what, status, retry_after, msg)),
        stands_in(msg, failure_text(what, status, retry_after, msg)),
        retry_after matches Some(ra) ==> stands_in(
            ra,
            failure_text(what, status, retry_after, msg),
        ),
{
    let whole = failure_text(what, status, retry_after, msg);
    let code = decimal(status as nat);
    let at_code = (what + " failed: HTTP "@).len() as int;
    let at_msg = at_code + code.len() + " — "@.len();
    assert(whole.subrange(0, 0int + what.len()) =~= what);
    assert(whole.subrange(at_code, at_code + code.len()) =~= code);
    assert(whole.subrange(at_msg, at_msg + msg.len()) =~= msg);
    if let Some(ra) = retry_after {
        let at_ra = at_msg + msg.len() + " (retry after "@.len();
        assert(whole.subrange(at_ra, at_ra + ra.len()) =~= ra);
    }
}

/// The base is the address without the white space around it and without the
/// slashes at its end: nothing else of it is dropped.
pub proof fn law_base_is_the_address(base_url: Seq<char>) -> (cut: (int, int, int))
    ensures
        0 <= cut.0 <= cut.1 <= cut.2 <= base_url.len(),
        base_of(base_url) == base_url.subrange(cut.0, cut.1),
        forall|i: int| 0 <= i < cut.0 ==> is_space(#[trigger] base_url[i]),
        forall|i: int| cut.1 <= i < cut.2 ==> #[trigger] base_url[i] == '/',
        forall|i: int| cut.2 <= i < base_url.len() ==> is_space(#[trigger] base_url[i]),
        cut.0 < cut.1 ==> !is_space(base_url[cut.0]) && base_url[cut.1 - 1] != '/',
        cut.0 < cut.2 ==> !is_space(base_url[cut.2 - 1]),
{
    let outer = law_trimmed_is_the_middle(base_url);
    let body = base_url.subrange(outer.0, outer.1);
    let hi = law_without_trailing_is_the_rest(body, '/');
    let cut = (outer.0, outer.0 + hi, outer.1);
    assert(body.take(hi) =~= base_url.subrange(cut.0, cut.1));
    assert forall|i: int| cut.1 <= i < outer.1 implies #[trigger] base_url[i] == '/' by {
        assert(body[i - outer.0] == '/');
    }
    if cut.0 < cut.1 {
        assert(body[hi - 1] == base_url[cut.1 - 1]);
    }
    cut
}

/// A text that may be missing is left out exactly where it is missing or empty,
/// and is otherwise kept as it is, whatever its length.
pub proof fn law_only_missing_and_empty_texts_are_left_out(s: Option<&str>)
    ensures
        s is None ==> non_empty(text_view(s)) is None,
        s matches Some(t) ==> (t@.len() == 0 ==> non_empty(text_view(s)) is None) && (t@.len() > 0
            ==> non_empty(text_view(s)) == Some(t@)),
{
}

/// A text that may be missing is left out, once trimmed, exactly where it is
/// missing or all white space; otherwise its trimmed text is kept, whatever its
/// length.
pub proof fn law_only_missing_and_blank_texts_are_left_out(s: Option<&str>)
    ensures
        s is None ==> non_empty(trimmed_view(s)) is None,
        s matches Some(t) ==> ((forall|i: int| 0 <= i < t@.len() ==> is_space(#[trigger] t@[i]))
            ==> non_empty(trimmed_view(s)) is None),
        s matches Some(t) ==> ((exists|i: int| 0 <= i < t@.len() && !is_space(#[trigger] t@[i]))
            ==> non_empty(trimmed_view(s)) == Some(trimmed(t@))),
{
    if let Some(t) = s {
        law_trimmed_empty_iff_blank(t@);
    }
}

/// A redeem body holds the trimmed code; the trimmed email exactly where one is
/// given that is not blank; the trimmed renewal key likewise; and nothing else.
pub proof fn law_what_a_redeem_body_holds(
    v: Value,
    code: &str,
    email: Option<&str>,
    renew_key: Option<&str>,
)
    requires
        is_redeem_body(
            v,
            trimmed(code@),
            non_empty(trimmed_view(email)),
            non_empty(trimmed_view(renew_key)),
        ),
    ensures
        json_members(v) is Some,
        ({
            let m = json_members(v).unwrap();
            &&& m.contains_key("code"@) && json_text(m["code"@]) == Some(trimmed(code@))
            &&& m.contains_key("email"@) <==> (email matches Some(t) && exists|i: int|
                0 <= i < t@.len() && !is_space(#[trigger] t@[i]))
            &&& m.contains_key("email"@) ==> json_text(m["email"@]) == Some(
                trimmed(email.unwrap()@),
            )
            &&& m.contains_key("renew_key"@) <==> (renew_key matches Some(t) && exists|i: int|
                0 <= i < t@.len() && !is_space(#[trigger] t@[i]))
            &&& m.contains_key("renew_key"@) ==> json_text(m["renew_key"@]) == Some(
                trimmed(renew_key.unwrap()@),
            )
            &&& forall|name: Seq<char>| #[trigger]
                m.contains_key(name) ==> name == "code"@ || name == "email"@ || name
                    == "renew_key"@
        }),
{
    law_only_missing_and_blank_texts_are_left_out(email);
    law_only_missing_and_blank_texts_are_left_out(renew_key);
    let m = json_members(v).unwrap();
    assert forall|name: Seq<char>| #[trigger] m.contains_key(name) implies name == "code"@ || name
        == "email"@ || name == "renew_key"@ by {
        assert(m.dom().contains(name));
    }
}

/// A react body holds the seat and the events as given, the model as given
/// exactly where one is given that is not empty, and nothing else.
pub proof fn law_what_a_react_body_holds(
    v: Value,
    model: Option<&str>,
    player_id: u8,
    events: Seq<Value>,
)
    requires
        is_react_body(v, non_empty(text_view(model)), player_id, events),
    ensures
        json_members(v) is Some,
        ({
            let m = json_members(v).unwrap();
            &&& m.contains_key("player_id"@) && json_count(m["player_id"@]) == Some(
                player_id as u64,
            )
            &&& m.contains_key("events"@) && json_items(m["events"@]) == Some(events)
            &&& m.contains_key("model"@) <==> (model matches Some(t) && t@.len() > 0)
            &&& m.contains_key("model"@) ==> json_text(m["model"@]) == Some(model.unwrap()@)
            &&& forall|name: Seq<char>| #[trigger]
                m.contains_key(name) ==> name == "model"@ || name == "player_id"@ || name
                    == "events"@
        }),
{
    let m = json_members(v).unwrap();
    assert forall|name: Seq<char>| #[trigger] m.contains_key(name) implies name == "model"@ || name
        == "player_id"@ || name == "events"@ by {
        assert(m.dom().contains(name));
    }
}

/// The same of requests as their callers fill them in: a text that is given is
/// sent as it is, one that is missing is left out.
pub proof fn law_bodies_hold_what_is_given(
    redeem: Value,
    react: Value,
    code: Seq<char>,
    email: Option<&str>,
    renew_key: Option<&str>,
    model: Option<&str>,
    player_id: u8,
    events: Seq<Value>,
)
    requires
        is_redeem_body(redeem, code, text_view(email), text_view(renew_key)),
        is_react_body(react, text_view(model), player_id, events),
    ensures
        json_members(redeem) matches Some(m) && m.contains_key("code"@) && json_text(m["code"@])
            == Some(code) && (m.contains_key("email"@) <==> email is Some) && (m.contains_key(
            "renew_key"@,
        ) <==> renew_key is Some) && (email matches Some(t) ==> json_text(m["email"@]) == Some(
            t@,
        )) && (renew_key matches Some(t) ==> json_text(m["renew_key"@]) == Some(t@)),
        json_members(react) matches Some(m) && (m.contains_key("model"@) <==> model is Some) && (
        model matches Some(t) ==> json_text(m["model"@]) == Some(t@)),
{
}

/// The key that a request carries is the one it was given.
pub proof fn law_requests_carry_their_key(r: Request)
    ensures
        r.bearer is None <==> r.bearer_text() is None,
        r.bearer matches Some(key) ==> r.bearer_text() == Some(key@),
{
}

/// An answer is a success from two hundred on and below three hundred, and for
/// no other status.
pub proof fn law_which_answers_succeed(status: u16)
    ensures
        successful(status) <==> status / 100 == 2,
{
}

/// The reason for a refusal is the server's own words where the answer holds them
/// as the text of its `error` member.
pub proof fn law_the_servers_words_come_first(v: Value, raw: Seq<char>)
    requires
        json_members(v) matches Some(m) && m.contains_key("error"@) && json_text(
            m["error"@],
        ) is Some,
    ensures
        reason(Some(v), raw) == json_text(json_members(v).unwrap()["error"@]).unwrap(),
        error_text(Some(v)) == json_text(json_members(v).unwrap()["error"@]),
{
}

/// Where the answer holds no such words, the reason is the answer itself: all of
/// it up to two hundred characters, and otherwise its first two hundred.
pub proof fn law_the_answer_itself_otherwise(found: Option<Value>, raw: Seq<char>)
    requires
        found matches Some(v) ==> (json_members(v) matches Some(m) ==> !m.contains_key("error"@)
            || json_text(m["error"@]) is None),
    ensures
        raw.len() <= 200 ==> reason(found, raw) == raw,
        raw.len() > 200 ==> reason(found, raw).len() == 200,
        forall|i: int| 0 <= i < reason(found, raw).len() ==> #[trigger] reason(found, raw)[i]
            == raw[i],
        error_text(found) is None,
{
}

/// A refusal's text says, one after the other, what was asked for, the status and
/// the reason, and then, where the server says so, how long to wait.
pub proof fn law_how_a_refusal_reads(
    what: Seq<char>,
    status: u16,
    retry_after: Option<Seq<char>>,
    msg: Seq<char>,
)
    ensures
        ({
            let text = failure_text(what, status, retry_after, msg);
            let a = what.len() as int;
            let b = a + " failed: HTTP "@.len();
            let c = b + decimal(status as nat).len();
            let d = c + " — "@.len();
            let e = d + msg.len();
            &&& e <= text.len()
            &&& text.subrange(0, a) == what
            &&& text.subrange(a, b) == " failed: HTTP "@
            &&& text.subrange(b, c) == decimal(status as nat)
            &&& text.subrange(c, d) == " — "@
            &&& text.subrange(d, e) == msg
            &&& retry_after is None ==> text.len() == e
            &&& retry_after matches Some(ra) ==> {
                let f = e + " (retry after "@.len();
                let g = f + ra.len();
                &&& text.len() == g + "s)"@.len()
                &&& text.subrange(e, f) == " (retry after "@
                &&& text.subrange(f, g) == ra
                &&& text.subrange(g, text.len() as int) == "s)"@
            }
        }),
{
    let text = failure_text(what, status, retry_after, msg);
    let number = decimal(status as nat);
    let a = what.len() as int;
    let b = a + " failed: HTTP "@.len();
    let c = b + number.len();
    let d = c + " — "@.len();
    let e = d + msg.len();
    assert(text.subrange(0, a) =~= what);
    assert(text.subrange(a, b) =~= " failed: HTTP "@);
    assert(text.subrange(b, c) =~= number);
    assert(text.subrange(c, d) =~= " — "@);
    assert(text.subrange(d, e) =~= msg);
    if let Some(ra) = retry_after {
        let f = e + " (retry after "@.len();
        let g = f + ra.len();
        assert(text.subrange(e, f) =~= " (retry after "@);
        assert(text.subrange(f, g) =~= ra);
        assert(text.subrange(g, text.len() as int) =~= "s)"@);
    }
}

} // verus!
