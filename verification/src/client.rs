//! The decisions of the DeepSeek HTTP client: decoding the response
//! envelope, checking header values, detecting the WAF challenge, and the
//! request and response records.
//!
//! Sending requests and reading responses happens outside this module;
//! every value that decides an outcome is handed in as a plain value.

use vstd::prelude::*;
use vstd::utf8::encode_utf8;

verus! {

// ── Endpoints ───────────────────────────────────────────────────────────

pub const ENDPOINT_USERS_LOGIN: &'static str = "/users/login";
pub const ENDPOINT_CHAT_SESSION_CREATE: &'static str = "/chat_session/create";
pub const ENDPOINT_CHAT_SESSION_DELETE: &'static str = "/chat_session/delete";
pub const ENDPOINT_CHAT_SESSION_UPDATE_TITLE: &'static str = "/chat_session/update_title";
pub const ENDPOINT_CHAT_CREATE_POW_CHALLENGE: &'static str = "/chat/create_pow_challenge";
pub const ENDPOINT_CHAT_COMPLETION: &'static str = "/chat/completion";
pub const ENDPOINT_CHAT_EDIT_MESSAGE: &'static str = "/chat/edit_message";
pub const ENDPOINT_CHAT_STOP_STREAM: &'static str = "/chat/stop_stream";
pub const ENDPOINT_FILE_UPLOAD: &'static str = "/file/upload_file";
pub const ENDPOINT_FILE_FETCH: &'static str = "/file/fetch_files";

/// The URL of `endpoint` under `api_base`.
pub fn endpoint_url(api_base: &str, endpoint: &str) -> (res: String)
    ensures
        res@ == api_base@ + endpoint@,
{
    let mut url = String::from_str(api_base);
    url.append(endpoint);
    url
}

// ── Errors ──────────────────────────────────────────────────────────────

/// Failures that the client decides on from the values of a request or a
/// response.
#[derive(Debug)]
pub enum ApiError {
    /// The HTTP status is not in `200..=299`.
    Status { status: u16, body: String },
    /// HTTP 200, but the envelope reports a non-zero code.
    Business { code: i64, msg: String },
    /// A header value holds a byte that HTTP does not allow.
    InvalidHeader(String),
}

// ── Response envelope ───────────────────────────────────────────────────

/// The outer layer of every JSON response.
#[derive(Debug)]
pub struct Envelope<T> {
    pub code: i64,
    pub msg: String,
    pub data: Option<EnvelopeData<T>>,
}

/// The business layer inside the envelope.
#[derive(Debug)]
pub struct EnvelopeData<T> {
    pub biz_code: i64,
    pub biz_msg: String,
    pub biz_data: Option<T>,
}

/// What an envelope stands for: its payload, or a business failure with
/// its code and message. `from_null` is what the payload type decodes
/// from JSON `null`, if anything (only optional payloads do).
pub open spec fn envelope_outcome<T>(e: Envelope<T>, from_null: Option<T>) -> Result<
    T,
    (i64, Seq<char>),
> {
    if e.code != 0 {
        Err((e.code, e.msg@))
    } else {
        match e.data {
            None => Err((-1i64, "missing data"@)),
            Some(d) => if d.biz_code != 0 {
                Err((d.biz_code, d.biz_msg@))
            } else {
                match d.biz_data {
                    Some(t) => Ok(t),
                    None => match from_null {
                        Some(t) => Ok(t),
                        None => Err((-1i64, "missing biz_data"@)),
                    },
                }
            },
        }
    }
}

/// `res` is the outcome `o`, with a business failure as `ApiError::Business`.
pub open spec fn agrees_with_outcome<T>(res: Result<T, ApiError>, o: Result<T, (i64, Seq<char>)>) -> bool {
    match o {
        Ok(t) => res matches Ok(v) && v == t,
        Err((c, m)) => res matches Err(ApiError::Business { code, msg }) && code == c && msg@ == m,
    }
}

impl<T> Envelope<T> {
    /// Unwraps the payload: a non-zero outer code, a missing data layer, a
    /// non-zero business code and a missing payload (unless the payload type
    /// accepts `null`, given as `from_null`) are business failures.
    pub fn into_result(self, from_null: Option<T>) -> (res: Result<T, ApiError>)
        ensures
            agrees_with_outcome(res, envelope_outcome(self, from_null)),
            (self.code == 0 && self.data is Some && self.data->0.biz_code == 0
                && self.data->0.biz_data is Some) ==> (res matches Ok(v) && v
                == self.data->0.biz_data->0),
            (self.code == 0 && self.data is Some && self.data->0.biz_code == 0
                && self.data->0.biz_data is None && from_null is Some) ==> (res matches Ok(v) && v
                == from_null->0),
            self.code != 0 ==> (res matches Err(ApiError::Business { code, msg }) && code
                == self.code && msg@ == self.msg@),
            (self.code == 0 && self.data is None) ==> (res matches Err(ApiError::Business { code, msg })
                && code == -1 && msg@ == "missing data"@),
            (self.code == 0 && self.data is Some && self.data->0.biz_code != 0) ==> (res matches Err(
                ApiError::Business { code, msg },
            ) && code == self.data->0.biz_code && msg@ == self.data->0.biz_msg@),
            (self.code == 0 && self.data is Some && self.data->0.biz_code == 0
                && self.data->0.biz_data is None && from_null is None) ==> (res matches Err(
                ApiError::Business { code, msg },
            ) && code == -1 && msg@ == "missing biz_data"@),
    {
        proof {
            lemma_envelope_payload_present(self, from_null);
            lemma_envelope_null_fallback(self, from_null);
        }
        if self.code != 0 {
            return Err(ApiError::Business { code: self.code, msg: self.msg });
        }
        let data = match self.data {
            Some(d) => d,
            None => {
                return Err(ApiError::Business { code: -1, msg: String::from_str("missing data") });
            },
        };
        if data.biz_code != 0 {
            return Err(ApiError::Business { code: data.biz_code, msg: data.biz_msg });
        }
        match data.biz_data {
            Some(t) => Ok(t),
            None => match from_null {
                Some(t) => Ok(t),
                None => Err(
                    ApiError::Business { code: -1, msg: String::from_str("missing biz_data") },
                ),
            },
        }
    }
}

/// A response is a success exactly when the envelope's outer and business
/// codes are both zero and a payload is present (or `null` is a payload).
pub proof fn lemma_envelope_success<T>(e: Envelope<T>, from_null: Option<T>)
    ensures
        envelope_outcome(e, from_null) is Ok <==> (e.code == 0 && e.data is Some
            && e.data->0.biz_code == 0 && (e.data->0.biz_data is Some || from_null is Some)),
{
}

/// A payload that is present is the answer, whatever the payload type
/// decodes from `null`: the `null` value only stands in for a missing one.
pub proof fn lemma_envelope_payload_present<T>(e: Envelope<T>, from_null: Option<T>)
    ensures
        (e.code == 0 && e.data is Some && e.data->0.biz_code == 0 && e.data->0.biz_data is Some)
            ==> envelope_outcome(e, from_null) == Ok::<T, (i64, Seq<char>)>(
            e.data->0.biz_data->0,
        ),
        forall|other: Option<T>|
            #![trigger envelope_outcome(e, other)]
            (e.data is Some && e.data->0.biz_data is Some) ==> envelope_outcome(e, from_null)
                == envelope_outcome(e, other),
{
}

/// When the payload is missing, the value the payload type decodes from
/// `null` is the answer; without one the answer is "missing biz_data".
pub proof fn lemma_envelope_null_fallback<T>(e: Envelope<T>, from_null: Option<T>)
    ensures
        (e.code == 0 && e.data is Some && e.data->0.biz_code == 0 && e.data->0.biz_data is None)
            ==> (match from_null {
            Some(t) => envelope_outcome(e, from_null) == Ok::<T, (i64, Seq<char>)>(t),
            None => envelope_outcome(e, from_null) == Err::<T, (i64, Seq<char>)>(
                (-1i64, "missing biz_data"@),
            ),
        }),
{
}

// ── Status and WAF ──────────────────────────────────────────────────────

/// Whether an HTTP status code is in the success class `200..=299`.
pub fn is_success_status(status: u16) -> (res: bool)
    ensures
        res == (200 <= status && status < 300),
{
    200 <= status && status < 300
}

/// Whether a response is the AWS WAF challenge: status 202 together with
/// an `x-amzn-waf-action` header.
pub fn is_waf_challenge(status: u16, has_waf_action_header: bool) -> (res: bool)
    ensures
        res == (status == 202 && has_waf_action_header),
{
    status == 202 && has_waf_action_header
}

/// The login answer to a response: the WAF challenge is refused with
/// status 202 and a hint to use a non-US proxy; anything else goes on.
pub fn check_login_response(status: u16, has_waf_action_header: bool) -> (res: Result<(), ApiError>)
    ensures
        (status == 202 && has_waf_action_header) ==> (res matches Err(
            ApiError::Status { status: s, body },
        ) && s == 202 && body@ == "WAF Challenge: use a non-US proxy"@),
        !(status == 202 && has_waf_action_header) ==> res is Ok,
{
    if is_waf_challenge(status, has_waf_action_header) {
        Err(ApiError::Status { status: 202, body: String::from_str("WAF Challenge: use a non-US proxy") })
    } else {
        Ok(())
    }
}

// ── Headers ─────────────────────────────────────────────────────────────

/// A byte that an HTTP header value may hold: 32 to 255 except 127, or tab.
pub open spec fn header_byte_ok(b: u8) -> bool {
    (b >= 32 && b != 127) || b == 9
}

/// Every byte of the UTF-8 encoding of `s` may stand in a header value.
pub open spec fn header_value_ok(s: Seq<char>) -> bool {
    forall|i: int| 0 <= i < encode_utf8(s).len() ==> header_byte_ok(#[trigger] encode_utf8(s)[i])
}

/// `http::HeaderValue::from_str(s)`, reduced to its outcome: `None` when `s`
/// is accepted (every byte is 32 to 255 except 127, or tab), otherwise the
/// `Display` text of the error, which is always
/// "failed to parse header value".
#[verifier::external_body]
fn header_value_error(s: &str) -> (res: Option<String>)
    ensures
        res is None <==> header_value_ok(s@),
        res matches Some(t) ==> t@ == "failed to parse header value"@,
{
    match http::HeaderValue::from_str(s) {
        Ok(_) => None,
        Err(e) => Some(e.to_string()),
    }
}

/// One header to send: its name, the label used in error messages, and its
/// value.
pub struct HeaderSpec {
    pub name: String,
    pub label: String,
    pub value: String,
}

/// The (name, label, value) characters of header specs.
pub open spec fn header_spec_views(v: Seq<HeaderSpec>) -> Seq<(Seq<char>, Seq<char>, Seq<char>)> {
    v.map_values(|h: HeaderSpec| (h.name@, h.label@, h.value@))
}

/// The (name, value) characters of header pairs.
pub open spec fn header_views(v: Seq<(String, String)>) -> Seq<(Seq<char>, Seq<char>)> {
    v.map_values(|p: (String, String)| (p.0@, p.1@))
}

/// The message for a header whose value is refused.
pub open spec fn invalid_header_message(label: Seq<char>) -> Seq<char> {
    label + ": "@ + "failed to parse header value"@
}

/// The headers built from `specs` in order, or the message for the first
/// one whose value is refused.
pub open spec fn headers_outcome(specs: Seq<(Seq<char>, Seq<char>, Seq<char>)>) -> Result<
    Seq<(Seq<char>, Seq<char>)>,
    Seq<char>,
>
    decreases specs.len(),
{
    if specs.len() == 0 {
        Ok(Seq::empty())
    } else {
        match headers_outcome(specs.drop_last()) {
            Err(m) => Err(m),
            Ok(h) => {
                let e = specs.last();
                if header_value_ok(e.2) {
                    Ok(h.push((e.0, e.2)))
                } else {
                    Err(invalid_header_message(e.1))
                }
            },
        }
    }
}

/// `res` is the outcome `o`, with a refused value as `ApiError::InvalidHeader`.
pub open spec fn agrees_with_headers(
    res: Result<Vec<(String, String)>, ApiError>,
    o: Result<Seq<(Seq<char>, Seq<char>)>, Seq<char>>,
) -> bool {
    match o {
        Ok(h) => res matches Ok(v) && header_views(v@) == h,
        Err(m) => res matches Err(ApiError::InvalidHeader(s)) && s@ == m,
    }
}

/// Checks each header value in order and returns the (name, value) pairs,
/// or the failure for the first value that HTTP refuses.
pub fn build_headers(specs: &Vec<HeaderSpec>) -> (res: Result<Vec<(String, String)>, ApiError>)
    ensures
        agrees_with_headers(res, headers_outcome(header_spec_views(specs@))),
{
    let ghost all = header_spec_views(specs@);
    let n = specs.len();
    let mut out: Vec<(String, String)> = Vec::new();
    let mut i: usize = 0;
    assert(all.take(0) =~= Seq::<(Seq<char>, Seq<char>, Seq<char>)>::empty());
    assert(header_views(out@) =~= Seq::<(Seq<char>, Seq<char>)>::empty());
    while i < n
        invariant
            n == specs@.len(),
            all == header_spec_views(specs@),
            0 <= i <= n,
            headers_outcome(all.take(i as int)) == Ok::<Seq<(Seq<char>, Seq<char>)>, Seq<char>>(
                header_views(out@),
            ),
        decreases n - i,
    {
        let spec = &specs[i];
        proof {
            assert(all.take(i as int + 1).drop_last() =~= all.take(i as int));
            assert(all.take(i as int + 1).last() == (spec.name@, spec.label@, spec.value@));
        }
        match header_value_error(spec.value.as_str()) {
            None => {
                let ghost before = out@;
                out.push((spec.name.clone(), spec.value.clone()));
                assert(header_views(out@) =~= header_views(before).push((spec.name@, spec.value@)));
            },
            Some(text) => {
                let mut msg = spec.label.clone();
                msg.append(": ");
                msg.append(text.as_str());
                proof {
                    assert(headers_outcome(all.take(i as int + 1)) == Err::<
                        Seq<(Seq<char>, Seq<char>)>,
                        Seq<char>,
                    >(invalid_header_message(spec.label@)));
                    lemma_headers_error_persists(all, i as int + 1);
                }
                return Err(ApiError::InvalidHeader(msg));
            },
        }
        i = i + 1;
    }
    assert(all.take(n as int) =~= all);
    Ok(out)
}

/// Once a prefix of the specs fails, every longer prefix fails the same way.
proof fn lemma_headers_error_persists(all: Seq<(Seq<char>, Seq<char>, Seq<char>)>, k: int)
    requires
        0 <= k <= all.len(),
        headers_outcome(all.take(k)) is Err,
    ensures
        headers_outcome(all) == headers_outcome(all.take(k)),
    decreases all.len() - k,
{
    if k < all.len() {
        assert(all.take(k + 1).drop_last() =~= all.take(k));
        lemma_headers_error_persists(all, k + 1);
    } else {
        assert(all.take(k) =~= all);
    }
}

/// The identity the client presents in its headers.
pub struct HeaderProfile {
    pub user_agent: String,
    pub client_version: String,
    pub client_platform: String,
    pub client_locale: String,
}

/// The headers sent with a login: the user agent alone.
pub open spec fn login_header_specs(p: HeaderProfile) -> Seq<(Seq<char>, Seq<char>, Seq<char>)> {
    seq![("user-agent"@, "User-Agent"@, p.user_agent@)]
}

/// The headers sent with an authenticated request.
pub open spec fn auth_header_specs(p: HeaderProfile, token: Seq<char>) -> Seq<
    (Seq<char>, Seq<char>, Seq<char>),
> {
    seq![
        ("user-agent"@, "User-Agent"@, p.user_agent@),
        ("authorization"@, "Authorization"@, "Bearer "@ + token),
        ("x-client-version"@, "X-Client-Version"@, p.client_version@),
        ("x-client-platform"@, "X-Client-Platform"@, p.client_platform@),
        ("x-client-locale"@, "X-Client-Locale"@, p.client_locale@),
    ]
}

/// The headers sent with a request that carries a proof of work.
pub open spec fn pow_header_specs(p: HeaderProfile, token: Seq<char>, pow: Seq<char>) -> Seq<
    (Seq<char>, Seq<char>, Seq<char>),
> {
    auth_header_specs(p, token).push(("x-ds-pow-response"@, "X-Ds-Pow-Response"@, pow))
}

fn header_spec(name: &str, label: &str, value: String) -> (res: HeaderSpec)
    ensures
        res.name@ == name@,
        res.label@ == label@,
        res.value@ == value@,
{
    HeaderSpec { name: String::from_str(name), label: String::from_str(label), value }
}

impl HeaderProfile {
    fn auth_specs(&self, token: &str) -> (res: Vec<HeaderSpec>)
        ensures
            header_spec_views(res@) == auth_header_specs(*self, token@),
    {
        let mut bearer = String::from_str("Bearer ");
        bearer.append(token);
        let mut v: Vec<HeaderSpec> = Vec::new();
        v.push(header_spec("user-agent", "User-Agent", self.user_agent.clone()));
        v.push(header_spec("authorization", "Authorization", bearer));
        v.push(header_spec("x-client-version", "X-Client-Version", self.client_version.clone()));
        v.push(header_spec("x-client-platform", "X-Client-Platform", self.client_platform.clone()));
        v.push(header_spec("x-client-locale", "X-Client-Locale", self.client_locale.clone()));
        assert(header_spec_views(v@) =~= auth_header_specs(*self, token@));
        v
    }

    /// The headers of a login request.
    pub fn login_headers(&self) -> (res: Result<Vec<(String, String)>, ApiError>)
        ensures
            agrees_with_headers(res, headers_outcome(login_header_specs(*self))),
            res is Ok <==> header_value_ok(self.user_agent@),
            res matches Ok(v) ==> header_views(v@) == seq![("user-agent"@, self.user_agent@)],
    {
        proof {
            reveal_with_fuel(headers_outcome, 2);
            assert(login_header_specs(*self).drop_last() =~= Seq::<(Seq<char>, Seq<char>, Seq<char>)>::empty());
            if headers_outcome(login_header_specs(*self)) is Ok {
                assert(headers_outcome(login_header_specs(*self))->Ok_0 =~= seq![("user-agent"@, self.user_agent@)]);
            }
        }
        let mut v: Vec<HeaderSpec> = Vec::new();
        v.push(header_spec("user-agent", "User-Agent", self.user_agent.clone()));
        assert(header_spec_views(v@) =~= login_header_specs(*self));
        build_headers(&v)
    }

    /// The headers of an authenticated request.
    pub fn auth_headers(&self, token: &str) -> (res: Result<Vec<(String, String)>, ApiError>)
        ensures
            agrees_with_headers(res, headers_outcome(auth_header_specs(*self, token@))),
            res is Ok <==> (header_value_ok(self.user_agent@) && header_value_ok("Bearer "@ + token@)
                && header_value_ok(self.client_version@) && header_value_ok(self.client_platform@)
                && header_value_ok(self.client_locale@)),
            res matches Ok(v) ==> header_views(v@) == seq![
                ("user-agent"@, self.user_agent@),
                ("authorization"@, "Bearer "@ + token@),
                ("x-client-version"@, self.client_version@),
                ("x-client-platform"@, self.client_platform@),
                ("x-client-locale"@, self.client_locale@),
            ],
    {
        proof {
            lemma_auth_headers_ok(*self, token@);
        }
        let v = self.auth_specs(token);
        build_headers(&v)
    }

    /// The headers of an authenticated request that carries a proof of work.
    pub fn auth_headers_with_pow(&self, token: &str, pow_response: &str) -> (res: Result<
        Vec<(String, String)>,
        ApiError,
    >)
        ensures
            agrees_with_headers(res, headers_outcome(pow_header_specs(*self, token@, pow_response@))),
            res is Ok <==> (header_value_ok(self.user_agent@) && header_value_ok("Bearer "@ + token@)
                && header_value_ok(self.client_version@) && header_value_ok(self.client_platform@)
                && header_value_ok(self.client_locale@) && header_value_ok(pow_response@)),
            res matches Ok(v) ==> header_views(v@) == seq![
                ("user-agent"@, self.user_agent@),
                ("authorization"@, "Bearer "@ + token@),
                ("x-client-version"@, self.client_version@),
                ("x-client-platform"@, self.client_platform@),
                ("x-client-locale"@, self.client_locale@),
                ("x-ds-pow-response"@, pow_response@),
            ],
    {
        proof {
            lemma_auth_headers_ok(*self, token@);
            lemma_pow_headers(*self, token@, pow_response@);
        }
        let mut v = self.auth_specs(token);
        let ghost before = v@;
        v.push(header_spec("x-ds-pow-response", "X-Ds-Pow-Response", String::from_str(pow_response)));
        assert(header_spec_views(v@) =~= header_spec_views(before).push(
            ("x-ds-pow-response"@, "X-Ds-Pow-Response"@, pow_response@),
        ));
        build_headers(&v)
    }
}

/// The authenticated headers are built exactly when the user agent, the
/// bearer token and the three client values are all acceptable header
/// values, and they are then these five, in this order.
pub proof fn lemma_auth_headers_ok(p: HeaderProfile, token: Seq<char>)
    ensures
        headers_outcome(auth_header_specs(p, token)) is Ok <==> (header_value_ok(p.user_agent@)
            && header_value_ok("Bearer "@ + token) && header_value_ok(p.client_version@)
            && header_value_ok(p.client_platform@) && header_value_ok(p.client_locale@)),
        headers_outcome(auth_header_specs(p, token)) matches Ok(h) ==> h == seq![
            ("user-agent"@, p.user_agent@),
            ("authorization"@, "Bearer "@ + token),
            ("x-client-version"@, p.client_version@),
            ("x-client-platform"@, p.client_platform@),
            ("x-client-locale"@, p.client_locale@),
        ],
{
    let s = auth_header_specs(p, token);
    reveal_with_fuel(headers_outcome, 6);
    assert(s.drop_last().drop_last().drop_last().drop_last().drop_last() =~= Seq::<(Seq<char>, Seq<char>, Seq<char>)>::empty());
    assert(s.drop_last().drop_last().drop_last().drop_last() =~= seq![s[0]]);
    assert(s.drop_last().drop_last().drop_last() =~= seq![s[0], s[1]]);
    assert(s.drop_last().drop_last() =~= seq![s[0], s[1], s[2]]);
    assert(s.drop_last() =~= seq![s[0], s[1], s[2], s[3]]);
    if headers_outcome(s) is Ok {
        let h = headers_outcome(s)->Ok_0;
        assert(h =~= seq![
            ("user-agent"@, p.user_agent@),
            ("authorization"@, "Bearer "@ + token),
            ("x-client-version"@, p.client_version@),
            ("x-client-platform"@, p.client_platform@),
            ("x-client-locale"@, p.client_locale@),
        ]);
    }
}

/// The headers with a proof of work are the authenticated headers followed
/// by `x-ds-pow-response`: they are built exactly when those are and the
/// proof-of-work value is acceptable, and the bearer token stays second.
pub proof fn lemma_pow_headers(p: HeaderProfile, token: Seq<char>, pow: Seq<char>)
    ensures
        headers_outcome(pow_header_specs(p, token, pow)) is Ok <==> (headers_outcome(
            auth_header_specs(p, token),
        ) is Ok && header_value_ok(pow)),
        headers_outcome(pow_header_specs(p, token, pow)) matches Ok(h) ==> h == seq![
            ("user-agent"@, p.user_agent@),
            ("authorization"@, "Bearer "@ + token),
            ("x-client-version"@, p.client_version@),
            ("x-client-platform"@, p.client_platform@),
            ("x-client-locale"@, p.client_locale@),
            ("x-ds-pow-response"@, pow),
        ],
        headers_outcome(pow_header_specs(p, token, pow)) is Ok ==> (headers_outcome(
            auth_header_specs(p, token),
        ) matches Ok(a) && headers_outcome(pow_header_specs(p, token, pow))->Ok_0 == a.push(
            ("x-ds-pow-response"@, pow),
        )),
{
    lemma_auth_headers_ok(p, token);
    let s = pow_header_specs(p, token, pow);
    assert(s.drop_last() =~= auth_header_specs(p, token));
    assert(s.last() == ("x-ds-pow-response"@, "X-Ds-Pow-Response"@, pow));
    if headers_outcome(s) is Ok {
        let h = headers_outcome(s)->Ok_0;
        let a = headers_outcome(auth_header_specs(p, token))->Ok_0;
        assert(h == a.push(("x-ds-pow-response"@, pow)));
        assert(h =~= seq![
            ("user-agent"@, p.user_agent@),
            ("authorization"@, "Bearer "@ + token),
            ("x-client-version"@, p.client_version@),
            ("x-client-platform"@, p.client_platform@),
            ("x-client-locale"@, p.client_locale@),
            ("x-ds-pow-response"@, pow),
        ]);
    }
}

// ── Records sent and received ───────────────────────────────────────────

/// Login request body (e-mail, or mobile number with area code).
#[derive(Debug)]
pub struct LoginPayload {
    pub email: Option<String>,
    pub mobile: Option<String>,
    pub password: String,
    pub area_code: Option<String>,
    pub device_id: String,
    pub os: String,
}

/// Login response payload.
#[derive(Debug)]
pub struct LoginData {
    pub code: i64,
    pub msg: String,
    pub user: UserInfo,
}

/// The logged-in user.
#[derive(Debug)]
pub struct UserInfo {
    pub id: String,
    pub token: String,
    pub email: Option<String>,
    pub mobile_number: Option<String>,
}

/// Metadata of an uploaded file.
#[derive(Debug)]
pub struct UploadFileData {
    pub id: String,
    pub status: String,
    pub file_name: String,
    pub file_size: i64,
}

/// Answer to a file status query.
#[derive(Debug)]
pub struct FetchFilesData {
    pub files: Vec<FileInfo>,
}

/// Status of one file (`PENDING`, `SUCCESS` or `FAILED`).
#[derive(Debug)]
pub struct FileInfo {
    pub id: String,
    pub status: String,
    pub file_name: String,
    pub file_size: i64,
    pub token_usage: Option<i64>,
}

/// A proof-of-work challenge.
#[derive(Debug)]
pub struct ChallengeData {
    pub algorithm: String,
    pub challenge: String,
    pub salt: String,
    pub signature: String,
    pub difficulty: i64,
    pub expire_after: i64,
    pub expire_at: i64,
    pub target_path: String,
}

/// Completion request body.
#[derive(Debug)]
pub struct CompletionPayload {
    pub chat_session_id: String,
    pub parent_message_id: Option<i64>,
    pub model_type: String,
    pub prompt: String,
    pub ref_file_ids: Vec<String>,
    pub thinking_enabled: bool,
    pub search_enabled: bool,
    pub preempt: bool,
}

/// Edit-message request body.
#[derive(Debug)]
pub struct EditMessagePayload {
    pub chat_session_id: String,
    pub message_id: i64,
    pub prompt: String,
    pub search_enabled: bool,
    pub thinking_enabled: bool,
    pub model_type: String,
}

/// Update-title request body.
#[derive(Debug)]
pub struct UpdateTitlePayload {
    pub chat_session_id: String,
    pub title: String,
}

/// Stop-stream request body.
#[derive(Debug)]
pub struct StopStreamPayload {
    pub chat_session_id: String,
    pub message_id: i64,
}

} // verus!
