use ds_free_api::client::{
    build_headers, check_login_response, endpoint_url, is_success_status, is_waf_challenge,
    ApiError, Envelope, EnvelopeData, HeaderProfile, HeaderSpec, ENDPOINT_FILE_FETCH,
    ENDPOINT_USERS_LOGIN,
};
use ds_free_api::text::join_strings;

fn s(x: &str) -> String {
    x.to_string()
}

fn profile() -> HeaderProfile {
    HeaderProfile {
        user_agent: s("DeepSeek/2.1.1 Android/35"),
        client_version: s("2.0.0"),
        client_platform: s("android"),
        client_locale: s("zh_CN"),
    }
}

fn envelope(code: i64, data: Option<(i64, Option<u32>)>) -> Envelope<u32> {
    Envelope {
        code,
        msg: s("outer"),
        data: data.map(|(biz_code, biz_data)| EnvelopeData { biz_code, biz_msg: s("inner"), biz_data }),
    }
}

fn business(r: Result<u32, ApiError>) -> (i64, String) {
    match r {
        Err(ApiError::Business { code, msg }) => (code, msg),
        other => panic!("expected a business error, got {:?}", other),
    }
}

fn invalid_header<T: std::fmt::Debug>(r: Result<T, ApiError>) -> String {
    match r {
        Err(ApiError::InvalidHeader(m)) => m,
        other => panic!("expected an invalid header, got {:?}", other),
    }
}

#[test]
fn endpoint_urls() {
    assert_eq!(
        endpoint_url("https://chat.deepseek.com/api/v0", ENDPOINT_USERS_LOGIN),
        "https://chat.deepseek.com/api/v0/users/login"
    );
    assert_eq!(endpoint_url("http://h", ENDPOINT_FILE_FETCH), "http://h/file/fetch_files");
}

#[test]
fn success_status_range() {
    assert!(!is_success_status(199));
    assert!(is_success_status(200));
    assert!(is_success_status(299));
    assert!(!is_success_status(300));
    assert!(!is_success_status(404));
}

#[test]
fn waf_challenge_detection() {
    assert!(is_waf_challenge(202, true));
    assert!(!is_waf_challenge(202, false));
    assert!(!is_waf_challenge(200, true));
    match check_login_response(202, true) {
        Err(ApiError::Status { status, body }) => {
            assert_eq!(status, 202);
            assert_eq!(body, "WAF Challenge: use a non-US proxy");
        }
        _ => panic!("expected the WAF refusal"),
    }
    assert!(check_login_response(202, false).is_ok());
    assert!(check_login_response(403, true).is_ok());
}

#[test]
fn envelope_success() {
    assert_eq!(envelope(0, Some((0, Some(5)))).into_result(None).unwrap(), 5);
    assert_eq!(envelope(0, Some((0, None))).into_result(Some(9)).unwrap(), 9);
}

#[test]
fn envelope_failures() {
    assert_eq!(business(envelope(40003, Some((0, Some(5)))).into_result(None)), (40003, s("outer")));
    assert_eq!(business(envelope(0, None).into_result(Some(1))), (-1, s("missing data")));
    assert_eq!(business(envelope(0, Some((7, Some(5)))).into_result(None)), (7, s("inner")));
    assert_eq!(business(envelope(0, Some((0, None))).into_result(None)), (-1, s("missing biz_data")));
}

#[test]
fn auth_headers_in_order() {
    let h = profile().auth_headers("tok").unwrap();
    assert_eq!(
        h,
        vec![
            (s("user-agent"), s("DeepSeek/2.1.1 Android/35")),
            (s("authorization"), s("Bearer tok")),
            (s("x-client-version"), s("2.0.0")),
            (s("x-client-platform"), s("android")),
            (s("x-client-locale"), s("zh_CN")),
        ]
    );
    let h = profile().auth_headers_with_pow("tok", "pow=1").unwrap();
    assert_eq!(h.len(), 6);
    assert_eq!(h[5], (s("x-ds-pow-response"), s("pow=1")));
    assert_eq!(profile().login_headers().unwrap(), vec![(s("user-agent"), s("DeepSeek/2.1.1 Android/35"))]);
}

#[test]
fn header_values_refused_by_http() {
    let mut p = profile();
    p.user_agent = s("bad\nagent");
    assert_eq!(invalid_header(p.auth_headers("tok")), "User-Agent: failed to parse header value");
    assert_eq!(invalid_header(p.login_headers()), "User-Agent: failed to parse header value");
    assert_eq!(
        invalid_header(profile().auth_headers("t\r")),
        "Authorization: failed to parse header value"
    );
    let mut p = profile();
    p.client_locale = s("zh\u{7f}");
    assert_eq!(invalid_header(p.auth_headers("t")), "X-Client-Locale: failed to parse header value");
    assert_eq!(
        invalid_header(profile().auth_headers_with_pow("t", "a\0b")),
        "X-Ds-Pow-Response: failed to parse header value"
    );
}

#[test]
fn header_values_accepted_by_http() {
    let mut p = profile();
    p.client_platform = s("tab\there");
    p.client_version = s("版本");
    assert!(p.auth_headers("tok").is_ok());
}

#[test]
fn first_refused_header_is_reported() {
    let specs = vec![
        HeaderSpec { name: s("a"), label: s("A"), value: s("ok") },
        HeaderSpec { name: s("b"), label: s("B"), value: s("x\n") },
        HeaderSpec { name: s("c"), label: s("C"), value: s("\n") },
    ];
    assert_eq!(invalid_header(build_headers(&specs)), "B: failed to parse header value");
    assert_eq!(build_headers(&Vec::new()).unwrap(), Vec::<(String, String)>::new());
}

#[test]
fn join_file_ids() {
    assert_eq!(join_strings(&[], ","), "");
    assert_eq!(join_strings(&[s("a")], ","), "a");
    assert_eq!(join_strings(&[s("a"), s("b"), s("c")], ","), "a,b,c");
}
