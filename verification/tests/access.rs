use vibrev::access::{
    authority_of_entry, host_named, host_of_header, AccessPolicy, BindAddr, Ip, BAD_REQUEST,
    FORBIDDEN,
};
use vibrev::address::{base_of_parts, external_base_url, named_address, RequestHead};
use vibrev::bearer::{strip_bearer, validate, UNAUTHORIZED};
use vibrev::token::Accepted;

const TOKEN: &str = "vbr_test_token";

fn accepted(tokens: &[&str]) -> Accepted {
    Accepted::new(tokens.iter().map(|t| (*t).to_string()).collect(), None)
        .expect("non-empty token set")
}

fn head(headers: &[(&str, &str)]) -> RequestHead {
    RequestHead {
        headers: headers
            .iter()
            .map(|(name, value)| ((*name).to_owned(), Some((*value).to_owned())))
            .collect(),
        authority: None,
        scheme: None,
    }
}

fn header(value: &str) -> RequestHead {
    head(&[("authorization", value)])
}

#[test]
fn a_missing_header_is_401_with_a_challenge() {
    let rejection = validate(&accepted(&["vbr_a"]), &head(&[])).expect_err("no credential");
    assert_eq!(rejection.status, UNAUTHORIZED);
    assert_eq!(rejection.challenge, "Bearer");
}

#[test]
fn a_wrong_token_is_401_and_the_body_says_nothing_about_the_real_one() {
    let rejection = validate(&accepted(&["vbr_secret"]), &header("Bearer vbr_guess"))
        .expect_err("wrong credential");
    assert_eq!(rejection.status, UNAUTHORIZED);
    assert!(!rejection.message.contains("vbr_secret"));
    assert!(!rejection.message.contains("10"), "no length hint");
}

#[test]
fn a_non_bearer_scheme_is_rejected() {
    let accepted = accepted(&["vbr_secret"]);
    assert!(validate(&accepted, &header("Basic dXNlcjpwYXNz")).is_err());
    assert!(validate(&accepted, &header("Bearer")).is_err());
    assert!(validate(&accepted, &header("Bearer   ")).is_err());
}

#[test]
fn the_bearer_scheme_is_case_insensitive() {
    let accepted = accepted(&["vbr_secret"]);
    assert!(validate(&accepted, &header("bearer vbr_secret")).is_ok());
    assert!(validate(&accepted, &header("BEARER vbr_secret")).is_ok());
}

#[test]
fn a_correct_token_passes() {
    assert!(validate(&accepted(&["vbr_secret"]), &header("Bearer vbr_secret")).is_ok());
}

/// A rotation leaves the outgoing token on a later line of the file.
#[test]
fn a_token_from_a_later_line_still_authenticates() {
    let accepted = accepted(&["vbr_new", "vbr_old"]);
    assert!(validate(&accepted, &header("Bearer vbr_old")).is_ok());
    assert!(validate(&accepted, &header("Bearer vbr_new")).is_ok());
    assert!(validate(&accepted, &header("Bearer vbr_gone")).is_err());
}

#[test]
fn strip_bearer_extracts_the_credential() {
    assert_eq!(strip_bearer("Bearer abc"), Some("abc"));
    assert_eq!(strip_bearer("Bearer  abc "), Some("abc"));
    assert_eq!(strip_bearer("Token abc"), None);
    assert_eq!(strip_bearer("abc"), None);
}

// ---------------------------------------------------------------------------
// Hosts
// ---------------------------------------------------------------------------

fn ip(text: &str) -> Option<Ip> {
    if text == "::1" {
        return Some(Ip::V6(1));
    }
    let parts: Option<Vec<u8>> = text.split('.').map(|part| part.parse().ok()).collect();
    match parts?.as_slice() {
        [a, b, c, d] => Some(Ip::V4(u32::from_be_bytes([*a, *b, *c, *d]))),
        _ => None,
    }
}

fn policy(bind: &str, allowed_hosts: Option<&[&str]>) -> AccessPolicy {
    let (host, port) = bind.rsplit_once(':').expect("a port");
    let bind_addr = BindAddr {
        ip: ip(host.trim_matches(['[', ']'])).expect("an address"),
        port: port.parse().expect("a port"),
        shown: bind.to_owned(),
    };
    let hosts = allowed_hosts.map(|hosts| {
        hosts
            .iter()
            .map(|host| (*host).to_string())
            .collect::<Vec<_>>()
    });
    let auth = Accepted::new(
        vec![TOKEN.to_string()],
        Some(b"/home/tester/.vibrev/token".to_vec()),
    )
    .expect("token set");
    AccessPolicy::new(bind_addr, hosts.as_deref(), auth)
}

/// Hands the policy a request, with the address its host is where it is one.
fn check(policy: &AccessPolicy, head: &RequestHead) -> Result<(), (u16, Option<String>)> {
    let named = host_named(head);
    policy
        .validate(head, named.as_deref().and_then(ip))
        .map_err(|refusal| (refusal.status, refusal.challenge))
}

fn headers(host: &str) -> RequestHead {
    head(&[("host", host), ("authorization", &format!("Bearer {TOKEN}"))])
}

fn unauthenticated_headers(host: &str) -> RequestHead {
    head(&[("host", host)])
}

#[test]
fn wildcard_bind_allows_lan_ip_literal_hosts() {
    let policy = policy("0.0.0.0:8765", None);
    assert!(check(&policy, &headers("10.10.10.101:8765")).is_ok());
}

#[test]
fn wildcard_bind_allows_lan_ip_even_with_extra_allow_host() {
    let policy = policy("0.0.0.0:8765", Some(&["10.10.10.100"]));
    assert!(check(&policy, &headers("10.10.10.101:8765")).is_ok());
}

#[test]
fn wildcard_bind_rejects_unlisted_dns_host() {
    let policy = policy("0.0.0.0:8765", None);
    let response = check(&policy, &headers("example.com:8765"))
        .expect_err("unlisted DNS host should be rejected");
    assert_eq!(response.0, FORBIDDEN);
}

#[test]
fn explicit_dns_host_allows_matching_host() {
    let policy = policy("0.0.0.0:8765", Some(&["ida-box.local"]));
    assert!(check(&policy, &headers("ida-box.local:8765")).is_ok());
}

#[test]
fn loopback_bind_rejects_lan_ip_literal_host() {
    let policy = policy("127.0.0.1:8765", None);
    let response = check(&policy, &headers("10.10.10.101:8765"))
        .expect_err("LAN host should not be valid for loopback bind");
    assert_eq!(response.0, FORBIDDEN);
}

#[test]
fn wildcard_allow_host_disables_host_check() {
    let policy = policy("127.0.0.1:8765", Some(&["*"]));
    assert!(policy.host_check_disabled());
    assert!(check(&policy, &headers("example.com:9999")).is_ok());
}

#[test]
fn empty_allow_host_disables_host_check() {
    let policy = policy("127.0.0.1:8765", Some(&[""]));
    assert!(policy.host_check_disabled());
    assert!(check(&policy, &headers("example.com:9999")).is_ok());
}

#[test]
fn a_request_without_a_credential_is_401_not_403() {
    let policy = policy("127.0.0.1:8765", None);
    let response =
        check(&policy, &unauthenticated_headers("127.0.0.1:8765")).expect_err("no credential");
    assert_eq!(response.0, UNAUTHORIZED);
    assert_eq!(
        response.1.as_deref(),
        Some("Bearer"),
        "RFC 9110 requires the challenge on a 401"
    );
}

#[test]
fn a_wrong_credential_is_401_with_an_invalid_token_challenge() {
    let policy = policy("127.0.0.1:8765", None);
    let headers = head(&[
        ("host", "127.0.0.1:8765"),
        ("authorization", "Bearer vbr_wrong"),
    ]);
    let response = check(&policy, &headers).expect_err("wrong credential");
    assert_eq!(response.0, UNAUTHORIZED);
    assert_eq!(
        response.1.as_deref(),
        Some("Bearer error=\"invalid_token\"")
    );
}

#[test]
fn loopback_is_not_exempt_from_the_credential() {
    // The default bind *is* loopback, so a loopback exemption would be an
    // exemption for the default.
    for bind in ["127.0.0.1:8765", "[::1]:8765"] {
        let policy = policy(bind, None);
        assert!(
            check(&policy, &unauthenticated_headers("localhost:8765")).is_err(),
            "{bind} must still demand a token"
        );
    }
}

#[test]
fn a_valid_credential_passes() {
    let policy = policy("127.0.0.1:8765", None);
    assert!(check(&policy, &headers("127.0.0.1:8765")).is_ok());
}

#[test]
fn origin_is_ignored_when_credential_is_valid() {
    let policy = policy("127.0.0.1:8765", None);
    let hostile = head(&[
        ("host", "127.0.0.1:8765"),
        ("authorization", &format!("Bearer {TOKEN}")),
        ("origin", "http://evil.example"),
    ]);
    assert!(check(&policy, &hostile).is_ok());
}

#[test]
fn disabled_host_check_still_requires_host_header() {
    let policy = policy("127.0.0.1:8765", Some(&["*"]));
    let response =
        check(&policy, &head(&[])).expect_err("missing Host remains a bad request");
    assert_eq!(response.0, BAD_REQUEST);
}

#[test]
fn an_address_knows_where_it_leads() {
    assert!(Ip::V4(0x7f00_0001).is_loopback());
    assert!(Ip::V6(1).is_loopback());
    assert!(!Ip::V4(0x0a00_0001).is_loopback());
    assert!(Ip::V4(0).is_unspecified());
    assert!(!Ip::V6(1).is_unspecified());
}

#[test]
fn the_host_of_a_request_is_read_without_its_port() {
    assert_eq!(host_named(&head(&[("host", "Example.COM:80")])).as_deref(), Some("example.com"));
    assert_eq!(host_named(&head(&[("host", "[::1]:80")])).as_deref(), Some("::1"));
    assert_eq!(host_named(&head(&[("host", "a b")])), None);
    assert_eq!(host_named(&head(&[])), None);
}

#[test]
fn hosts_are_read_from_what_the_parser_gave() {
    let host = host_of_header(
        Some(Some("x:1")),
        Some(("EXAMPLE.com".to_owned(), Some(1))),
    );
    assert!(host.is_ok());
    let unread = host_of_header(Some(Some("x y")), None);
    assert_eq!(unread.expect_err("no authority").status, BAD_REQUEST);
    let _ = authority_of_entry("box", None);
}

#[test]
fn the_policy_tells_what_it_lets_in() {
    assert_eq!(
        policy("127.0.0.1:8765", Some(&["*"])).host_policy_summary(),
        "disabled; all Host values are allowed"
    );
    let summary = policy("127.0.0.1:8765", Some(&["box.local:80"])).host_policy_summary();
    assert!(summary.contains("127.0.0.1:8765"), "{summary}");
    assert!(summary.contains("box.local:80"), "{summary}");
    assert_eq!(policy("127.0.0.1:1", None).bind_addr().port, 1);
    assert!(policy("127.0.0.1:1", None).auth().accepts(TOKEN));
}

// ---------------------------------------------------------------------------
// Addresses to hand out
// ---------------------------------------------------------------------------

#[test]
fn a_base_url_is_named_by_the_request() {
    let forwarded = head(&[("forwarded", "for=1.2.3.4;proto=https;host=kit.example")]);
    assert_eq!(
        external_base_url(&forwarded).as_deref(),
        Some("https://kit.example")
    );
    let named = head(&[("x-vibrev-external-base", "http://a.example/base/")]);
    assert_eq!(named_address(&named).as_deref(), Some("http://a.example/base/"));
    assert_eq!(
        external_base_url(&named).as_deref(),
        Some("http://a.example/base")
    );
    assert_eq!(external_base_url(&head(&[])), None);
    let odd = head(&[("x-vibrev-external-base", "ftp://a.example")]);
    assert_eq!(external_base_url(&odd), None);
}

#[test]
fn a_base_is_made_of_the_parts_of_an_address() {
    let parts = |scheme: &str| {
        Some((
            Some(scheme.to_owned()),
            Some("h:1".to_owned()),
            "/p/".to_owned(),
        ))
    };
    assert_eq!(base_of_parts(parts("http")).as_deref(), Some("http://h:1/p"));
    assert_eq!(base_of_parts(parts("file")), None);
    assert_eq!(base_of_parts(None), None);
}
