use neutrino_http::auth::{authenticated_origin, parse_origin, x_matrix};
use neutrino_http::response::FedError;

#[test]
fn parses_origin_ignoring_destination_key_and_sig() {
    // A real peer's header carries destination/key/sig too; we extract only
    // the origin and ignore the rest.
    let origin = parse_origin(
        r#"X-Matrix origin="a.example",destination="b.example",key="ed25519:1",sig="abc=="#,
    )
    .expect("parses");
    assert_eq!(origin.as_str(), "a.example");
    // origin alone is enough; destination is not required.
    assert_eq!(
        parse_origin(r#"X-Matrix origin="a.example""#)
            .unwrap()
            .as_str(),
        "a.example"
    );
}

#[test]
fn parse_rejects_wrong_scheme_and_missing_origin() {
    assert!(parse_origin("Bearer token").is_none());
    assert!(parse_origin(r#"X-Matrix destination="b.example""#).is_none()); // no origin
    assert!(parse_origin("X-Matrix nonsense").is_none());
}

#[test]
fn authenticated_origin_happy_path() {
    // destination need not match our name (we don't enforce it).
    let origin = authenticated_origin(
        Some(r#"X-Matrix origin="a.example",destination="anything.example""#),
        "us.example",
    )
    .expect("ok");
    assert_eq!(origin.as_str(), "a.example");
}

#[test]
fn authenticated_origin_rejects_missing_malformed_and_self() {
    // Missing header.
    assert!(matches!(
        authenticated_origin(None, "us.example"),
        Err(FedError::Unauthorized(_))
    ));
    // Malformed (wrong scheme).
    assert!(matches!(
        authenticated_origin(Some("Bearer x"), "us.example"),
        Err(FedError::Unauthorized(_))
    ));
    // Self-impersonation: origin claims to be us.
    assert!(matches!(
        authenticated_origin(
            Some(r#"X-Matrix origin="us.example",destination="us.example""#),
            "us.example"
        ),
        Err(FedError::Unauthorized(_))
    ));
}

#[test]
fn each_refusal_has_its_own_message() {
    assert_eq!(
        authenticated_origin(None, "us.example"),
        Err(FedError::Unauthorized("missing X-Matrix authorization header"))
    );
    assert_eq!(
        authenticated_origin(Some("Bearer x"), "us.example"),
        Err(FedError::Unauthorized("malformed X-Matrix authorization header"))
    );
    assert_eq!(
        authenticated_origin(Some("X-Matrix origin=us.example"), "us.example"),
        Err(FedError::Unauthorized("X-Matrix origin must not claim to be this server"))
    );
}

#[test]
fn header_round_trips() {
    let value = x_matrix("a.example:8448", "b.example");
    assert_eq!(value, r#"X-Matrix origin="a.example:8448",destination="b.example""#);
    assert_eq!(parse_origin(&value).as_deref(), Some("a.example:8448"));
}

#[test]
fn origin_must_be_a_server_name() {
    assert_eq!(parse_origin(r#"X-Matrix origin="not a name""#), None);
    assert_eq!(parse_origin(r#"X-Matrix origin="""#), None);
    // Quotes and spaces around the parameter are optional.
    assert_eq!(
        parse_origin("X-Matrix  destination=b , origin = a.example ").as_deref(),
        Some("a.example")
    );
}
