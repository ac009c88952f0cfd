use neutrino_http::backfill::{
    held_in_room, parse_backfill_query, percent_decode, read_backfill_request, scope_to_members,
    valid_seeds,
};
use neutrino_http::event::Event;
use neutrino_http::json::Json;
use neutrino_http::response::FedError;

#[test]
fn parse_none_query_is_empty() {
    assert_eq!(parse_backfill_query(None), (Vec::new(), None));
}

#[test]
fn parse_empty_query_is_empty() {
    assert_eq!(parse_backfill_query(Some("")), (Vec::new(), None));
}

#[test]
fn parse_single_v_no_limit() {
    // `$` arrives percent-encoded as %24 on the wire.
    let (vs, limit) = parse_backfill_query(Some("v=%24abc"));
    assert_eq!(vs, vec!["$abc".to_owned()]);
    assert_eq!(limit, None);
}

#[test]
fn parse_multiple_v_preserves_order() {
    let (vs, _) = parse_backfill_query(Some("v=%24a&v=%24b&v=%24c"));
    assert_eq!(vs, vec!["$a".to_owned(), "$b".to_owned(), "$c".to_owned()]);
}

#[test]
fn parse_limit_extracted() {
    let (_, limit) = parse_backfill_query(Some("v=%24a&limit=50"));
    assert_eq!(limit, Some(50));
}

#[test]
fn parse_unparseable_limit_is_none() {
    let (_, limit) = parse_backfill_query(Some("v=%24a&limit=not-a-number"));
    assert_eq!(limit, None);
}

#[test]
fn parse_ignores_unknown_keys() {
    let (vs, limit) = parse_backfill_query(Some("foo=bar&v=%24a&baz=qux"));
    assert_eq!(vs, vec!["$a".to_owned()]);
    assert_eq!(limit, None);
}

#[test]
fn parse_blank_v_value_is_dropped() {
    // A present-but-blank `?v=` yields no seeds; it must not become an
    // empty-string seed.
    let (vs, limit) = parse_backfill_query(Some("v=&limit=10"));
    assert!(vs.is_empty(), "blank v must be dropped: {vs:?}");
    assert_eq!(limit, Some(10));
    // A bare `?v` with no `=` is likewise empty and dropped.
    let (vs, _) = parse_backfill_query(Some("v&limit=10"));
    assert!(vs.is_empty(), "bare v must be dropped: {vs:?}");
    // A blank `v` alongside a real one keeps only the real seed.
    let (vs, _) = parse_backfill_query(Some("v=&v=%24a"));
    assert_eq!(vs, vec!["$a".to_owned()]);
}

#[test]
fn parse_explicit_limit_zero_is_some_zero() {
    // The parser surfaces `limit=0` as `Some(0)` so the handler can
    // distinguish it from a missing limit.
    let (_, limit) = parse_backfill_query(Some("v=%24a&limit=0"));
    assert_eq!(limit, Some(0));
}

#[test]
fn percent_decode_handles_sigil_and_plus() {
    // %24 is '$', '+' is ' ' (form-encoding), unreserved chars untouched.
    assert_eq!(percent_decode("%24abc-_").as_deref(), Some("$abc-_"));
    assert_eq!(percent_decode("a+b").as_deref(), Some("a b"));
}

#[test]
fn percent_decode_rejects_malformed_escape() {
    assert_eq!(percent_decode("%2g"), None);
}

#[test]
fn percent_decode_rejects_incomplete_escape() {
    // A `%` with fewer than two trailing characters is malformed and
    // rejected (not passed through as a literal `%`).
    assert_eq!(percent_decode("ab%"), None);
    assert_eq!(percent_decode("a%2"), None);
}

#[test]
fn percent_decode_reads_utf8() {
    assert_eq!(percent_decode("%C3%a9").as_deref(), Some("\u{e9}"));
    assert_eq!(percent_decode("\u{e9}").as_deref(), Some("\u{e9}"));
    // A lone continuation byte is no text.
    assert_eq!(percent_decode("%80"), None);
    // Plain text is unchanged.
    assert_eq!(percent_decode("abc-._~").as_deref(), Some("abc-._~"));
}

const HEADER: &str = r#"X-Matrix origin="peer.example",destination="us.example""#;

#[test]
fn request_is_read_and_clamped() {
    let read = |query| read_backfill_request("!r:x", Some(query), Some(HEADER), "us.example");
    let request = read("v=%24a&limit=7").unwrap();
    assert_eq!(request.caller, "peer.example");
    assert_eq!(request.seeds, vec!["$a".to_owned()]);
    assert_eq!(request.limit, 7);
    assert_eq!(read("v=%24a").unwrap().limit, 10);
    assert_eq!(read("v=%24a&limit=100000").unwrap().limit, 100);
}

#[test]
fn bad_requests_are_refused() {
    let read = |room, query| read_backfill_request(room, query, Some(HEADER), "us.example");
    assert!(matches!(read("nope", Some("v=%24a")), Err(FedError::BadRequest(_))));
    assert!(matches!(read("!r:x", None), Err(FedError::BadRequest(_))));
    assert!(matches!(read("!r:x", Some("v=")), Err(FedError::BadRequest(_))));
    assert!(matches!(read("!r:x", Some("v=%24a&limit=0")), Err(FedError::BadRequest(_))));
    assert!(matches!(
        read_backfill_request("!r:x", Some("v=%24a"), None, "us.example"),
        Err(FedError::Unauthorized(_))
    ));
}

#[test]
fn rooms_are_shown_to_their_servers_only() {
    assert_eq!(scope_to_members(Ok(true), Ok(true)), Ok(()));
    assert_eq!(scope_to_members(Ok(false), Ok(true)), Err(FedError::RoomNotFound));
    assert!(matches!(scope_to_members(Ok(true), Ok(false)), Err(FedError::Forbidden(_))));
    assert_eq!(
        scope_to_members(Err("io".to_owned()), Ok(true)),
        Err(FedError::Storage("io".to_owned()))
    );
    assert_eq!(
        scope_to_members(Ok(true), Err("io".to_owned())),
        Err(FedError::Storage("io".to_owned()))
    );
}

fn event(id: &str, room: &str) -> Event {
    Event {
        event_id: id.to_owned(),
        room_id: room.to_owned(),
        sender: "@a:x".to_owned(),
        event_type: "m.room.message".to_owned(),
        state_key: None,
        content: Json::empty_object(),
        prev_events: vec![],
        prev_state_events: vec![],
        rejected: false,
        soft_failed: false,
        raw: "{}".to_owned(),
    }
}

#[test]
fn seeds_that_are_no_ids_or_of_another_room_are_dropped() {
    let seeds = vec!["$a".to_owned(), "nope".to_owned(), "$b".to_owned()];
    assert_eq!(valid_seeds(&seeds), vec!["$a".to_owned(), "$b".to_owned()]);
    let events = vec![event("$a", "!r:x"), event("$b", "!other:x")];
    assert_eq!(held_in_room(&events, "!r:x"), vec!["$a".to_owned()]);
}
