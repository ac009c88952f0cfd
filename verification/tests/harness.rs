use neutrino_http::auth::x_matrix;
use neutrino_http::harness::{
    converged, current_name, is_forwarded, membership, pair, proxy_refusal, state_map,
    x_matrix_origin, CutSet,
};
use neutrino_http::json::Json;

fn event(ty: &str, key: &str, id: &str, content: Json) -> Json {
    Json::single("type", Json::string(ty))
        .and("state_key", Json::string(key))
        .and("event_id", Json::string(id))
        .and("content", content)
}

#[test]
fn pair_is_unordered() {
    let ends = ("a.example".to_owned(), "b.example".to_owned());
    assert_eq!(pair("a.example", "b.example"), ends);
    assert_eq!(pair("b.example", "a.example"), ends);
    assert_eq!(pair("x", "x"), ("x".to_owned(), "x".to_owned()));
    assert_eq!(pair("127.0.0.1:9", "127.0.0.1:10").0, "127.0.0.1:10");
}

#[test]
fn cut_and_heal() {
    let mut cuts = CutSet::new();
    assert!(!cuts.is_cut("a", "b"));
    cuts.cut("a", "b");
    cuts.cut("b", "c");
    assert!(cuts.is_cut("b", "a"));
    assert!(!cuts.is_cut("a", "c"));
    cuts.heal("b", "a");
    assert!(!cuts.is_cut("a", "b"));
    assert!(cuts.is_cut("c", "b"));
}

#[test]
fn proxy_refuses_only_what_comes_over_a_cut_link() {
    let mut cuts = CutSet::new();
    cuts.cut("h:1", "r:1");
    let from_r = x_matrix("r:1", "h:1");
    let from_l = x_matrix("l:1", "h:1");
    assert_eq!(proxy_refusal(&cuts, "h:1", Some(&from_r)), Some((503, "partitioned")));
    assert_eq!(proxy_refusal(&cuts, "h:1", Some(&from_l)), None);
    assert_eq!(proxy_refusal(&cuts, "h:1", Some("Bearer token")), None);
    assert_eq!(proxy_refusal(&cuts, "h:1", None), None);
}

#[test]
fn origin_is_what_stands_in_quotes() {
    assert_eq!(x_matrix_origin(Some(&x_matrix("a:1", "b"))).as_deref(), Some("a:1"));
    assert_eq!(x_matrix_origin(Some("origin=\"a\"")).as_deref(), Some("a"));
    assert_eq!(x_matrix_origin(Some("origin=\"\"")).as_deref(), Some(""));
    assert_eq!(x_matrix_origin(Some("origin=\"a")), None);
    assert_eq!(x_matrix_origin(Some("X-Matrix origin=a")), None);
    assert_eq!(x_matrix_origin(None), None);
}

#[test]
fn host_and_length_are_not_forwarded() {
    assert!(!is_forwarded("host"));
    assert!(!is_forwarded("content-length"));
    assert!(is_forwarded("authorization"));
}

#[test]
fn state_is_sorted_and_agreement_is_seen() {
    let name = event("m.room.name", "", "$n", Json::single("name", Json::string("init")));
    let alice = event("m.room.member", "@a:x", "$a", Json::single("membership", Json::string("join")));
    let bob = event("m.room.member", "@b:x", "$b", Json::single("membership", Json::string("leave")));
    let one = Json::array(vec![name.copy(), bob.copy(), alice.copy()]);
    let two = Json::array(vec![alice, name, bob]);
    let map = state_map(Some(&one)).unwrap();
    let ids: Vec<&str> = map.iter().map(|p| p.2.as_str()).collect();
    assert_eq!(ids, vec!["$a", "$b", "$n"]);
    assert!(converged(&vec![Some(map), state_map(Some(&two))]));
    assert!(!converged(&vec![state_map(Some(&one)), state_map(None)]));
    let empty = Json::array(vec![]);
    assert!(!converged(&vec![state_map(Some(&one)), state_map(Some(&empty))]));
    assert!(converged(&vec![]));
    assert_eq!(state_map(Some(&Json::empty_object())), None);
}

#[test]
fn the_last_event_speaks() {
    let state = Json::array(vec![
        event("m.room.name", "", "$1", Json::single("name", Json::string("first"))),
        event("m.room.member", "@a:x", "$2", Json::single("membership", Json::string("join"))),
        event("m.room.name", "", "$3", Json::single("name", Json::string("second"))),
        event("m.room.member", "@a:x", "$4", Json::single("membership", Json::string("ban"))),
    ]);
    assert_eq!(current_name(Some(&state)).as_deref(), Some("second"));
    assert_eq!(membership(Some(&state), "@a:x"), "ban");
    assert_eq!(membership(Some(&state), "@b:x"), "leave");
    assert_eq!(membership(None, "@a:x"), "unreadable");
    assert_eq!(membership(Some(&Json::Null), "@a:x"), "leave");
    assert_eq!(current_name(None), None);
    // The last event decides even where it says nothing.
    let silent = Json::array(vec![
        event("m.room.name", "", "$1", Json::single("name", Json::string("first"))),
        event("m.room.name", "", "$2", Json::empty_object()),
    ]);
    assert_eq!(current_name(Some(&silent)), None);
}
