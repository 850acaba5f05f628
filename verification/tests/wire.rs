use agent_browser::json::{decode_json, Json};
use agent_browser::protocol::{decode_response, encode_request, gen_id, parse_command};
use agent_browser::translate::translate;

fn args(toks: &[&str]) -> Vec<String> {
    toks.iter().map(|s| s.to_string()).collect()
}

fn encode_json(j: &Json) -> String {
    let cs = j.encode();
    cs.iter().collect()
}

/// Encoding, decoding and re-encoding must reproduce the frame exactly.
fn assert_round_trips(toks: &[&str], full: bool) {
    let req = translate(&args(toks), full, "r42".to_string())
        .unwrap_or_else(|| panic!("no mapping for {:?}", toks));
    let frame = encode_request(&req);
    assert!(frame.ends_with('\n'));
    let line = &frame[..frame.len() - 1];
    let decoded = decode_json(line).unwrap_or_else(|| panic!("frame does not decode: {}", line));
    assert_eq!(encode_json(&decoded), line);
}

#[test]
fn every_action_shape_round_trips() {
    let cases: &[&[&str]] = &[
        &["open", "example.com"],
        &["back"],
        &["forward"],
        &["reload"],
        &["click", "@e2"],
        &["dblclick", ".btn"],
        &["fill", "@e3", "hello", "world"],
        &["type", "#in", "some text"],
        &["hover", "#h"],
        &["focus", "#f"],
        &["check", "#c"],
        &["uncheck", "#c"],
        &["select", "#s", "opt"],
        &["drag", "#a", "#b"],
        &["upload", "#file", "a.txt", "b.txt"],
        &["press", "Enter"],
        &["keydown", "Shift"],
        &["keyup", "Shift"],
        &["scroll", "down", "250"],
        &["scrollintoview", "#x"],
        &["wait", "500"],
        &["wait", "#spinner"],
        &["screenshot", "shot.png"],
        &["pdf", "page.pdf"],
        &["snapshot", "-i", "-d", "2"],
        &["eval", "1", "+", "2"],
        &["close"],
        &["get", "text", "#t"],
        &["get", "attr", "#t", "href"],
        &["get", "url"],
        &["is", "visible", "#v"],
        &["find", "role", "button", "click", "--name", "Submit", "--exact"],
        &["find", "nth", "2", ".row", "click"],
        &["mouse", "move", "10", "20"],
        &["mouse", "wheel", "120"],
        &["set", "viewport", "1280", "720"],
        &["set", "geo", "52.5", "-13.4"],
        &["set", "media", "dark"],
        &["network", "route", "https://x/*", "--abort"],
        &["network", "requests", "--clear"],
        &["storage", "local", "set", "k", "v"],
        &["cookies", "set", "k", "v"],
        &["tab", "new", "https://x.test"],
        &["window", "new"],
        &["frame", "main"],
        &["dialog", "accept", "ok"],
        &["trace", "start", "t.zip"],
        &["console", "--clear"],
        &["errors"],
        &["highlight", "#h"],
        &["state", "save", "s.json"],
    ];
    for c in cases {
        assert_round_trips(c, false);
    }
    assert_round_trips(&["screenshot"], true);
}

#[test]
fn frame_is_exact_for_navigation() {
    let req = translate(&args(&["open", "example.com"]), false, "r1".to_string()).unwrap();
    let frame = encode_request(&req);
    assert_eq!(
        frame,
        "{\"id\":\"r1\",\"action\":\"navigate\",\"url\":\"https://example.com\"}\n"
    );
}

#[test]
fn frame_escapes_strings() {
    let req = translate(&args(&["fill", "#a", "say", "\"hi\"\\now"]), false, "r1".to_string())
        .unwrap();
    let frame = encode_request(&req);
    assert_eq!(
        frame,
        "{\"id\":\"r1\",\"action\":\"fill\",\"selector\":\"#a\",\"value\":\"say \\\"hi\\\"\\\\now\"}\n"
    );
    let line = &frame[..frame.len() - 1];
    let decoded = decode_json(line).unwrap();
    assert_eq!(encode_json(&decoded), line);
}

#[test]
fn decode_response_success_with_data() {
    let r = decode_response("{\"success\":true,\"data\":{\"url\":\"https://x\",\"title\":\"X\"}}")
        .unwrap();
    assert!(r.success);
    assert!(r.error.is_none());
    let d = r.data.unwrap();
    match &d {
        Json::Obj(m) => assert_eq!(m.len(), 2),
        _ => panic!("data is not an object"),
    }
}

#[test]
fn decode_response_failure() {
    let r = decode_response("{\"success\":false,\"error\":\"boom\"}").unwrap();
    assert!(!r.success);
    assert!(r.data.is_none());
    assert_eq!(r.error.as_deref(), Some("boom"));
}

#[test]
fn decode_response_null_fields_mean_absent() {
    let r = decode_response("{\"success\":true,\"data\":null,\"error\":null}").unwrap();
    assert!(r.success);
    assert!(r.data.is_none());
    assert!(r.error.is_none());
}

#[test]
fn decode_response_rejects_bad_shapes() {
    assert!(decode_response("").is_none());
    assert!(decode_response("not json").is_none());
    assert!(decode_response("[1,2]").is_none());
    assert!(decode_response("{\"success\":\"yes\"}").is_none());
    assert!(decode_response("{\"data\":{}}").is_none());
    assert!(decode_response("{\"success\":true,\"error\":7}").is_none());
    assert!(decode_response("{\"success\":true} trailing").is_none());
}

#[test]
fn decode_tolerates_whitespace_and_escapes() {
    let r = decode_response(" {\"success\": true, \"data\": {\"text\": \"a\\u0041\\n\"}} ")
        .unwrap();
    let d = r.data.unwrap();
    match &d {
        Json::Obj(m) => match &m[0].1 {
            Json::Str(s) => assert_eq!(s, "aA\n"),
            _ => panic!("text is not a string"),
        },
        _ => panic!("data is not an object"),
    }
}

#[test]
fn gen_id_has_generated_shape() {
    let id = gen_id();
    assert!(id.starts_with('r'));
    assert!(id.len() >= 2 && id.len() <= 7);
    assert!(id[1..].chars().all(|c| c.is_ascii_digit()));
}

#[test]
fn parse_command_carries_generated_id() {
    let flags = agent_browser::flags::Flags {
        json: false,
        full: false,
        headed: false,
        debug: false,
        session: "default".to_string(),
    };
    let r = parse_command(&args(&["back"]), &flags).unwrap();
    assert_eq!(r.action, "back");
    assert!(r.id.starts_with('r'));
    assert!(parse_command(&args(&["frobnicate"]), &flags).is_none());
}

#[test]
fn numbers_survive_the_wire() {
    let req = translate(&args(&["set", "viewport", "1280", "720"]), false, "r9".to_string())
        .unwrap();
    let frame = encode_request(&req);
    assert_eq!(
        frame,
        "{\"id\":\"r9\",\"action\":\"viewport\",\"width\":1280,\"height\":720}\n"
    );
}

#[test]
fn deeply_nested_values_decode() {
    let line = "{\"success\":true,\"data\":{\"result\":[[[{\"a\":[true,[null,{\"b\":\"c\"}]]}]]]}}";
    let r = decode_response(line).unwrap();
    assert!(r.success);
    assert!(r.data.is_some());
}
