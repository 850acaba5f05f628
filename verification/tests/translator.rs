use agent_browser::json::Json;
use agent_browser::numtext::{parse_i32, parse_u64};
use agent_browser::translate::{translate, Request};

fn args(toks: &[&str]) -> Vec<String> {
    toks.iter().map(|s| s.to_string()).collect()
}

fn tr(toks: &[&str]) -> Option<Request> {
    translate(&args(toks), false, "r1".to_string())
}

fn param<'a>(r: &'a Request, key: &str) -> &'a Json {
    &r.params
        .iter()
        .find(|p| p.0 == key)
        .unwrap_or_else(|| panic!("missing parameter {}", key))
        .1
}

fn str_param(r: &Request, key: &str) -> String {
    match param(r, key) {
        Json::Str(s) => s.clone(),
        other => panic!("parameter {} is not a string: {}", key, kind_of(other)),
    }
}

fn kind_of(j: &Json) -> &'static str {
    match j {
        Json::Null => "null",
        Json::Bool(_) => "bool",
        Json::Num(_) => "num",
        Json::Str(_) => "str",
        Json::Arr(_) => "arr",
        Json::Obj(_) => "obj",
    }
}

#[test]
fn open_adds_scheme() {
    let r = tr(&["open", "example.com"]).unwrap();
    assert_eq!(r.action, "navigate");
    assert_eq!(str_param(&r, "url"), "https://example.com");
}

#[test]
fn open_keeps_scheme() {
    let r = tr(&["open", "https://x.test"]).unwrap();
    assert_eq!(str_param(&r, "url"), "https://x.test");
}

#[test]
fn fill_joins_tokens() {
    let r = tr(&["fill", "@e3", "hello", "world"]).unwrap();
    assert_eq!(r.action, "fill");
    assert_eq!(str_param(&r, "selector"), "@e3");
    assert_eq!(str_param(&r, "value"), "hello world");
}

#[test]
fn type_joins_tokens() {
    let r = tr(&["type", "#in", "a", "b", "c"]).unwrap();
    assert_eq!(str_param(&r, "text"), "a b c");
}

#[test]
fn wait_number_is_timeout() {
    let r = tr(&["wait", "500"]).unwrap();
    assert_eq!(r.action, "wait");
    match param(&r, "timeout") {
        Json::Num(l) => assert_eq!(l, "500"),
        _ => panic!("timeout is not a number"),
    }
}

#[test]
fn wait_selector_stays_selector() {
    let r = tr(&["wait", "#spinner"]).unwrap();
    assert_eq!(str_param(&r, "selector"), "#spinner");
    assert!(r.params.iter().all(|p| p.0 != "timeout"));
}

#[test]
fn wait_nonnumeric_is_selector() {
    // the documented misclassification boundary: not a full number, so a selector
    let r = tr(&["wait", "12px"]).unwrap();
    assert_eq!(str_param(&r, "selector"), "12px");
}

#[test]
fn find_role_flags_anywhere() {
    let r = tr(&["find", "role", "button", "click", "--name", "Submit", "--exact"]).unwrap();
    assert_eq!(r.action, "getbyrole");
    assert_eq!(str_param(&r, "role"), "button");
    assert_eq!(str_param(&r, "subaction"), "click");
    assert_eq!(str_param(&r, "name"), "Submit");
    assert!(matches!(param(&r, "exact"), Json::Bool(true)));
}

#[test]
fn find_nth_shifts_positions() {
    let r = tr(&["find", "nth", "2", ".row", "fill", "abc", "def"]).unwrap();
    assert_eq!(r.action, "nth");
    assert_eq!(str_param(&r, "selector"), ".row");
    match param(&r, "index") {
        Json::Num(l) => assert_eq!(l, "2"),
        _ => panic!("index is not a number"),
    }
    assert_eq!(str_param(&r, "subaction"), "fill");
    assert_eq!(str_param(&r, "value"), "abc def");
}

#[test]
fn unknown_verb_is_no_mapping() {
    assert!(tr(&["frobnicate"]).is_none());
}

#[test]
fn unknown_subverb_is_no_mapping() {
    assert!(tr(&["get", "nonsense"]).is_none());
    assert!(tr(&["mouse", "teleport"]).is_none());
}

#[test]
fn missing_argument_is_no_mapping() {
    assert!(tr(&["click"]).is_none());
    assert!(tr(&["open"]).is_none());
    assert!(tr(&["select", "#x"]).is_none());
}

#[test]
fn scroll_defaults() {
    let r = tr(&["scroll"]).unwrap();
    assert_eq!(str_param(&r, "direction"), "down");
    match param(&r, "amount") {
        Json::Num(l) => assert_eq!(l, "300"),
        _ => panic!("amount is not a number"),
    }
}

#[test]
fn scroll_with_amount() {
    let r = tr(&["scroll", "up", "0150"]).unwrap();
    assert_eq!(str_param(&r, "direction"), "up");
    match param(&r, "amount") {
        // numeric tokens are canonicalised
        Json::Num(l) => assert_eq!(l, "150"),
        _ => panic!("amount is not a number"),
    }
}

#[test]
fn screenshot_uses_full_flag() {
    let r = translate(&args(&["screenshot"]), true, "r1".to_string()).unwrap();
    assert!(matches!(param(&r, "fullPage"), Json::Bool(true)));
    assert!(matches!(param(&r, "path"), Json::Null));
}

#[test]
fn upload_collects_files() {
    let r = tr(&["upload", "#file", "a.txt", "b.txt"]).unwrap();
    match param(&r, "files") {
        Json::Arr(fs) => {
            assert_eq!(fs.len(), 2);
            assert!(matches!(&fs[0], Json::Str(s) if s == "a.txt"));
            assert!(matches!(&fs[1], Json::Str(s) if s == "b.txt"));
        }
        _ => panic!("files is not an array"),
    }
}

#[test]
fn snapshot_scans_options_in_any_order() {
    let r = tr(&["snapshot", "-c", "-d", "3", "-i", "-s", "#main"]).unwrap();
    assert_eq!(r.action, "snapshot");
    assert!(matches!(param(&r, "compact"), Json::Bool(true)));
    assert!(matches!(param(&r, "interactive"), Json::Bool(true)));
    match param(&r, "maxDepth") {
        Json::Num(l) => assert_eq!(l, "3"),
        _ => panic!("maxDepth is not a number"),
    }
    assert_eq!(str_param(&r, "selector"), "#main");
}

#[test]
fn snapshot_depth_needs_a_number() {
    // an unparsable depth value is not consumed and the option is dropped
    let r = tr(&["snapshot", "-d", "deep"]).unwrap();
    assert!(r.params.iter().all(|p| p.0 != "maxDepth"));
}

#[test]
fn set_geo_keeps_decimal_text() {
    let r = tr(&["set", "geo", "52.5", "-13.4"]).unwrap();
    assert_eq!(r.action, "geolocation");
    match param(&r, "latitude") {
        Json::Num(l) => assert_eq!(l, "52.5"),
        _ => panic!("latitude is not a number"),
    }
    match param(&r, "longitude") {
        Json::Num(l) => assert_eq!(l, "-13.4"),
        _ => panic!("longitude is not a number"),
    }
}

#[test]
fn set_geo_rejects_nonnumbers() {
    assert!(tr(&["set", "geo", "north", "west"]).is_none());
}

#[test]
fn set_media_prefers_dark() {
    let r = tr(&["set", "media", "reduced-motion", "dark"]).unwrap();
    assert_eq!(str_param(&r, "colorScheme"), "dark");
    assert!(matches!(param(&r, "reducedMotion"), Json::Bool(true)));
}

#[test]
fn cookies_default_is_get() {
    let r = tr(&["cookies"]).unwrap();
    assert_eq!(str_param(&r, "operation"), "get");
}

#[test]
fn cookies_set_needs_name_and_value() {
    assert!(tr(&["cookies", "set", "k"]).is_none());
    let r = tr(&["cookies", "set", "k", "v"]).unwrap();
    assert_eq!(str_param(&r, "name"), "k");
    assert_eq!(str_param(&r, "value"), "v");
}

#[test]
fn tab_switch_by_number() {
    let r = tr(&["tab", "2"]).unwrap();
    assert_eq!(r.action, "tab_switch");
    let r2 = tr(&["tab"]).unwrap();
    assert_eq!(r2.action, "tab_list");
    let r3 = tr(&["tab", "wat"]).unwrap();
    assert_eq!(r3.action, "tab_list");
}

#[test]
fn mouse_wheel_defaults() {
    let r = tr(&["mouse", "wheel"]).unwrap();
    match param(&r, "deltaY") {
        Json::Num(l) => assert_eq!(l, "100"),
        _ => panic!("deltaY is not a number"),
    }
    match param(&r, "deltaX") {
        Json::Num(l) => assert_eq!(l, "0"),
        _ => panic!("deltaX is not a number"),
    }
}

#[test]
fn mouse_move_needs_numbers() {
    assert!(tr(&["mouse", "move", "ten", "20"]).is_none());
    let r = tr(&["mouse", "move", "-5", "+20"]).unwrap();
    match param(&r, "x") {
        Json::Num(l) => assert_eq!(l, "-5"),
        _ => panic!("x is not a number"),
    }
    match param(&r, "y") {
        Json::Num(l) => assert_eq!(l, "20"),
        _ => panic!("y is not a number"),
    }
}

#[test]
fn frame_main_and_selector() {
    assert_eq!(tr(&["frame", "main"]).unwrap().action, "frame_main");
    let r = tr(&["frame", "#f"]).unwrap();
    assert_eq!(r.action, "frame");
    assert_eq!(str_param(&r, "selector"), "#f");
    assert!(tr(&["frame"]).is_none());
}

#[test]
fn wait_accepts_a_leading_plus() {
    let r = tr(&["wait", "+500"]).unwrap();
    match param(&r, "timeout") {
        Json::Num(l) => assert_eq!(l, "500"),
        _ => panic!("timeout is not a number"),
    }
}

#[test]
fn wait_overflowing_number_is_a_selector() {
    let r = tr(&["wait", "99999999999999999999999"]).unwrap();
    assert_eq!(str_param(&r, "selector"), "99999999999999999999999");
}

#[test]
fn numeric_bounds_follow_i32() {
    assert_eq!(parse_i32("2147483647"), Some(2147483647));
    assert_eq!(parse_i32("2147483648"), None);
    assert_eq!(parse_i32("-2147483648"), Some(-2147483648));
    assert_eq!(parse_i32("-2147483649"), None);
    assert_eq!(parse_i32(""), None);
    assert_eq!(parse_i32("+7"), Some(7));
    assert_eq!(parse_i32("1 2"), None);
    assert_eq!(parse_u64("18446744073709551615"), Some(u64::MAX));
    assert_eq!(parse_u64("18446744073709551616"), None);
    assert_eq!(parse_u64("-1"), None);
    assert_eq!(parse_u64("+0"), Some(0));
}

#[test]
fn eval_joins_everything() {
    let r = tr(&["eval", "1", "+", "2"]).unwrap();
    assert_eq!(r.action, "evaluate");
    assert_eq!(str_param(&r, "script"), "1 + 2");
}

#[test]
fn find_without_subaction_defaults_to_click() {
    let r = tr(&["find", "text", "Sign in"]).unwrap();
    assert_eq!(r.action, "getbytext");
    assert_eq!(str_param(&r, "subaction"), "click");
}
