use agent_browser::flags::{clean_args, parse_flags};
use agent_browser::protocol::decode_response;
use agent_browser::render::render_response;

fn args(toks: &[&str]) -> Vec<String> {
    toks.iter().map(|s| s.to_string()).collect()
}

#[test]
fn failure_goes_to_error_stream_only() {
    let resp = decode_response("{\"success\":false,\"error\":\"boom\"}").unwrap();
    let out = render_response(&resp, false);
    assert_eq!(out.out, "");
    assert!(out.err.contains("boom"));
    assert_eq!(out.err, "Error: boom\n");
}

#[test]
fn failure_without_message_uses_fallback() {
    let resp = decode_response("{\"success\":false}").unwrap();
    let out = render_response(&resp, false);
    assert_eq!(out.out, "");
    assert_eq!(out.err, "Error: Unknown error\n");
}

#[test]
fn json_mode_prints_the_record_unchanged() {
    let resp = decode_response("{\"success\":false,\"error\":\"boom\"}").unwrap();
    let out = render_response(&resp, true);
    assert_eq!(out.out, "{\"success\":false,\"error\":\"boom\"}\n");
    assert_eq!(out.err, "");
}

#[test]
fn title_prints_before_url_and_other_fields_are_ignored() {
    let resp = decode_response(
        "{\"success\":true,\"data\":{\"count\":3,\"url\":\"https://x\",\"title\":\"X\"}}",
    )
    .unwrap();
    let out = render_response(&resp, false);
    assert_eq!(out.out, "X\n  https://x\n");
    assert_eq!(out.err, "");
}

#[test]
fn bare_url_prints_alone() {
    let resp = decode_response("{\"success\":true,\"data\":{\"url\":\"https://x\"}}").unwrap();
    let out = render_response(&resp, false);
    assert_eq!(out.out, "https://x\n");
}

#[test]
fn count_prints_bare() {
    let resp = decode_response("{\"success\":true,\"data\":{\"count\":7}}").unwrap();
    let out = render_response(&resp, false);
    assert_eq!(out.out, "7\n");
}

#[test]
fn boolean_flags_in_priority_order() {
    let resp =
        decode_response("{\"success\":true,\"data\":{\"checked\":true,\"visible\":false}}")
            .unwrap();
    let out = render_response(&resp, false);
    assert_eq!(out.out, "false\n");
}

#[test]
fn tabs_render_one_line_each_with_active_marker() {
    let resp = decode_response(
        "{\"success\":true,\"data\":{\"tabs\":[{\"title\":\"A\",\"url\":\"u1\",\"active\":false},{\"title\":\"B\",\"url\":\"u2\",\"active\":true}]}}",
    )
    .unwrap();
    let out = render_response(&resp, false);
    assert_eq!(out.out, "   [0] A - u1\n-> [1] B - u2\n");
}

#[test]
fn logs_render_with_level_prefix() {
    let resp = decode_response(
        "{\"success\":true,\"data\":{\"logs\":[{\"type\":\"error\",\"text\":\"bad\"},{\"text\":\"plain\"}]}}",
    )
    .unwrap();
    let out = render_response(&resp, false);
    assert_eq!(out.out, "[error] bad\n[log] plain\n");
}

#[test]
fn cookies_render_name_value_lines() {
    let resp = decode_response(
        "{\"success\":true,\"data\":{\"cookies\":[{\"name\":\"a\",\"value\":\"1\"},{\"name\":\"b\",\"value\":\"2\"}]}}",
    )
    .unwrap();
    let out = render_response(&resp, false);
    assert_eq!(out.out, "a=1\nb=2\n");
}

#[test]
fn generic_success_prints_done() {
    let resp = decode_response("{\"success\":true,\"data\":{\"somethingelse\":1}}").unwrap();
    let out = render_response(&resp, false);
    assert_eq!(out.out, "Done\n");
}

#[test]
fn success_without_payload_prints_nothing() {
    let resp = decode_response("{\"success\":true}").unwrap();
    let out = render_response(&resp, false);
    assert_eq!(out.out, "");
    assert_eq!(out.err, "");
}

#[test]
fn saved_path_line() {
    let resp =
        decode_response("{\"success\":true,\"data\":{\"path\":\"shot.png\"}}").unwrap();
    let out = render_response(&resp, false);
    assert_eq!(out.out, "Screenshot saved to shot.png\n");
}

#[test]
fn result_field_reencodes() {
    let resp =
        decode_response("{\"success\":true,\"data\":{\"result\":[1,\"two\",null]}}").unwrap();
    let out = render_response(&resp, false);
    assert_eq!(out.out, "[1,\"two\",null]\n");
}

#[test]
fn parse_flags_reads_all_flags() {
    let f = parse_flags(
        &args(&["open", "x", "--json", "--headed", "--session", "s1", "-f"]),
        "default".to_string(),
    );
    assert!(f.json);
    assert!(f.full);
    assert!(f.headed);
    assert!(!f.debug);
    assert_eq!(f.session, "s1");
}

#[test]
fn parse_flags_uses_default_session() {
    let f = parse_flags(&args(&["open", "x"]), "envsession".to_string());
    assert_eq!(f.session, "envsession");
}

#[test]
fn clean_args_strips_flags_but_keeps_short_options() {
    let cleaned = clean_args(&args(&[
        "--session", "s1", "snapshot", "-i", "--json", "-f", "-d", "3",
    ]));
    assert_eq!(cleaned, args(&["snapshot", "-i", "-d", "3"]));
}

#[test]
fn clean_args_drops_session_value_only_once() {
    let cleaned = clean_args(&args(&["--session", "--json", "open", "x"]));
    assert_eq!(cleaned, args(&["open", "x"]));
}

#[test]
fn snapshot_text_prints_verbatim() {
    let resp =
        decode_response("{\"success\":true,\"data\":{\"snapshot\":\"- button \\\"Go\\\"\"}}")
            .unwrap();
    let out = render_response(&resp, false);
    assert_eq!(out.out, "- button \"Go\"\n");
}

#[test]
fn html_and_value_probes() {
    let resp =
        decode_response("{\"success\":true,\"data\":{\"html\":\"<b>x</b>\"}}").unwrap();
    assert_eq!(render_response(&resp, false).out, "<b>x</b>\n");
    let resp2 = decode_response("{\"success\":true,\"data\":{\"value\":\"typed\"}}").unwrap();
    assert_eq!(render_response(&resp2, false).out, "typed\n");
}

#[test]
fn closed_marker_and_box() {
    let resp = decode_response("{\"success\":true,\"data\":{\"closed\":true}}").unwrap();
    assert_eq!(render_response(&resp, false).out, "Browser closed\n");
    let resp2 =
        decode_response("{\"success\":true,\"data\":{\"box\":{\"x\":1,\"y\":2}}}").unwrap();
    assert_eq!(render_response(&resp2, false).out, "{\"x\":1,\"y\":2}\n");
}

#[test]
fn page_errors_render_lines() {
    let resp = decode_response(
        "{\"success\":true,\"data\":{\"errors\":[{\"message\":\"oops\"},{\"message\":\"again\"}]}}",
    )
    .unwrap();
    assert_eq!(render_response(&resp, false).out, "x oops\nx again\n");
}
