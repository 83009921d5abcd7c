use nighterrors::ipc::{interpret_response, socket_path_from, trim_line_end};

#[test]
fn default_path_contains_nighterrors() {
    let path = socket_path_from(None, None, 1000);
    assert!(path.contains("nighterrors"));
    assert_eq!(path, "/run/user/1000/nighterrors/wayland-0.sock");
}

#[test]
fn socket_path_from_environment() {
    assert_eq!(socket_path_from(Some("/xdg/"), Some("wayland-1"), 5), "/xdg/nighterrors/wayland-1.sock");
    assert_eq!(socket_path_from(Some("/xdg"), Some("/abs/display"), 5), "/abs/display.sock");
}

#[test]
fn replies_are_read_by_their_first_word() {
    assert_eq!(interpret_response("ok pong\r\n"), Ok("ok pong".to_string()));
    assert_eq!(interpret_response("error: nope\n"), Err("error: nope".to_string()));
    assert_eq!(
        interpret_response("\n\r\n"),
        Err("error: daemon returned an empty response".to_string())
    );
}

#[test]
fn request_lines_lose_their_line_end() {
    assert_eq!(trim_line_end("get state\r\n"), "get state");
    assert_eq!(trim_line_end("a\nb\n"), "a\nb");
}

#[test]
fn empty_environment_values_fall_back_to_defaults() {
    assert_eq!(socket_path_from(Some(""), Some(""), 42), "/run/user/42/nighterrors/wayland-0.sock");
    assert_eq!(socket_path_from(Some(""), Some("wayland-3"), 7), "/run/user/7/nighterrors/wayland-3.sock");
}
