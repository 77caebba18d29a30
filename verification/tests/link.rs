use prompt_feedback::link::{admin_path, feedback_url, prompt_path, protocol};

#[test]
fn a_local_host_gets_plain_http() {
    assert_eq!(feedback_url("localhost:3000", "abc"), "http://localhost:3000/feedback/abc");
    assert_eq!(feedback_url("127.0.0.1:8080", "abc"), "http://127.0.0.1:8080/feedback/abc");
    assert_eq!(feedback_url("localhost", "x-1"), "http://localhost/feedback/x-1");
}

#[test]
fn any_other_host_gets_https() {
    assert_eq!(feedback_url("example.com", "abc"), "https://example.com/feedback/abc");
    assert_eq!(feedback_url("192.168.0.1", "abc"), "https://192.168.0.1/feedback/abc");
    assert_eq!(feedback_url("", "abc"), "https:///feedback/abc");
}

#[test]
fn the_host_is_searched_not_compared() {
    assert_eq!(protocol("my-localhost.example.com"), "http");
    assert_eq!(protocol("notlocalhost"), "http");
    assert_eq!(protocol("x127.0.0.1x"), "http");
    assert_eq!(protocol("LOCALHOST"), "https");
    assert_eq!(protocol("127.0.0.2"), "https");
    assert_eq!(protocol("127-0-0-1"), "https");
}

#[test]
fn the_paths_of_the_board() {
    assert_eq!(admin_path(), "/admin");
    assert_eq!(prompt_path("abc"), "/admin/prompt/abc");
    assert_eq!(prompt_path(""), "/admin/prompt/");
}
