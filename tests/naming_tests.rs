use zellij_ipc_pty::naming::{pipe_name, pipe_name_from_components, reverse_pipe_name, sanitize};

#[test]
fn name_uses_the_last_two_components() {
    assert_eq!(
        pipe_name("/tmp/zellij-1000/contract_version_1/session_name"),
        "zellij-contract_version_1-session_name"
    );
    assert_eq!(
        reverse_pipe_name("/tmp/zellij-1000/contract_version_1/session_name"),
        "zellij-contract_version_1-session_name-srv"
    );
}

#[test]
fn client_and_server_derive_the_same_name() {
    let a = pipe_name("/run/user/contract_version_1/dev");
    let b = pipe_name("/run/user/contract_version_1/dev");
    assert_eq!(a, b);
    assert_ne!(a, reverse_pipe_name("/run/user/contract_version_1/dev"));
}

#[test]
fn short_path_is_sanitized_whole() {
    assert_eq!(pipe_name("session"), "zellij-session");
    assert_eq!(reverse_pipe_name("session"), "zellij-session-srv");
}

#[test]
fn sanitize_replaces_separators() {
    assert_eq!(sanitize("C:\\a/b:c"), "C--a-b-c");
    assert_eq!(sanitize(""), "");
    assert_eq!(sanitize("plain"), "plain");
}

#[test]
fn name_from_given_components() {
    let comps = vec!["x".to_string(), "y".to_string(), "z".to_string()];
    assert_eq!(pipe_name_from_components(&comps, "ignored", "-srv"), "zellij-y-z-srv");
    let one = vec!["a:b".to_string()];
    assert_eq!(pipe_name_from_components(&one, "a:b", ""), "zellij-a-b");
}
