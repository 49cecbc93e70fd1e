use hytch::session::{
    ancestry_contains, extend_ancestry, resolve_session_dir, resolve_socket_path, short_name,
    shorten_for_unix_socket, usable_home, SESSION_ENVVAR,
};

#[test]
fn session_dir_uses_home_when_set() {
    let dir = resolve_session_dir(Some("/home/alice"), None, "hytch", 1000);
    assert_eq!(dir, "/home/alice/.cache/hytch");
}

#[test]
fn session_dir_falls_back_to_passwd_home_when_env_unset() {
    let dir = resolve_session_dir(None, Some("/home/bob"), "hytch", 1000);
    assert_eq!(dir, "/home/bob/.cache/hytch");
}

#[test]
fn session_dir_falls_back_to_passwd_home_when_env_empty() {
    let dir = resolve_session_dir(Some(""), Some("/home/bob"), "hytch", 1000);
    assert_eq!(dir, "/home/bob/.cache/hytch");
}

#[test]
fn session_dir_falls_back_to_tmp_when_home_is_root() {
    let dir = resolve_session_dir(Some("/"), None, "hytch", 1000);
    assert_eq!(dir, "/tmp/.hytch-1000");
}

#[test]
fn session_dir_falls_back_to_tmp_when_nothing_available() {
    let dir = resolve_session_dir(None, None, "hytch", 1000);
    assert_eq!(dir, "/tmp/.hytch-1000");
}

#[test]
fn session_dir_falls_back_to_tmp_when_passwd_home_empty() {
    let dir = resolve_session_dir(None, Some(""), "hytch", 1000);
    assert_eq!(dir, "/tmp/.hytch-1000");
}

#[test]
fn session_dir_falls_back_to_tmp_when_both_unusable() {
    let dir = resolve_session_dir(Some(""), Some("/"), "hytch", 1000);
    assert_eq!(dir, "/tmp/.hytch-1000");
}

#[test]
fn socket_path_joins_bare_name_with_session_dir() {
    let path = resolve_socket_path("work", "/home/alice/.cache/hytch");
    assert_eq!(path, "/home/alice/.cache/hytch/work");
}

#[test]
fn socket_path_treats_name_with_slash_as_literal() {
    let path = resolve_socket_path("/tmp/mysession", "/home/alice/.cache/hytch");
    assert_eq!(path, "/tmp/mysession");
}

#[test]
fn socket_path_treats_relative_slash_name_as_literal_too() {
    let path = resolve_socket_path("sub/dir/name", "/home/alice/.cache/hytch");
    assert_eq!(path, "sub/dir/name");
}

#[test]
fn extend_ancestry_starts_a_fresh_chain() {
    assert_eq!(extend_ancestry(None, "/a"), "/a");
}

#[test]
fn extend_ancestry_appends_to_existing_chain() {
    assert_eq!(extend_ancestry(Some("/a"), "/b"), "/a:/b");
}

#[test]
fn extend_ancestry_treats_empty_current_as_none() {
    assert_eq!(extend_ancestry(Some(""), "/a"), "/a");
}

#[test]
fn ancestry_contains_none_is_false() {
    assert!(!ancestry_contains(None, "/a"));
}

#[test]
fn ancestry_contains_direct_match() {
    assert!(ancestry_contains(Some("/a"), "/a"));
}

#[test]
fn ancestry_contains_match_anywhere_in_chain() {
    assert!(ancestry_contains(Some("/a:/b"), "/a"));
    assert!(ancestry_contains(Some("/a:/b"), "/b"));
}

#[test]
fn ancestry_contains_rejects_prefix_false_positive() {
    assert!(!ancestry_contains(Some("/path/ab"), "/path/a"));
}

#[test]
fn ancestry_contains_no_match() {
    assert!(!ancestry_contains(Some("/a:/b"), "/c"));
}

#[test]
fn short_name_single_session() {
    assert_eq!(short_name("/home/alice/.cache/hytch/outer"), "outer");
}

#[test]
fn short_name_nested_chain() {
    assert_eq!(
        short_name("/home/alice/.cache/hytch/outer:/home/alice/.cache/hytch/inner"),
        "outer > inner"
    );
}

#[test]
fn empty_chain_contains_nothing() {
    assert!(!ancestry_contains(Some(""), ""));
    assert!(!ancestry_contains(Some(""), "/a"));
}

#[test]
fn extended_chain_guards_every_session_it_runs_in() {
    let outer = extend_ancestry(None, "/s/outer");
    let chain = extend_ancestry(Some(&outer), "/s/inner");
    assert!(ancestry_contains(Some(&chain), "/s/outer"));
    assert!(ancestry_contains(Some(&chain), "/s/inner"));
    assert!(!ancestry_contains(Some(&chain), "/s/other"));
    assert_eq!(short_name(&chain), format!("{} > inner", short_name(&outer)));
}

#[test]
fn short_name_grows_with_any_path() {
    for path in ["/s/b", "/s/b:/s/c", ":", ""] {
        let chain = extend_ancestry(Some("/s/a"), path);
        assert_eq!(short_name(&chain), format!("a > {}", short_name(path)));
    }
}

#[test]
fn short_name_of_paths_without_a_file_name() {
    assert_eq!(short_name(""), "");
    assert_eq!(short_name("/"), "/");
    assert_eq!(short_name("a/.."), "a/..");
    assert_eq!(short_name("."), ".");
    assert_eq!(short_name("/x/dir//"), "dir");
    assert_eq!(short_name("/x/dir/."), "dir");
    assert_eq!(short_name("/x/\u{e9}t\u{e9}:b"), "\u{e9}t\u{e9} > b");
}

#[test]
fn socket_path_handles_odd_directories() {
    assert_eq!(resolve_socket_path("a", ""), "a");
    assert_eq!(resolve_socket_path("a", "/"), "/a");
    assert_eq!(resolve_socket_path("a", "/x/"), "/x/a");
    assert_eq!(resolve_socket_path("", "/x"), "/x/");
}

#[test]
fn distinct_bare_names_have_distinct_sockets() {
    assert_ne!(resolve_socket_path("a", "/x"), resolve_socket_path("b", "/x"));
}

#[test]
fn usable_home_filters() {
    assert_eq!(usable_home(Some("/root")), Some("/root"));
    assert_eq!(usable_home(Some("//")), Some("//"));
    assert_eq!(usable_home(Some("/")), None);
    assert_eq!(usable_home(Some("")), None);
    assert_eq!(usable_home(None), None);
}

#[test]
fn short_socket_paths_are_used_as_they_are() {
    let longest = format!("/{}", "x".repeat(106));
    assert_eq!(longest.len(), 107);
    assert_eq!(shorten_for_unix_socket(&longest), None);
    assert_eq!(shorten_for_unix_socket(""), None);
}

#[test]
fn long_socket_paths_are_split_at_the_last_slash() {
    let dir = format!("/home/{}", "d".repeat(100));
    let path = format!("{dir}/work");
    assert_eq!(
        shorten_for_unix_socket(&path),
        Some((dir.clone(), "work".to_string()))
    );
    let name = "n".repeat(107);
    assert_eq!(
        shorten_for_unix_socket(&format!("/{name}")),
        Some(("/".to_string(), name))
    );
    assert_eq!(shorten_for_unix_socket(&"x".repeat(200)), None);
    assert_eq!(shorten_for_unix_socket(&format!("{dir}/{dir}/")), None);
}

#[test]
fn socket_path_limit_counts_bytes_and_not_characters() {
    let name = "\u{e9}".repeat(60);
    assert_eq!(
        shorten_for_unix_socket(&format!("/{name}")),
        Some(("/".to_string(), name))
    );
}

#[test]
fn session_variable_is_named() {
    assert_eq!(SESSION_ENVVAR, "HYTCH_SESSION");
}
