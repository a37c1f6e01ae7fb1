use toolbx_zed::paths::{
    components, data_home, join, join_str, log_file, program_name, remove_from_search_path,
    split_str, tool_for, wrapper_dir, Tool,
};

fn v(xs: &[&str]) -> Vec<String> {
    xs.iter().map(|s| s.to_string()).collect()
}

#[test]
fn join_inserts_one_separator() {
    assert_eq!(join("/home/u", ".local/share"), "/home/u/.local/share");
    assert_eq!(join("/home/u/", "x"), "/home/u/x");
    assert_eq!(join("", "x"), "x");
    assert_eq!(join("/a", "/b"), "/b");
}

#[test]
fn data_home_prefers_xdg() {
    assert_eq!(data_home(Some("/xdg"), Some("/home/u")), "/xdg");
    assert_eq!(data_home(None, Some("/home/u")), "/home/u/.local/share");
    assert_eq!(data_home(None, None), "/.local/share");
}

#[test]
fn wrapper_directory() {
    assert_eq!(
        wrapper_dir("/home/u/.local/share"),
        "/home/u/.local/share/toolbx-zed-bin"
    );
}

#[test]
fn log_file_location() {
    assert_eq!(log_file(Some("/run/user/1000"), "0"), "/run/user/1000/toolbx-zed.log");
    assert_eq!(log_file(None, "1000"), "/run/user/1000/toolbx-zed.log");
}

#[test]
fn program_name_is_the_last_component() {
    assert_eq!(program_name("/usr/bin/ssh"), "ssh");
    assert_eq!(program_name("sftp"), "sftp");
    assert_eq!(program_name("dir/"), "");
}

#[test]
fn tool_is_chosen_by_program_name() {
    assert_eq!(tool_for("/home/u/.local/share/toolbx-zed-bin/ssh"), Tool::Ssh);
    assert_eq!(tool_for("sftp"), Tool::Sftp);
    assert_eq!(tool_for("/usr/local/bin/zed"), Tool::Zed);
    assert_eq!(tool_for("toolbx-zed"), Tool::Zed);
    assert_eq!(tool_for("ssh/"), Tool::Zed);
}

#[test]
fn split_and_join_on_separator() {
    assert_eq!(split_str("a::b", ':'), v(&["a", "", "b"]));
    assert_eq!(split_str("", ':'), v(&[""]));
    assert_eq!(join_str(&v(&["a", "", "b"]), ":"), "a::b");
    assert_eq!(join_str(&v(&[]), ":"), "");
}

#[test]
fn path_components_normalise() {
    assert_eq!(components("/usr//bin/"), v(&["/", "usr", "bin"]));
    assert_eq!(components("./a/./b"), v(&[".", "a", "b"]));
    assert_eq!(components("/."), v(&["/"]));
    assert_eq!(components(""), v(&[]));
}

#[test]
fn own_directory_is_removed_from_search_path() {
    assert_eq!(
        remove_from_search_path(
            "/home/u/.local/bin:/usr/bin:/home/u/.local/bin/",
            "/home/u/.local/bin"
        ),
        "/usr/bin"
    );
    assert_eq!(
        remove_from_search_path("/usr//bin:/bin", "/usr/bin"),
        "/bin"
    );
}

#[test]
fn search_path_edge_cases() {
    assert_eq!(remove_from_search_path("", "/x"), "");
    assert_eq!(remove_from_search_path("a::b", ""), "a:b");
    assert_eq!(remove_from_search_path("/x", "/x"), "");
}

#[test]
fn search_path_removal_is_idempotent() {
    let once = remove_from_search_path("/a:/b:/a/:/c::/a", "/a");
    assert_eq!(once, "/b:/c:");
    assert_eq!(remove_from_search_path(&once, "/a"), once);
}
