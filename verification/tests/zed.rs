use toolbx_zed::zed::{
    convert_zed_arg, launchers, plan_zed, remote_url, zed_command, Launcher, ZedArg, ZedPlan,
};

fn v(xs: &[&str]) -> Vec<String> {
    xs.iter().map(|s| s.to_string()).collect()
}

fn keep(s: &str) -> ZedArg {
    ZedArg::Keep(s.to_string())
}

fn remote(s: &str) -> ZedArg {
    ZedArg::Remote(s.to_string())
}

#[test]
fn outside_toolbx_arguments_are_passed_as_they_are() {
    assert_eq!(plan_zed(&v(&["a.txt", "--help"]), false, "/home/u"), ZedPlan::AsIs);
}

#[test]
fn help_inside_toolbx() {
    assert_eq!(plan_zed(&v(&["x", "--help"]), true, "/home/u"), ZedPlan::Help);
}

#[test]
fn dev_server_token_passes_everything_unchanged() {
    assert_eq!(
        plan_zed(&v(&["a", "--dev-server-token", "t"]), true, "/home/u"),
        ZedPlan::AsIs
    );
}

#[test]
fn paths_are_converted_and_options_kept() {
    assert_eq!(
        plan_zed(
            &v(&[
                "-n",
                "/abs/path",
                "~/proj",
                "file:///tmp/x",
                "https://example.com",
                "file://rel",
                "notes.md"
            ]),
            true,
            "/home/u"
        ),
        ZedPlan::Mapped(vec![
            keep("-n"),
            keep("/abs/path"),
            remote("/home/u/proj"),
            remote("/tmp/x"),
            keep("https://example.com"),
            remote("rel"),
            remote("notes.md"),
        ])
    );
}

#[test]
fn option_values_are_kept() {
    assert_eq!(
        plan_zed(&v(&["--user-data-dir", "dir", "x", "--zed", "bin"]), true, "/h"),
        ZedPlan::Mapped(vec![
            keep("--user-data-dir"),
            keep("dir"),
            remote("x"),
            keep("--zed"),
            keep("bin"),
        ])
    );
}

#[test]
fn every_argument_gives_one_for_zed() {
    let args = v(&["--", "-w", "a", "--zed", "b", "~"]);
    match plan_zed(&args, true, "/h") {
        ZedPlan::Mapped(out) => {
            assert_eq!(out.len(), args.len());
            assert_eq!(out[0], keep("--"));
            assert_eq!(out[1], keep("-w"));
            assert_eq!(out[3], keep("--zed"));
            assert_eq!(out[5], remote("/h"));
        }
        other => panic!("unexpected plan {:?}", other),
    }
}

#[test]
fn every_tilde_is_replaced() {
    assert_eq!(convert_zed_arg("~/a~b", "/home/u"), remote("/home/u/a/home/ub"));
}

#[test]
fn repeated_file_prefixes_are_all_dropped() {
    assert_eq!(convert_zed_arg("file://file://x", "/h"), remote("x"));
}

#[test]
fn remote_url_names_the_container() {
    assert_eq!(
        remote_url("1000", "abc", "/var/home/u/proj"),
        "ssh://1000@abc.toolbx/var/home/u/proj"
    );
    assert_eq!(remote_url("1000", "abc", "//x"), "ssh://1000@abc.toolbx/x");
    assert_eq!(remote_url("u", "c", "rel"), "ssh://u@c.toolbx/rel");
}

#[test]
fn launchers_are_tried_in_order() {
    let names: Vec<String> = launchers().iter().map(|l| l.program()).collect();
    assert_eq!(names, v(&["flatpak-spawn", "flatpak", "zed", "zeditor"]));
}

#[test]
fn flatpak_spawn_with_wrapper_path() {
    let c = zed_command(Launcher::FlatpakSpawn, false, Some("/w"), "/usr/bin");
    assert_eq!(c.program, "flatpak-spawn");
    assert_eq!(
        c.args,
        v(&[
            "--host",
            "flatpak",
            "run",
            "--command=env",
            "dev.zed.Zed",
            "PATH=/w:/app/bin:/usr/bin:/bin",
            "ZED_FLATPAK_NO_ESCAPE=1",
            "/app/bin/zed-wrapper"
        ])
    );
    assert_eq!(c.path, None);
}

#[test]
fn flatpak_preview_without_wrapper_path() {
    let c = zed_command(Launcher::Flatpak, true, None, "");
    assert_eq!(c.program, "flatpak");
    assert_eq!(c.args, v(&["run", "dev.zed.Zed-Preview"]));
    assert_eq!(c.path, None);
}

#[test]
fn native_zed_gets_the_wrapper_path_first() {
    let c = zed_command(Launcher::Zed, false, Some("/w"), "/usr/bin:/bin");
    assert_eq!(c.program, "zed");
    assert!(c.args.is_empty());
    assert_eq!(c.path, Some("/w:/usr/bin:/bin".to_string()));
    let c = zed_command(Launcher::Zeditor, true, None, "/usr/bin");
    assert_eq!(c.program, "zeditor");
    assert_eq!(c.path, None);
}
