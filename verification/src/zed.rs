//! The `zed` front end: rewrites the paths among Zed's arguments into SSH
//! URLs that point into the container, and chooses how Zed is started.
use vstd::prelude::*;
use vstd::string::StringExecFns;
use crate::command::{CommandSpec, CommandView};
use crate::dest::toolbx_destination;
use crate::text::{
    contains, occurs_at, push_str, replace_char, replace_char_str, starts_with, str_contains, str_eq,
    str_starts_with, strip_prefixes, strip_prefixes_str,
};

verus! {

/// One argument for Zed.
#[derive(Debug, PartialEq, Eq)]
pub enum ZedArg {
    /// Passed on unchanged.
    Keep(String),
    /// A local path, to be made absolute and turned into an SSH URL into the
    /// container (see [`remote_url`]).
    Remote(String),
}

/// The mathematical value of a [`ZedArg`].
pub enum ZedArgView {
    Keep(Seq<char>),
    Remote(Seq<char>),
}

impl DeepView for ZedArg {
    type V = ZedArgView;

    open spec fn deep_view(&self) -> ZedArgView {
        match self {
            ZedArg::Keep(s) => ZedArgView::Keep(s@),
            ZedArg::Remote(s) => ZedArgView::Remote(s@),
        }
    }
}

/// What the `zed` front end does with its arguments.
#[derive(Debug, PartialEq, Eq)]
pub enum ZedPlan {
    /// Print the usage text, then Zed's own.
    Help,
    /// Pass the arguments to Zed unchanged.
    AsIs,
    /// Pass Zed these arguments, one for each given argument, in order.
    Mapped(Vec<ZedArg>),
}

/// The mathematical value of a [`ZedPlan`].
pub enum ZedPlanView {
    Help,
    AsIs,
    Mapped(Seq<ZedArgView>),
}

impl View for ZedPlan {
    type V = ZedPlanView;

    open spec fn view(&self) -> ZedPlanView {
        match self {
            ZedPlan::Help => ZedPlanView::Help,
            ZedPlan::AsIs => ZedPlanView::AsIs,
            ZedPlan::Mapped(v) => ZedPlanView::Mapped(v.deep_view()),
        }
    }
}

/// What becomes of an argument that may name a path: options, absolute paths
/// and URLs other than `file://` ones stay as they are; otherwise the
/// `file://` prefix is dropped, or, for a path starting with `~`, every `~`
/// is replaced by `home`, and the result is a local path.
pub open spec fn zed_convert(a: Seq<char>, home: Seq<char>) -> ZedArgView {
    if starts_with(a, "-"@) || starts_with(a, "/"@) || (contains(a, "://"@) && !starts_with(
        a,
        "file://"@,
    )) {
        ZedArgView::Keep(a)
    } else if starts_with(a, "file://"@) {
        ZedArgView::Remote(strip_prefixes(a, "file://"@))
    } else if starts_with(a, "~"@) {
        ZedArgView::Remote(replace_char(a, '~', home))
    } else {
        ZedArgView::Remote(a)
    }
}

/// Reads `args` from index `i` on.  `pending` holds after `--zed` or
/// `--user-data-dir` until a value has been passed on; `escaped` holds after
/// `--`; `acc` holds what was made of the arguments before `i`.
pub open spec fn zed_scan(
    args: Seq<Seq<char>>,
    i: int,
    pending: bool,
    escaped: bool,
    home: Seq<char>,
    acc: Seq<ZedArgView>,
) -> ZedPlanView
    decreases args.len() - i,
{
    if i < 0 || i >= args.len() {
        ZedPlanView::Mapped(acc)
    } else {
        let a = args[i];
        if a == "--help"@ {
            ZedPlanView::Help
        } else if a == "--dev-server-token"@ {
            ZedPlanView::AsIs
        } else {
            let pending2 = pending || a == "--zed"@ || a == "--user-data-dir"@;
            let escaped2 = escaped || a == "--"@;
            if !starts_with(a, "-"@) && pending2 {
                zed_scan(args, i + 1, false, escaped2, home, acc.push(ZedArgView::Keep(a)))
            } else if !escaped2 && starts_with(a, "-"@) {
                zed_scan(args, i + 1, pending2, escaped2, home, acc.push(ZedArgView::Keep(a)))
            } else {
                zed_scan(args, i + 1, pending2, escaped2, home, acc.push(zed_convert(a, home)))
            }
        }
    }
}

/// What the `zed` front end does with `args`: outside a Toolbx container they
/// are passed on as they are; inside one they are read by [`zed_scan`].
pub open spec fn zed_plan(args: Seq<Seq<char>>, in_toolbx: bool, home: Seq<char>) -> ZedPlanView {
    if in_toolbx {
        zed_scan(args, 0, false, false, home, seq![])
    } else {
        ZedPlanView::AsIs
    }
}

/// What becomes of one argument that may name a path, as [`zed_convert`] says.
pub fn convert_zed_arg(a: &str, home: &str) -> (r: ZedArg)
    ensures
        r.deep_view() == zed_convert(a@, home@),
{
    if str_starts_with(a, "-") || str_starts_with(a, "/") || (str_contains(a, "://")
        && !str_starts_with(a, "file://")) {
        ZedArg::Keep(String::from_str(a))
    } else if str_starts_with(a, "file://") {
        ZedArg::Remote(strip_prefixes_str(a, "file://"))
    } else if str_starts_with(a, "~") {
        proof {
            reveal_strlit("~");
        }
        ZedArg::Remote(replace_char_str(a, '~', home))
    } else {
        ZedArg::Remote(String::from_str(a))
    }
}

/// Decides what Zed is given for the arguments `args` (the program name
/// excluded); `home` stands for `~`.
pub fn plan_zed(args: &Vec<String>, in_toolbx: bool, home: &str) -> (r: ZedPlan)
    ensures
        r@ == zed_plan(args.deep_view(), in_toolbx, home@),
{
    if !in_toolbx {
        return ZedPlan::AsIs;
    }
    let ghost av = args.deep_view();
    let mut out: Vec<ZedArg> = Vec::new();
    let mut pending = false;
    let mut escaped = false;
    let mut i: usize = 0;
    assert(out.deep_view() =~= Seq::<ZedArgView>::empty());
    while i < args.len()
        invariant
            i <= args.len(),
            out.len() == i,
            in_toolbx,
            av == args.deep_view(),
            zed_scan(av, 0, false, false, home@, seq![]) == zed_scan(
                av,
                i as int,
                pending,
                escaped,
                home@,
                out.deep_view(),
            ),
        decreases args.len() - i,
    {
        let a = args[i].as_str();
        assert(a@ == av[i as int]);
        if str_eq(a, "--help") {
            return ZedPlan::Help;
        }
        if str_eq(a, "--dev-server-token") {
            return ZedPlan::AsIs;
        }
        if str_eq(a, "--zed") || str_eq(a, "--user-data-dir") {
            pending = true;
        }
        if str_eq(a, "--") {
            escaped = true;
        }
        let dash = str_starts_with(a, "-");
        let ghost before = out.deep_view();
        if !dash && pending {
            pending = false;
            out.push(ZedArg::Keep(String::from_str(a)));
        } else if !escaped && dash {
            out.push(ZedArg::Keep(String::from_str(a)));
        } else {
            out.push(convert_zed_arg(a, home));
        }
        assert(out.deep_view() =~= before.push(out[i as int].deep_view()));
        i = i + 1;
    }
    ZedPlan::Mapped(out)
}

/// The SSH URL under which Zed opens the absolute path `absolute` in
/// `container` as `user`: `ssh://<user>@<container>.toolbx/<path>`, the path
/// without its leading slashes.
pub open spec fn remote_url_spec(user: Seq<char>, container: Seq<char>, absolute: Seq<char>) -> Seq<
    char,
> {
    "ssh://"@ + toolbx_destination(user, container) + "/"@ + strip_prefixes(absolute, "/"@)
}

/// The SSH URL under which Zed opens `absolute` in `container` as `user`.
pub fn remote_url(user: &str, container: &str, absolute: &str) -> (r: String)
    ensures
        r@ == remote_url_spec(user@, container@, absolute@),
{
    let mut url = String::from_str("ssh://");
    url.append(user);
    url.append("@");
    url.append(container);
    url.append(".toolbx/");
    let path = strip_prefixes_str(absolute, "/");
    url.append(path.as_str());
    proof {
        reveal_strlit(".toolbx/");
        reveal_strlit(".toolbx");
        reveal_strlit("/");
        assert(".toolbx/"@ =~= ".toolbx"@ + "/"@);
    }
    assert(url@ =~= remote_url_spec(user@, container@, absolute@));
    url
}

/// The ways to start Zed, in the order in which they are tried.
#[derive(Debug, PartialEq, Eq, Structural, Clone, Copy)]
pub enum Launcher {
    /// The Flatpak of Zed on the host, through `flatpak-spawn --host`.
    FlatpakSpawn,
    /// The Flatpak of Zed, through `flatpak`.
    Flatpak,
    /// A `zed` program on the search path.
    Zed,
    /// A `zeditor` program on the search path.
    Zeditor,
}

/// The launchers in the order in which they are tried.
pub open spec fn launcher_order() -> Seq<Launcher> {
    seq![Launcher::FlatpakSpawn, Launcher::Flatpak, Launcher::Zed, Launcher::Zeditor]
}

/// The launchers in the order in which they are tried.
pub fn launchers() -> (r: Vec<Launcher>)
    ensures
        r@ == launcher_order(),
{
    let r = vec![Launcher::FlatpakSpawn, Launcher::Flatpak, Launcher::Zed, Launcher::Zeditor];
    assert(r@ =~= launcher_order());
    r
}

/// The program that a launcher starts; it is available when that program is.
pub open spec fn launcher_program(l: Launcher) -> Seq<char> {
    match l {
        Launcher::FlatpakSpawn => "flatpak-spawn"@,
        Launcher::Flatpak => "flatpak"@,
        Launcher::Zed => "zed"@,
        Launcher::Zeditor => "zeditor"@,
    }
}

impl Launcher {
    /// The program that this launcher starts.
    pub fn program(&self) -> (r: String)
        ensures
            r@ == launcher_program(*self),
    {
        match self {
            Launcher::FlatpakSpawn => String::from_str("flatpak-spawn"),
            Launcher::Flatpak => String::from_str("flatpak"),
            Launcher::Zed => String::from_str("zed"),
            Launcher::Zeditor => String::from_str("zeditor"),
        }
    }
}

/// The Flatpak application: Zed's preview build when `preview` holds.
pub open spec fn flatpak_app(preview: bool) -> Seq<char> {
    if preview {
        "dev.zed.Zed-Preview"@
    } else {
        "dev.zed.Zed"@
    }
}

/// The arguments of `flatpak run` that start Zed; with `extra_path`, Zed runs
/// with `extra_path` first on its search path and may not leave the sandbox.
pub open spec fn flatpak_run_args(preview: bool, extra_path: Option<Seq<char>>) -> Seq<Seq<char>> {
    match extra_path {
        Some(p) => seq![
            "--command=env"@,
            flatpak_app(preview),
            "PATH="@ + p + ":/app/bin:/usr/bin:/bin"@,
            "ZED_FLATPAK_NO_ESCAPE=1"@,
            "/app/bin/zed-wrapper"@,
        ],
        None => seq![flatpak_app(preview)],
    }
}

/// The command that starts Zed with `launcher`.  With `extra_path`, Zed's
/// search path starts with `extra_path`; for a program on the search path the
/// rest of it is `search_path`.
pub open spec fn zed_command_spec(
    launcher: Launcher,
    preview: bool,
    extra_path: Option<Seq<char>>,
    search_path: Seq<char>,
) -> CommandView {
    match launcher {
        Launcher::FlatpakSpawn => CommandView {
            program: "flatpak-spawn"@,
            args: seq!["--host"@, "flatpak"@, "run"@] + flatpak_run_args(preview, extra_path),
            path: None,
        },
        Launcher::Flatpak => CommandView {
            program: "flatpak"@,
            args: seq!["run"@] + flatpak_run_args(preview, extra_path),
            path: None,
        },
        _ => CommandView {
            program: launcher_program(launcher),
            args: seq![],
            path: match extra_path {
                Some(p) => Some(p + ":"@ + search_path),
                None => None,
            },
        },
    }
}

/// Appends the arguments of `flatpak run` that start Zed.
fn push_flatpak_run_args(out: &mut Vec<String>, preview: bool, extra_path: Option<&str>)
    ensures
        final(out).deep_view() == old(out).deep_view() + flatpak_run_args(
            preview,
            match extra_path {
                Some(p) => Some(p@),
                None => None,
            },
        ),
{
    let ghost before = out.deep_view();
    let app = if preview {
        "dev.zed.Zed-Preview"
    } else {
        "dev.zed.Zed"
    };
    match extra_path {
        Some(p) => {
            push_str(out, "--command=env");
            push_str(out, app);
            let mut path = String::from_str("PATH=");
            path.append(p);
            path.append(":/app/bin:/usr/bin:/bin");
            push_str(out, path.as_str());
            push_str(out, "ZED_FLATPAK_NO_ESCAPE=1");
            push_str(out, "/app/bin/zed-wrapper");
        },
        None => {
            push_str(out, app);
        },
    }
    assert(out.deep_view() =~= before + flatpak_run_args(
        preview,
        match extra_path {
            Some(p) => Some(p@),
            None => None,
        },
    ));
}

/// The command that starts Zed with `launcher`, as [`zed_command_spec`] says.
pub fn zed_command(
    launcher: Launcher,
    preview: bool,
    extra_path: Option<&str>,
    search_path: &str,
) -> (r: CommandSpec)
    ensures
        r@ == zed_command_spec(
            launcher,
            preview,
            match extra_path {
                Some(p) => Some(p@),
                None => None,
            },
            search_path@,
        ),
{
    match launcher {
        Launcher::FlatpakSpawn => {
            let mut args: Vec<String> = Vec::new();
            push_str(&mut args, "--host");
            push_str(&mut args, "flatpak");
            push_str(&mut args, "run");
            assert(args.deep_view() =~= seq!["--host"@, "flatpak"@, "run"@]);
            push_flatpak_run_args(&mut args, preview, extra_path);
            CommandSpec { program: String::from_str("flatpak-spawn"), args, path: None }
        },
        Launcher::Flatpak => {
            let mut args: Vec<String> = Vec::new();
            push_str(&mut args, "run");
            assert(args.deep_view() =~= seq!["run"@]);
            push_flatpak_run_args(&mut args, preview, extra_path);
            CommandSpec { program: String::from_str("flatpak"), args, path: None }
        },
        _ => {
            let path = match extra_path {
                Some(p) => {
                    let mut v = String::from_str(p);
                    v.append(":");
                    v.append(search_path);
                    Some(v)
                },
                None => None,
            };
            let r = CommandSpec { program: launcher.program(), args: Vec::new(), path };
            assert(r@.args =~= Seq::<Seq<char>>::empty());
            r
        },
    }
}

/// Inside a Toolbx container every argument yields exactly one argument for
/// Zed, in the same place, and every option is passed on unchanged.
pub proof fn lemma_zed_args_one_to_one(args: Seq<Seq<char>>, home: Seq<char>)
    ensures
        zed_plan(args, true, home) matches ZedPlanView::Mapped(out) ==> {
            &&& out.len() == args.len()
            &&& forall|k: int|
                0 <= k < args.len() && starts_with(#[trigger] args[k], "-"@) ==> out[k]
                    == ZedArgView::Keep(args[k])
        },
{
    lemma_zed_scan_shape(args, 0, false, false, home, seq![]);
}

/// The invariant behind [`lemma_zed_args_one_to_one`], from index `i` on.
proof fn lemma_zed_scan_shape(
    args: Seq<Seq<char>>,
    i: int,
    pending: bool,
    escaped: bool,
    home: Seq<char>,
    acc: Seq<ZedArgView>,
)
    requires
        0 <= i <= args.len(),
        acc.len() == i,
        forall|k: int|
            0 <= k < i && starts_with(#[trigger] args[k], "-"@) ==> acc[k] == ZedArgView::Keep(
                args[k],
            ),
    ensures
        zed_scan(args, i, pending, escaped, home, acc) matches ZedPlanView::Mapped(out) ==> {
            &&& out.len() == args.len()
            &&& forall|k: int|
                0 <= k < args.len() && starts_with(#[trigger] args[k], "-"@) ==> out[k]
                    == ZedArgView::Keep(args[k])
        },
    decreases args.len() - i,
{
    if i < args.len() {
        let a = args[i];
        if a == "--help"@ || a == "--dev-server-token"@ {
        } else {
            let pending2 = pending || a == "--zed"@ || a == "--user-data-dir"@;
            let escaped2 = escaped || a == "--"@;
            let next = if !starts_with(a, "-"@) && pending2 {
                ZedArgView::Keep(a)
            } else if !escaped2 && starts_with(a, "-"@) {
                ZedArgView::Keep(a)
            } else {
                zed_convert(a, home)
            };
            let acc2 = acc.push(next);
            assert forall|k: int|
                0 <= k < i + 1 && starts_with(#[trigger] args[k], "-"@) implies acc2[k]
                == ZedArgView::Keep(args[k]) by {
                if k < i {
                    assert(acc2[k] == acc[k]);
                }
            }
            if !starts_with(a, "-"@) && pending2 {
                lemma_zed_scan_shape(args, i + 1, false, escaped2, home, acc2);
            } else {
                lemma_zed_scan_shape(args, i + 1, pending2, escaped2, home, acc2);
            }
        }
    }
}

/// An argument that is no option, no absolute path, no `~` path, no
/// `file://` URL and no other URL (such as `.`, `./src/main.rs` or
/// `notes.md`) is a local path for the container, unchanged.
pub proof fn lemma_relative_paths_are_remote(a: Seq<char>, home: Seq<char>)
    requires
        !starts_with(a, "-"@),
        !starts_with(a, "/"@),
        !starts_with(a, "~"@),
        !starts_with(a, "file://"@),
        !contains(a, "://"@),
    ensures
        zed_convert(a, home) == ZedArgView::Remote(a),
{
}

/// Only options, absolute paths and URLs other than `file://` ones are passed
/// on unchanged; every other argument becomes a local path for the container.
pub proof fn lemma_kept_arguments(a: Seq<char>, home: Seq<char>)
    ensures
        zed_convert(a, home) is Keep <==> (starts_with(a, "-"@) || starts_with(a, "/"@) || (
        contains(a, "://"@) && !starts_with(a, "file://"@))),
        zed_convert(a, home) is Keep ==> zed_convert(a, home) == ZedArgView::Keep(a),
{
}

/// Replacing `c` in a concatenation replaces it in each part.
proof fn lemma_replace_char_concat(x: Seq<char>, y: Seq<char>, c: char, r: Seq<char>)
    ensures
        replace_char(x + y, c, r) == replace_char(x, c, r) + replace_char(y, c, r),
    decreases y.len(),
{
    if y.len() == 0 {
        assert(x + y =~= x);
        assert(replace_char(x, c, r) + replace_char(y, c, r) =~= replace_char(x, c, r));
    } else {
        lemma_replace_char_concat(x, y.drop_last(), c, r);
        assert((x + y).drop_last() =~= x + y.drop_last());
        assert((x + y).last() == y.last());
    }
}

/// Text without `c` is left as it is by replacing `c`.
proof fn lemma_replace_char_absent(s: Seq<char>, c: char, r: Seq<char>)
    requires
        forall|k: int| 0 <= k < s.len() ==> s[k] != c,
    ensures
        replace_char(s, c, r) == s,
    decreases s.len(),
{
    if s.len() > 0 {
        lemma_replace_char_absent(s.drop_last(), c, r);
        assert(s.drop_last() + seq![s.last()] =~= s);
    }
}

/// `~<rest>` (with no other `~` and no `://`) names `<rest>` under the home directory.
pub proof fn lemma_tilde_is_home(rest: Seq<char>, home: Seq<char>)
    requires
        forall|k: int| 0 <= k < rest.len() ==> rest[k] != '~',
        !contains(rest, "://"@),
    ensures
        zed_convert("~"@ + rest, home) == ZedArgView::Remote(home + rest),
{
    reveal_strlit("~");
    reveal_strlit("-");
    reveal_strlit("/");
    reveal_strlit("file://");
    reveal_strlit("://");
    let a = "~"@ + rest;
    assert(a.subrange(0, 1) =~= "~"@);
    assert(a[0] == '~');
    assert(!starts_with(a, "-"@)) by {
        if starts_with(a, "-"@) {
            assert(a.subrange(0, 1)[0] == '-');
        }
    }
    assert(!starts_with(a, "/"@)) by {
        if starts_with(a, "/"@) {
            assert(a.subrange(0, 1)[0] == '/');
        }
    }
    assert(!starts_with(a, "file://"@)) by {
        if starts_with(a, "file://"@) {
            assert(a.subrange(0, 7)[0] == 'f');
        }
    }
    if contains(a, "://"@) {
        let k = choose|k: int| occurs_at(a, "://"@, k);
        assert(a.subrange(k, k + 3)[0] == ':');
        assert(k >= 1);
        assert(rest.subrange(k - 1, k + 2) =~= a.subrange(k, k + 3));
        assert(occurs_at(rest, "://"@, k - 1));
    }
    lemma_replace_char_concat("~"@, rest, '~', home);
    assert("~"@.drop_last() =~= Seq::<char>::empty());
    assert("~"@.last() == '~');
    assert(replace_char(Seq::<char>::empty(), '~', home) == Seq::<char>::empty());
    assert(replace_char("~"@, '~', home) == replace_char(Seq::<char>::empty(), '~', home) + home);
    assert(Seq::<char>::empty() + home =~= home);
    lemma_replace_char_absent(rest, '~', home);
}

/// `file://<path>` names `<path>`.
pub proof fn lemma_file_url_is_path(path: Seq<char>, home: Seq<char>)
    requires
        !starts_with(path, "file://"@),
    ensures
        zed_convert("file://"@ + path, home) == ZedArgView::Remote(path),
{
    reveal_strlit("file://");
    reveal_strlit("-");
    reveal_strlit("/");
    let a = "file://"@ + path;
    assert(a.subrange(0, 7) =~= "file://"@);
    assert(a[0] == 'f');
    assert(!starts_with(a, "-"@)) by {
        if starts_with(a, "-"@) {
            assert(a.subrange(0, 1)[0] == '-');
        }
    }
    assert(!starts_with(a, "/"@)) by {
        if starts_with(a, "/"@) {
            assert(a.subrange(0, 1)[0] == '/');
        }
    }
    assert(a.skip(7) =~= path);
    assert(starts_with(a, "file://"@));
    assert(strip_prefixes(path, "file://"@) == path);
    assert(strip_prefixes(a, "file://"@) == strip_prefixes(a.skip(7), "file://"@));
}

/// Inside a Toolbx container, when no argument is `--help`,
/// `--dev-server-token`, `--zed` or `--user-data-dir`, Zed gets exactly the
/// conversion of each argument, in order.
pub proof fn lemma_zed_plan_converts_each(args: Seq<Seq<char>>, home: Seq<char>)
    requires
        forall|k: int|
            0 <= k < args.len() ==> #[trigger] args[k] != "--help"@ && args[k]
                != "--dev-server-token"@ && args[k] != "--zed"@ && args[k] != "--user-data-dir"@,
    ensures
        zed_plan(args, true, home) == ZedPlanView::Mapped(
            Seq::new(args.len(), |k: int| zed_convert(args[k], home)),
        ),
{
    lemma_zed_scan_converts(args, 0, false, home);
    assert(Seq::new(args.len(), |k: int| zed_convert(args[k], home)).take(0) =~= Seq::<
        ZedArgView,
    >::empty());
}

proof fn lemma_zed_scan_converts(args: Seq<Seq<char>>, i: int, escaped: bool, home: Seq<char>)
    requires
        0 <= i <= args.len(),
        forall|k: int|
            0 <= k < args.len() ==> #[trigger] args[k] != "--help"@ && args[k]
                != "--dev-server-token"@ && args[k] != "--zed"@ && args[k] != "--user-data-dir"@,
    ensures
        zed_scan(
            args,
            i,
            false,
            escaped,
            home,
            Seq::new(args.len(), |k: int| zed_convert(args[k], home)).take(i),
        ) == ZedPlanView::Mapped(Seq::new(args.len(), |k: int| zed_convert(args[k], home))),
    decreases args.len() - i,
{
    let all = Seq::new(args.len(), |k: int| zed_convert(args[k], home));
    if i == args.len() {
        assert(all.take(i) =~= all);
    } else {
        let a = args[i];
        assert(a != "--help"@ && a != "--dev-server-token"@ && a != "--zed"@ && a
            != "--user-data-dir"@);
        assert(all.take(i).push(zed_convert(a, home)) =~= all.take(i + 1));
        if starts_with(a, "-"@) {
            assert(zed_convert(a, home) == ZedArgView::Keep(a));
        }
        lemma_zed_scan_converts(args, i + 1, escaped || a == "--"@, home);
    }
}

/// In the arguments that start Zed's Flatpak, every entry but the application
/// begins with another character than `d`.
proof fn lemma_flatpak_args_shape(
    launcher: Launcher,
    preview: bool,
    extra_path: Option<Seq<char>>,
    search_path: Seq<char>,
)
    requires
        launcher == Launcher::FlatpakSpawn || launcher == Launcher::Flatpak,
    ensures
        ({
            let args = zed_command_spec(launcher, preview, extra_path, search_path).args;
            exists|j: int|
                0 <= j < args.len() && args[j] == (if preview {
                    "dev.zed.Zed-Preview"@
                } else {
                    "dev.zed.Zed"@
                }) && forall|i: int|
            0 <= i < args.len() && i != j ==> args[i].len() == 0 || #[trigger] args[i][0] != 'd'
        }),
{
    reveal_strlit("--host");
    reveal_strlit("flatpak");
    reveal_strlit("run");
    reveal_strlit("--command=env");
    reveal_strlit("dev.zed.Zed");
    reveal_strlit("dev.zed.Zed-Preview");
    reveal_strlit("PATH=");
    reveal_strlit("ZED_FLATPAK_NO_ESCAPE=1");
    reveal_strlit("/app/bin/zed-wrapper");
    let args = zed_command_spec(launcher, preview, extra_path, search_path).args;
    let app = if preview {
        "dev.zed.Zed-Preview"@
    } else {
        "dev.zed.Zed"@
    };
    let head: Seq<Seq<char>> = if launcher == Launcher::FlatpakSpawn {
        seq!["--host"@, "flatpak"@, "run"@]
    } else {
        seq!["run"@]
    };
    assert(args == head + flatpak_run_args(preview, extra_path));
    match extra_path {
        Some(p) => {
            let path_arg = "PATH="@ + p + ":/app/bin:/usr/bin:/bin"@;
            assert(path_arg[0] == 'P');
            let j: int = head.len() as int + 1;
            assert(args[j] == app);
            assert forall|i: int| 0 <= i < args.len() && i != j implies args[i].len() == 0
                || #[trigger] args[i][0] != 'd' by {
                if i < head.len() {
                    assert(args[i] == head[i]);
                } else {
                    assert(args[i] == flatpak_run_args(preview, extra_path)[i - head.len()]);
                }
            }
        },
        None => {
            let j = head.len() as int;
            assert(args[j] == app);
            assert forall|i: int| 0 <= i < args.len() && i != j implies args[i].len() == 0
                || #[trigger] args[i][0] != 'd' by {
                assert(args[i] == head[i]);
            }
        },
    }
}

/// The Flatpak that starts is Zed's preview build exactly when `preview`
/// holds, whether or not a wrapper directory is put on the search path.
pub proof fn lemma_preview_selects_flatpak_app(
    launcher: Launcher,
    preview: bool,
    extra_path: Option<Seq<char>>,
    search_path: Seq<char>,
)
    requires
        launcher == Launcher::FlatpakSpawn || launcher == Launcher::Flatpak,
    ensures
        zed_command_spec(launcher, preview, extra_path, search_path).args.contains(
            "dev.zed.Zed-Preview"@,
        ) <==> preview,
        zed_command_spec(launcher, preview, extra_path, search_path).args.contains("dev.zed.Zed"@)
            <==> !preview,
{
    reveal_strlit("dev.zed.Zed");
    reveal_strlit("dev.zed.Zed-Preview");
    let args = zed_command_spec(launcher, preview, extra_path, search_path).args;
    lemma_flatpak_args_shape(launcher, preview, extra_path, search_path);
    let j = choose|j: int|
        0 <= j < args.len() && args[j] == (if preview {
            "dev.zed.Zed-Preview"@
        } else {
            "dev.zed.Zed"@
        }) && forall|i: int|
            0 <= i < args.len() && i != j ==> args[i].len() == 0 || #[trigger] args[i][0] != 'd';
    assert("dev.zed.Zed"@.len() == 11 && "dev.zed.Zed-Preview"@.len() == 19);
    assert("dev.zed.Zed"@ != "dev.zed.Zed-Preview"@);
    if args.contains("dev.zed.Zed-Preview"@) {
        let i = choose|i: int| 0 <= i < args.len() && args[i] == "dev.zed.Zed-Preview"@;
        assert(args[i][0] == 'd');
        assert(i == j);
    }
    if args.contains("dev.zed.Zed"@) {
        let i = choose|i: int| 0 <= i < args.len() && args[i] == "dev.zed.Zed"@;
        assert(args[i][0] == 'd');
        assert(i == j);
    }
    assert(args[j] == args[j]);
}

/// The preview setting concerns Flatpaks only: a `zed` or `zeditor` program is
/// started the same way either way.
pub proof fn lemma_preview_only_for_flatpak(
    launcher: Launcher,
    extra_path: Option<Seq<char>>,
    search_path: Seq<char>,
)
    requires
        launcher == Launcher::Zed || launcher == Launcher::Zeditor,
    ensures
        zed_command_spec(launcher, true, extra_path, search_path) == zed_command_spec(
            launcher,
            false,
            extra_path,
            search_path,
        ),
{
}

/// What was made of earlier arguments stays in front, and without `--help`
/// and `--dev-server-token` among the rest, Zed gets mapped arguments.
proof fn lemma_zed_scan_keeps_prefix(
    args: Seq<Seq<char>>,
    i: int,
    pending: bool,
    escaped: bool,
    home: Seq<char>,
    acc: Seq<ZedArgView>,
)
    requires
        0 <= i <= args.len(),
    ensures
        (forall|k: int|
            i <= k < args.len() ==> #[trigger] args[k] != "--help"@ && args[k]
                != "--dev-server-token"@) ==> zed_scan(args, i, pending, escaped, home, acc) is Mapped,
        zed_scan(args, i, pending, escaped, home, acc) matches ZedPlanView::Mapped(out) ==> (
        acc.len() <= out.len() && forall|k: int| 0 <= k < acc.len() ==> out[k] == acc[k]),
    decreases args.len() - i,
{
    if i < args.len() {
        let a = args[i];
        if a == "--help"@ || a == "--dev-server-token"@ {
        } else {
            let pending2 = pending || a == "--zed"@ || a == "--user-data-dir"@;
            let escaped2 = escaped || a == "--"@;
            let next = if !starts_with(a, "-"@) && pending2 {
                ZedArgView::Keep(a)
            } else if !escaped2 && starts_with(a, "-"@) {
                ZedArgView::Keep(a)
            } else {
                zed_convert(a, home)
            };
            let p3 = if !starts_with(a, "-"@) && pending2 {
                false
            } else {
                pending2
            };
            lemma_zed_scan_keeps_prefix(args, i + 1, p3, escaped2, home, acc.push(next));
            assert forall|k: int| 0 <= k < acc.len() implies acc.push(next)[k] == acc[k] by {}
        }
    }
}

/// The value given to `--zed` or `--user-data-dir` is passed on unchanged,
/// never turned into a path in the container.
pub proof fn lemma_zed_option_value_kept(
    flag: Seq<char>,
    v: Seq<char>,
    rest: Seq<Seq<char>>,
    home: Seq<char>,
)
    requires
        flag == "--zed"@ || flag == "--user-data-dir"@,
        !starts_with(v, "-"@),
        forall|k: int|
            0 <= k < rest.len() ==> #[trigger] rest[k] != "--help"@ && rest[k]
                != "--dev-server-token"@,
    ensures
        zed_plan(seq![flag, v] + rest, true, home) matches ZedPlanView::Mapped(out) && out.len() >= 2
            && out[0] == ZedArgView::Keep(flag) && out[1] == ZedArgView::Keep(v),
{
    reveal_strlit("-");
    reveal_strlit("--zed");
    reveal_strlit("--user-data-dir");
    reveal_strlit("--help");
    reveal_strlit("--dev-server-token");
    reveal_strlit("--");
    let args = seq![flag, v] + rest;
    assert(args[0] == flag && args[1] == v);
    assert(flag.subrange(0, 1) =~= "-"@);
    assert(starts_with(flag, "-"@));
    assert(flag != "--help"@ && flag != "--dev-server-token"@ && flag != "--"@);
    assert(v != "--help"@ && v != "--dev-server-token"@ && v != "--"@) by {
        if v == "--help"@ || v == "--dev-server-token"@ || v == "--"@ {
            assert(v.subrange(0, 1) =~= "-"@);
        }
    }
    assert forall|k: int| 0 <= k < args.len() implies #[trigger] args[k] != "--help"@ && args[k]
        != "--dev-server-token"@ by {
        if k >= 2 {
            assert(args[k] == rest[k - 2]);
        }
    }
    let acc1 = seq![ZedArgView::Keep(flag)];
    let acc2 = acc1.push(ZedArgView::Keep(v));
    assert(Seq::<ZedArgView>::empty().push(ZedArgView::Keep(flag)) =~= acc1);
    assert(zed_scan(args, 0, false, false, home, seq![]) == zed_scan(args, 1, true, false, home, acc1));
    assert(zed_scan(args, 1, true, false, home, acc1) == zed_scan(args, 2, false, false, home, acc2));
    lemma_zed_scan_keeps_prefix(args, 2, false, false, home, acc2);
}

} // verus!
