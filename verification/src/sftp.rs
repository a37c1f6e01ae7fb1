//! The `sftp` front end: finds the destination among the arguments that Zed
//! hands to `sftp`, reads the one batch command that Zed sends, and turns an
//! upload into a `podman cp` followed by a change of owner.
use vstd::prelude::*;
use vstd::string::StringExecFns;
use crate::dest::{lemma_destination_round_trip, parse_ssh_dest, ssh_dest, toolbx_destination};
use crate::error::{CliError, CliErrorView};
use crate::text::{
    contains, lemma_trim_char_surrounding, push_str, split_whitespace, starts_with, str_eq, str_starts_with, trim_char, trim_char_str,
    words,
};

verus! {

/// What the `sftp` front end is asked to do.
#[derive(Debug, PartialEq, Eq)]
pub enum SftpPlan {
    /// Print the usage text and stop.
    Help,
    /// The destination is no Toolbx destination: run the system `sftp` with
    /// the same arguments.
    Delegate,
    /// Read one batch command and carry it out in `container` for `user`.
    Upload { user: String, container: String },
}

/// The mathematical value of an [`SftpPlan`].
pub enum SftpPlanView {
    Help,
    Delegate,
    Upload { user: Seq<char>, container: Seq<char> },
}

impl View for SftpPlan {
    type V = SftpPlanView;

    open spec fn view(&self) -> SftpPlanView {
        match self {
            SftpPlan::Help => SftpPlanView::Help,
            SftpPlan::Delegate => SftpPlanView::Delegate,
            SftpPlan::Upload { user, container } => SftpPlanView::Upload {
                user: user@,
                container: container@,
            },
        }
    }
}

/// The options of `sftp` that Zed passes with a value in the next argument.
pub open spec fn sftp_takes_value(a: Seq<char>) -> bool {
    a == "-o"@ || a == "-P"@
}

/// How the reading of the `sftp` arguments ends.
pub enum SftpScanEnd {
    /// `--help` came before any destination.
    Help,
    /// No destination was found.
    Exhausted,
    /// The destination is `dest`.
    Found { dest: Seq<char> },
}

/// Reads `args` from index `i` on; `pending` holds while an option waits for its value.
pub open spec fn sftp_scan(args: Seq<Seq<char>>, i: int, pending: bool) -> SftpScanEnd
    decreases args.len() - i,
{
    if i < 0 || i >= args.len() {
        SftpScanEnd::Exhausted
    } else {
        let a = args[i];
        if a == "--help"@ {
            SftpScanEnd::Help
        } else if sftp_takes_value(a) {
            sftp_scan(args, i + 1, true)
        } else if !starts_with(a, "-"@) && pending {
            sftp_scan(args, i + 1, false)
        } else if !starts_with(a, "-"@) {
            SftpScanEnd::Found { dest: a }
        } else {
            sftp_scan(args, i + 1, pending)
        }
    }
}

/// What the `sftp` front end does with the arguments `args`.
pub open spec fn sftp_plan(args: Seq<Seq<char>>) -> Result<SftpPlanView, CliErrorView> {
    match sftp_scan(args, 0, false) {
        SftpScanEnd::Help => Ok(SftpPlanView::Help),
        SftpScanEnd::Exhausted => Err(CliErrorView::NoSftpDestination),
        SftpScanEnd::Found { dest } => match ssh_dest(dest) {
            None => Ok(SftpPlanView::Delegate),
            Some((user, container)) => Ok(SftpPlanView::Upload { user, container }),
        },
    }
}

/// Decides how to serve an `sftp` invocation with the arguments `args`
/// (the program name excluded).
pub fn plan_sftp(args: &Vec<String>) -> (r: Result<SftpPlan, CliError>)
    ensures
        match r {
            Ok(p) => sftp_plan(args.deep_view()) == Ok::<SftpPlanView, CliErrorView>(p@),
            Err(e) => sftp_plan(args.deep_view()) == Err::<SftpPlanView, CliErrorView>(e@),
        },
{
    let ghost av = args.deep_view();
    let mut pending = false;
    let mut i: usize = 0;
    while i < args.len()
        invariant
            i <= args.len(),
            av == args.deep_view(),
            sftp_scan(av, 0, false) == sftp_scan(av, i as int, pending),
        decreases args.len() - i,
    {
        let a = args[i].as_str();
        assert(a@ == av[i as int]);
        if str_eq(a, "--help") {
            return Ok(SftpPlan::Help);
        }
        let dash = str_starts_with(a, "-");
        if str_eq(a, "-o") || str_eq(a, "-P") {
            pending = true;
        } else if !dash && pending {
            pending = false;
        } else if !dash {
            return match parse_ssh_dest(a) {
                None => Ok(SftpPlan::Delegate),
                Some((user, container)) => Ok(SftpPlan::Upload { user, container }),
            };
        }
        i = i + 1;
    }
    Err(CliError::NoSftpDestination)
}

/// A batch command `put -r <local>` with no remote path: the words that name
/// the paths run out.
pub open spec fn batch_lacks_remote(w: Seq<Seq<char>>) -> bool {
    w.len() == 3 && w[0] == "put"@ && w[1] == "-r"@
}

/// The local and the remote path of the upload that the batch command with
/// the words `w` asks for: `put [-r] <local> <remote>`, each path without
/// surrounding double quotes.  The copy is always recursive, so `-r` changes
/// nothing.
pub open spec fn batch_upload(w: Seq<Seq<char>>) -> Result<(Seq<char>, Seq<char>), CliErrorView> {
    if w.len() < 3 {
        Err(CliErrorView::InvalidBatchCommand)
    } else if w[0] == "put"@ {
        if w[1] == "-r"@ {
            Ok((trim_char(w[2], '"'), trim_char(w[3], '"')))
        } else {
            Ok((trim_char(w[1], '"'), trim_char(w[2], '"')))
        }
    } else {
        Err(CliErrorView::UnsupportedBatchCommand(w[0]))
    }
}

/// Reads the batch command `line`; gives the local and the remote path of the
/// upload it asks for.
pub fn parse_batch_command(line: &str) -> (r: Result<(String, String), CliError>)
    requires
        !batch_lacks_remote(words(line@)),
    ensures
        match r {
            Ok((l, rm)) => batch_upload(words(line@)) == Ok::<
                (Seq<char>, Seq<char>),
                CliErrorView,
            >((l@, rm@)),
            Err(e) => batch_upload(words(line@)) == Err::<(Seq<char>, Seq<char>), CliErrorView>(
                e@,
            ),
        },
{
    let parts = split_whitespace(line);
    let ghost w = words(line@);
    assert(forall|k: int| 0 <= k < parts.len() ==> #[trigger] parts[k]@ == w[k]);
    if parts.len() < 3 {
        return Err(CliError::InvalidBatchCommand);
    }
    if str_eq(parts[0].as_str(), "put") {
        if str_eq(parts[1].as_str(), "-r") {
            let local = trim_char_str(parts[2].as_str(), '"');
            let remote = trim_char_str(parts[3].as_str(), '"');
            Ok((local, remote))
        } else {
            let local = trim_char_str(parts[1].as_str(), '"');
            let remote = trim_char_str(parts[2].as_str(), '"');
            Ok((local, remote))
        }
    } else {
        Err(CliError::UnsupportedBatchCommand(String::from_str(parts[0].as_str())))
    }
}

/// The arguments of `podman` that copy `local` to `remote` in `container`.
pub open spec fn copy_args(container: Seq<char>, local: Seq<char>, remote: Seq<char>) -> Seq<
    Seq<char>,
> {
    seq!["cp"@, local, container + ":"@ + remote]
}

/// The arguments of `podman` that copy `local` to `remote` in `container`.
pub fn podman_copy_args(container: &str, local: &str, remote: &str) -> (r: Vec<String>)
    ensures
        r.deep_view() == copy_args(container@, local@, remote@),
{
    let mut out: Vec<String> = Vec::new();
    push_str(&mut out, "cp");
    push_str(&mut out, local);
    let mut target = String::from_str(container);
    target.append(":");
    target.append(remote);
    push_str(&mut out, target.as_str());
    assert(out.deep_view() =~= copy_args(container@, local@, remote@));
    out
}

/// The arguments of `podman` that give `user` (as user and group) the
/// ownership of `remote` and everything below it in `container`.
pub open spec fn chown_args(container: Seq<char>, user: Seq<char>, remote: Seq<char>) -> Seq<
    Seq<char>,
> {
    seq![
        "exec"@,
        container,
        "sh"@,
        "-c"@,
        "chown -R "@ + user + ":"@ + user + " "@ + remote,
    ]
}

/// The arguments of `podman` that hand `remote` in `container` to `user`.
pub fn podman_chown_args(container: &str, user: &str, remote: &str) -> (r: Vec<String>)
    ensures
        r.deep_view() == chown_args(container@, user@, remote@),
{
    let mut out: Vec<String> = Vec::new();
    push_str(&mut out, "exec");
    push_str(&mut out, container);
    push_str(&mut out, "sh");
    push_str(&mut out, "-c");
    let mut script = String::from_str("chown -R ");
    script.append(user);
    script.append(":");
    script.append(user);
    script.append(" ");
    script.append(remote);
    push_str(&mut out, script.as_str());
    assert(out.deep_view() =~= chown_args(container@, user@, remote@));
    out
}

/// `-r` after `put` changes nothing: the upload is the same with or without
/// it, unless the local path is itself `-r`.
pub proof fn lemma_recursive_flag_ignored(
    local: Seq<char>,
    remote: Seq<char>,
    rest: Seq<Seq<char>>,
)
    requires
        local != "-r"@,
    ensures
        batch_upload(seq!["put"@, "-r"@, local, remote] + rest) == batch_upload(
            seq!["put"@, local, remote] + rest,
        ),
{
    let a = seq!["put"@, "-r"@, local, remote] + rest;
    let b = seq!["put"@, local, remote] + rest;
    assert(a[0] == "put"@ && a[1] == "-r"@ && a[2] == local && a[3] == remote);
    assert(b[0] == "put"@ && b[1] == local && b[2] == remote);
}

/// A Toolbx destination makes `sftp` upload into that container for that
/// user, whatever follows it.
pub proof fn lemma_sftp_reaches_container(
    user: Seq<char>,
    container: Seq<char>,
    rest: Seq<Seq<char>>,
)
    requires
        !starts_with(user, "-"@),
        !contains(user, "@"@),
        !contains(container, ".toolbx"@),
    ensures
        sftp_plan(seq![toolbx_destination(user, container)] + rest) == Ok::<
            SftpPlanView,
            CliErrorView,
        >(SftpPlanView::Upload { user, container }),
{
    reveal_strlit("-");
    reveal_strlit("@");
    reveal_strlit(".toolbx");
    reveal_strlit("--help");
    reveal_strlit("-o");
    reveal_strlit("-P");
    let d = toolbx_destination(user, container);
    let args = seq![d] + rest;
    assert(args[0] == d);
    assert(d.len() >= 8);
    assert(d != "--help"@);
    assert(!sftp_takes_value(d));
    if user.len() > 0 {
        assert(d.subrange(0, 1) =~= user.subrange(0, 1));
    } else {
        assert(d.subrange(0, 1)[0] == '@');
        assert("-"@[0] == '-');
    }
    assert(!starts_with(d, "-"@));
    lemma_destination_round_trip(user, container, seq![]);
    assert(d + Seq::<char>::empty() =~= d);
}

/// Reading arguments after a prefix ends as reading them alone does.
proof fn lemma_sftp_scan_shift(pre: Seq<Seq<char>>, rest: Seq<Seq<char>>, i: int, pending: bool)
    requires
        0 <= i <= rest.len(),
    ensures
        sftp_scan(pre + rest, pre.len() + i, pending) == sftp_scan(rest, i, pending),
    decreases rest.len() - i,
{
    let args = pre + rest;
    if i < rest.len() {
        let a = rest[i];
        assert(args[pre.len() + i] == a);
        if a == "--help"@ {
        } else if sftp_takes_value(a) {
            lemma_sftp_scan_shift(pre, rest, i + 1, true);
        } else if !starts_with(a, "-"@) && pending {
            lemma_sftp_scan_shift(pre, rest, i + 1, false);
        } else if !starts_with(a, "-"@) {
        } else {
            lemma_sftp_scan_shift(pre, rest, i + 1, pending);
        }
    }
}

/// An option that takes no value (anything starting with `-` but `--help`,
/// `-o` and `-P`) changes nothing; in particular it never takes the next
/// argument as its value.
pub proof fn lemma_sftp_other_flags_ignored(f: Seq<char>, rest: Seq<Seq<char>>)
    requires
        starts_with(f, "-"@),
        f != "--help"@,
        f != "-o"@,
        f != "-P"@,
    ensures
        sftp_plan(seq![f] + rest) == sftp_plan(rest),
{
    let args = seq![f] + rest;
    assert(args[0] == f);
    lemma_sftp_scan_shift(seq![f], rest, 0, false);
}

/// `-o` and `-P` take exactly the next argument as their value.
pub proof fn lemma_sftp_option_value_skipped(o: Seq<char>, v: Seq<char>, rest: Seq<Seq<char>>)
    requires
        o == "-o"@ || o == "-P"@,
        !starts_with(v, "-"@),
    ensures
        sftp_plan(seq![o, v] + rest) == sftp_plan(rest),
{
    reveal_strlit("-");
    reveal_strlit("-o");
    reveal_strlit("-P");
    reveal_strlit("--help");
    let args = seq![o, v] + rest;
    assert(args[0] == o);
    assert(args[1] == v);
    assert(v != "--help"@ && !sftp_takes_value(v)) by {
        if v == "--help"@ || v == "-o"@ || v == "-P"@ {
            assert(v.subrange(0, 1) =~= "-"@);
        }
    }
    assert(o != "--help"@);
    assert(sftp_scan(args, 0, false) == sftp_scan(args, 1, true));
    assert(sftp_scan(args, 1, true) == sftp_scan(args, 2, false));
    lemma_sftp_scan_shift(seq![o, v], rest, 0, false);
}

/// `put <local> <remote>` uploads `local` to `remote`, with or without `-r`,
/// and double quotes around the paths are removed (the paths themselves
/// neither start nor end with a double quote).
pub proof fn lemma_batch_put_paths(
    local: Seq<char>,
    remote: Seq<char>,
    rest: Seq<Seq<char>>,
)
    requires
        local != "-r"@,
        local.len() == 0 || (local[0] != '"' && local.last() != '"'),
        remote.len() == 0 || (remote[0] != '"' && remote.last() != '"'),
    ensures
        batch_upload(seq!["put"@, local, remote] + rest) == Ok::<
            (Seq<char>, Seq<char>),
            CliErrorView,
        >((local, remote)),
        batch_upload(seq!["put"@, "-r"@, local, remote] + rest) == Ok::<
            (Seq<char>, Seq<char>),
            CliErrorView,
        >((local, remote)),
        batch_upload(
            seq!["put"@, seq!['"'] + local + seq!['"'], seq!['"'] + remote + seq!['"']] + rest,
        ) == Ok::<(Seq<char>, Seq<char>), CliErrorView>((local, remote)),
{
    reveal_strlit("-r");
    lemma_trim_char_surrounding(local, '"');
    lemma_trim_char_surrounding(remote, '"');
    let a = seq!["put"@, local, remote] + rest;
    assert(a[0] == "put"@ && a[1] == local && a[2] == remote);
    let b = seq!["put"@, "-r"@, local, remote] + rest;
    assert(b[0] == "put"@ && b[1] == "-r"@ && b[2] == local && b[3] == remote);
    let ql = seq!['"'] + local + seq!['"'];
    let qr = seq!['"'] + remote + seq!['"'];
    let c = seq!["put"@, ql, qr] + rest;
    assert(c[0] == "put"@ && c[1] == ql && c[2] == qr);
    assert(ql != "-r"@) by {
        assert(ql[0] == '"');
        assert("-r"@[0] == '-');
    }
}

} // verus!
