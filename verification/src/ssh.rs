//! The `ssh` front end: reads the arguments that Zed hands to `ssh` and
//! decides how to serve the connection.
use vstd::prelude::*;
use crate::dest::{lemma_destination_round_trip, parse_ssh_dest, ssh_dest, toolbx_destination};
use crate::error::{CliError, CliErrorView};
use crate::text::{contains, copy_from, push_str, starts_with, str_eq, str_starts_with};

verus! {

/// What the `ssh` front end is asked to do.
#[derive(Debug, PartialEq, Eq)]
pub enum SshPlan {
    /// Print the usage text and stop.
    Help,
    /// A control connection (`ControlMaster=yes` or `-N`): close standard
    /// output at once, then wait until interrupted and exit with status 255.
    HoldMaster,
    /// The destination is no Toolbx destination: run the system `ssh` with the
    /// same arguments.
    Delegate,
    /// Run `command` with `sh -c` in the container, as `user`, with a
    /// pseudo-terminal when `tty` holds.
    Exec { user: String, container: String, tty: bool, command: Vec<String> },
}

/// The mathematical value of an [`SshPlan`].
pub enum SshPlanView {
    Help,
    HoldMaster,
    Delegate,
    Exec { user: Seq<char>, container: Seq<char>, tty: bool, command: Seq<Seq<char>> },
}

impl View for SshPlan {
    type V = SshPlanView;

    open spec fn view(&self) -> SshPlanView {
        match self {
            SshPlan::Help => SshPlanView::Help,
            SshPlan::HoldMaster => SshPlanView::HoldMaster,
            SshPlan::Delegate => SshPlanView::Delegate,
            SshPlan::Exec { user, container, tty, command } => SshPlanView::Exec {
                user: user@,
                container: container@,
                tty: *tty,
                command: command.deep_view(),
            },
        }
    }
}

/// The options of `ssh` that Zed passes with a value in the next argument.
pub open spec fn ssh_takes_value(a: Seq<char>) -> bool {
    a == "-o"@ || a == "-L"@ || a == "-p"@
}

/// How the reading of the `ssh` arguments ends.
pub enum SshScanEnd {
    /// `--help` came before any destination.
    Help,
    /// No destination was found.
    Exhausted,
    /// The destination is `dest`; the remote command starts at `next`.
    Stopped { tty: bool, master: bool, dest: Seq<char>, next: int },
}

/// Reads `args` from index `i` on, with the pseudo-terminal and control
/// connection settings so far and whether an option still waits for its value.
pub open spec fn ssh_scan(
    args: Seq<Seq<char>>,
    i: int,
    tty: bool,
    master: bool,
    pending: bool,
) -> SshScanEnd
    decreases args.len() - i,
{
    if i < 0 || i >= args.len() {
        SshScanEnd::Exhausted
    } else {
        let a = args[i];
        if a == "--help"@ {
            SshScanEnd::Help
        } else if ssh_takes_value(a) {
            ssh_scan(args, i + 1, tty, master, true)
        } else if !starts_with(a, "-"@) && pending {
            ssh_scan(args, i + 1, tty, master || a == "ControlMaster=yes"@, false)
        } else if !starts_with(a, "-"@) {
            SshScanEnd::Stopped { tty, master, dest: a, next: i + 1 }
        } else if a == "-T"@ {
            ssh_scan(args, i + 1, false, master, pending)
        } else if a == "-t"@ {
            ssh_scan(args, i + 1, true, master, pending)
        } else if a == "-N"@ {
            ssh_scan(args, i + 1, tty, true, pending)
        } else {
            ssh_scan(args, i + 1, tty, master, pending)
        }
    }
}

/// What the `ssh` front end does with the arguments `args`.
///
/// The first argument that is no option and no option's value is the
/// destination; everything after it is the remote command.  A pseudo-terminal
/// is requested unless `-T` comes last among `-T`/`-t`, or the remote command
/// starts with `-T`.
pub open spec fn ssh_plan(args: Seq<Seq<char>>) -> Result<SshPlanView, CliErrorView> {
    match ssh_scan(args, 0, true, false, false) {
        SshScanEnd::Help => Ok(SshPlanView::Help),
        SshScanEnd::Exhausted => Err(CliErrorView::NoSshDestination),
        SshScanEnd::Stopped { tty, master, dest, next } => {
            if next == args.len() && !master {
                Err(CliErrorView::NoSshDestination)
            } else if master {
                Ok(SshPlanView::HoldMaster)
            } else {
                match ssh_dest(dest) {
                    None => Ok(SshPlanView::Delegate),
                    Some((user, container)) => {
                        let rest = args.skip(next);
                        if rest[0] == "-T"@ {
                            Ok(
                                SshPlanView::Exec {
                                    user,
                                    container,
                                    tty: false,
                                    command: rest.drop_first(),
                                },
                            )
                        } else {
                            Ok(SshPlanView::Exec { user, container, tty, command: rest })
                        }
                    },
                }
            }
        },
    }
}

/// Decides how to serve an `ssh` invocation with the arguments `args`
/// (the program name excluded).
pub fn plan_ssh(args: &Vec<String>) -> (r: Result<SshPlan, CliError>)
    ensures
        match r {
            Ok(p) => ssh_plan(args.deep_view()) == Ok::<SshPlanView, CliErrorView>(p@),
            Err(e) => ssh_plan(args.deep_view()) == Err::<SshPlanView, CliErrorView>(e@),
        },
{
    let ghost av = args.deep_view();
    let mut tty = true;
    let mut master = false;
    let mut pending = false;
    let mut i: usize = 0;
    let mut dest_at: Option<usize> = None;
    while i < args.len()
        invariant_except_break
            i <= args.len(),
            av == args.deep_view(),
            dest_at is None,
            ssh_scan(av, 0, true, false, false) == ssh_scan(av, i as int, tty, master, pending),
        invariant
            av == args.deep_view(),
        ensures
            match dest_at {
                Some(d) => d < args.len() && ssh_scan(av, 0, true, false, false)
                    == SshScanEnd::Stopped { tty, master, dest: av[d as int], next: d + 1 },
                None => ssh_scan(av, 0, true, false, false) == SshScanEnd::Exhausted,
            },
        decreases args.len() - i,
    {
        let a = args[i].as_str();
        assert(a@ == av[i as int]);
        if str_eq(a, "--help") {
            return Ok(SshPlan::Help);
        }
        let dash = str_starts_with(a, "-");
        if str_eq(a, "-o") || str_eq(a, "-L") || str_eq(a, "-p") {
            pending = true;
        } else if !dash && pending {
            if str_eq(a, "ControlMaster=yes") {
                master = true;
            }
            pending = false;
        } else if !dash {
            dest_at = Some(i);
            break;
        } else if str_eq(a, "-T") {
            tty = false;
        } else if str_eq(a, "-t") {
            tty = true;
        } else if str_eq(a, "-N") {
            master = true;
        }
        i = i + 1;
    }
    match dest_at {
        None => Err(CliError::NoSshDestination),
        Some(d) => {
            let next = d + 1;
            if next == args.len() && !master {
                Err(CliError::NoSshDestination)
            } else if master {
                Ok(SshPlan::HoldMaster)
            } else {
                match parse_ssh_dest(args[d].as_str()) {
                    None => Ok(SshPlan::Delegate),
                    Some((user, container)) => {
                        assert(av.skip(next as int)[0] == av[next as int]);
                        let mut start = next;
                        let mut tty = tty;
                        if str_eq(args[next].as_str(), "-T") {
                            tty = false;
                            start = next + 1;
                            assert(av.skip(next as int).drop_first() =~= av.skip(start as int));
                        }
                        let command = copy_from(args, start);
                        Ok(SshPlan::Exec { user, container, tty, command })
                    },
                }
            }
        },
    }
}

/// The arguments of `podman` that run `command` with `sh -c` in `container`
/// as `user`, interactively, with a pseudo-terminal when `tty` holds.
pub open spec fn exec_args(
    user: Seq<char>,
    container: Seq<char>,
    tty: bool,
    command: Seq<Seq<char>>,
) -> Seq<Seq<char>> {
    seq!["exec"@, "--user"@, user, "-i"@] + (if tty {
        seq!["-t"@]
    } else {
        seq![]
    }) + seq![container, "sh"@, "-c"@] + command
}

/// The arguments of `podman` that run `command` in `container`, as [`exec_args`] says.
pub fn podman_exec_args(user: &str, container: &str, tty: bool, command: &Vec<String>) -> (r: Vec<
    String,
>)
    ensures
        r.deep_view() == exec_args(user@, container@, tty, command.deep_view()),
{
    let mut out: Vec<String> = Vec::new();
    push_str(&mut out, "exec");
    push_str(&mut out, "--user");
    push_str(&mut out, user);
    push_str(&mut out, "-i");
    if tty {
        push_str(&mut out, "-t");
    }
    push_str(&mut out, container);
    push_str(&mut out, "sh");
    push_str(&mut out, "-c");
    let ghost prefix = out.deep_view();
    assert(prefix =~= seq!["exec"@, "--user"@, user@, "-i"@] + (if tty {
        seq!["-t"@]
    } else {
        seq![]
    }) + seq![container@, "sh"@, "-c"@]);
    let mut k: usize = 0;
    while k < command.len()
        invariant
            k <= command.len(),
            out.deep_view() == prefix + command.deep_view().take(k as int),
        decreases command.len() - k,
    {
        push_str(&mut out, command[k].as_str());
        assert(prefix + command.deep_view().take(k + 1) =~= (prefix + command.deep_view().take(
            k as int,
        )).push(command[k as int]@));
        k = k + 1;
    }
    assert(command.deep_view().take(command.len() as int) =~= command.deep_view());
    out
}

/// A Toolbx destination followed by a remote command is served in that
/// container, as that user, running that command (a leading `-T` of the
/// command only turns the pseudo-terminal off).
pub proof fn lemma_ssh_reaches_container(
    user: Seq<char>,
    container: Seq<char>,
    command: Seq<Seq<char>>,
)
    requires
        !starts_with(user, "-"@),
        !contains(user, "@"@),
        !contains(container, ".toolbx"@),
        command.len() > 0,
    ensures
        ssh_plan(seq![toolbx_destination(user, container)] + command) == if command[0] == "-T"@ {
            Ok::<SshPlanView, CliErrorView>(
                SshPlanView::Exec { user, container, tty: false, command: command.drop_first() },
            )
        } else {
            Ok::<SshPlanView, CliErrorView>(
                SshPlanView::Exec { user, container, tty: true, command },
            )
        },
{
    reveal_strlit("-");
    reveal_strlit("@");
    reveal_strlit(".toolbx");
    reveal_strlit("--help");
    reveal_strlit("-o");
    reveal_strlit("-L");
    reveal_strlit("-p");
    let d = toolbx_destination(user, container);
    let args = seq![d] + command;
    assert(args[0] == d);
    assert(d.len() >= 8);
    assert(d != "--help"@);
    assert(!ssh_takes_value(d));
    if user.len() > 0 {
        assert(d.subrange(0, 1) =~= user.subrange(0, 1));
    } else {
        assert(d.subrange(0, 1)[0] == '@');
        assert("-"@[0] == '-');
    }
    assert(!starts_with(d, "-"@));
    lemma_destination_round_trip(user, container, seq![]);
    assert(d + Seq::<char>::empty() =~= d);
    assert(args.skip(1) =~= command);
}

/// The end of reading `args`, with the remote command's start moved by `k`.
pub open spec fn shift_end(e: SshScanEnd, k: int) -> SshScanEnd {
    match e {
        SshScanEnd::Stopped { tty, master, dest, next } => SshScanEnd::Stopped {
            tty,
            master,
            dest,
            next: next + k,
        },
        other => other,
    }
}

/// Reading arguments after a prefix, from a given state, ends as reading them
/// alone does, with positions moved by the prefix's length.
proof fn lemma_ssh_scan_shift(
    pre: Seq<Seq<char>>,
    rest: Seq<Seq<char>>,
    i: int,
    tty: bool,
    master: bool,
    pending: bool,
)
    requires
        0 <= i <= rest.len(),
    ensures
        ssh_scan(pre + rest, pre.len() + i, tty, master, pending) == shift_end(
            ssh_scan(rest, i, tty, master, pending),
            pre.len() as int,
        ),
    decreases rest.len() - i,
{
    let args = pre + rest;
    let j = pre.len() + i;
    if i < rest.len() {
        let a = rest[i];
        assert(args[j] == a);
        if a == "--help"@ {
        } else if ssh_takes_value(a) {
            lemma_ssh_scan_shift(pre, rest, i + 1, tty, master, true);
        } else if !starts_with(a, "-"@) && pending {
            lemma_ssh_scan_shift(
                pre,
                rest,
                i + 1,
                tty,
                master || a == "ControlMaster=yes"@,
                false,
            );
        } else if !starts_with(a, "-"@) {
        } else if a == "-T"@ {
            lemma_ssh_scan_shift(pre, rest, i + 1, false, master, pending);
        } else if a == "-t"@ {
            lemma_ssh_scan_shift(pre, rest, i + 1, true, master, pending);
        } else if a == "-N"@ {
            lemma_ssh_scan_shift(pre, rest, i + 1, tty, true, pending);
        } else {
            lemma_ssh_scan_shift(pre, rest, i + 1, tty, master, pending);
        }
    }
}

/// Once a prefix has been read and left the initial state, the plan is that
/// of the arguments after it.
proof fn lemma_ssh_plan_after_prefix(pre: Seq<Seq<char>>, rest: Seq<Seq<char>>)
    requires
        ssh_scan(pre + rest, 0, true, false, false) == ssh_scan(
            pre + rest,
            pre.len() as int,
            true,
            false,
            false,
        ),
    ensures
        ssh_plan(pre + rest) == ssh_plan(rest),
{
    let args = pre + rest;
    lemma_ssh_scan_shift(pre, rest, 0, true, false, false);
    match ssh_scan(rest, 0, true, false, false) {
        SshScanEnd::Stopped { tty, master, dest, next } => {
            lemma_ssh_scan_next(rest, 0, true, false, false);
            assert(args.skip(next + pre.len()) =~= rest.skip(next));
        },
        _ => {},
    }
}

/// The remote command of a stopped reading starts inside the arguments.
proof fn lemma_ssh_scan_next(args: Seq<Seq<char>>, i: int, tty: bool, master: bool, pending: bool)
    requires
        0 <= i <= args.len(),
    ensures
        ssh_scan(args, i, tty, master, pending) matches SshScanEnd::Stopped { next, .. } ==> 1
            <= next <= args.len(),
    decreases args.len() - i,
{
    if i < args.len() {
        let a = args[i];
        if a == "--help"@ {
        } else if ssh_takes_value(a) {
            lemma_ssh_scan_next(args, i + 1, tty, master, true);
        } else if !starts_with(a, "-"@) && pending {
            lemma_ssh_scan_next(args, i + 1, tty, master || a == "ControlMaster=yes"@, false);
        } else if !starts_with(a, "-"@) {
        } else if a == "-T"@ {
            lemma_ssh_scan_next(args, i + 1, false, master, pending);
        } else if a == "-t"@ {
            lemma_ssh_scan_next(args, i + 1, true, master, pending);
        } else if a == "-N"@ {
            lemma_ssh_scan_next(args, i + 1, tty, true, pending);
        } else {
            lemma_ssh_scan_next(args, i + 1, tty, master, pending);
        }
    }
}

/// An option that takes no value and means nothing here (anything starting
/// with `-` but `--help`, `-o`, `-L`, `-p`, `-T`, `-t` and `-N`) changes
/// nothing: in particular it never takes the next argument as its value.
pub proof fn lemma_ssh_other_flags_ignored(f: Seq<char>, rest: Seq<Seq<char>>)
    requires
        starts_with(f, "-"@),
        f != "--help"@,
        f != "-o"@,
        f != "-L"@,
        f != "-p"@,
        f != "-T"@,
        f != "-t"@,
        f != "-N"@,
    ensures
        ssh_plan(seq![f] + rest) == ssh_plan(rest),
{
    let args = seq![f] + rest;
    assert(args[0] == f);
    assert(!ssh_takes_value(f));
    lemma_ssh_plan_after_prefix(seq![f], rest);
}

/// `-o`, `-L` and `-p` take exactly the next argument as their value, which
/// then means nothing (unless it is `ControlMaster=yes`).
pub proof fn lemma_ssh_option_value_skipped(o: Seq<char>, v: Seq<char>, rest: Seq<Seq<char>>)
    requires
        o == "-o"@ || o == "-L"@ || o == "-p"@,
        !starts_with(v, "-"@),
        v != "ControlMaster=yes"@,
    ensures
        ssh_plan(seq![o, v] + rest) == ssh_plan(rest),
{
    reveal_strlit("-");
    reveal_strlit("-o");
    reveal_strlit("-L");
    reveal_strlit("-p");
    reveal_strlit("--help");
    let args = seq![o, v] + rest;
    assert(args[0] == o);
    assert(args[1] == v);
    assert(o != "--help"@);
    assert(v != "--help"@) by {
        if v == "--help"@ {
            assert(v.subrange(0, 1) =~= "-"@);
        }
    }
    assert(!ssh_takes_value(v)) by {
        if v == "-o"@ || v == "-L"@ || v == "-p"@ {
            assert(v.subrange(0, 1) =~= "-"@);
        }
    }
    assert(ssh_scan(args, 0, true, false, false) == ssh_scan(args, 1, true, false, true));
    assert(ssh_scan(args, 1, true, false, true) == ssh_scan(args, 2, true, false, false));
    lemma_ssh_plan_after_prefix(seq![o, v], rest);
}

/// The end of a reading with the pseudo-terminal turned off.
pub open spec fn without_tty(e: SshScanEnd) -> SshScanEnd {
    match e {
        SshScanEnd::Stopped { tty, master, dest, next } => SshScanEnd::Stopped {
            tty: false,
            master,
            dest,
            next,
        },
        other => other,
    }
}

/// Without a `-t` among the arguments, a reading that starts with the
/// pseudo-terminal off ends as one that starts with it on, but with it off.
proof fn lemma_ssh_scan_tty_off(args: Seq<Seq<char>>, i: int, tty: bool, master: bool, pending: bool)
    requires
        0 <= i <= args.len(),
        forall|k: int| i <= k < args.len() ==> #[trigger] args[k] != "-t"@,
    ensures
        ssh_scan(args, i, false, master, pending) == without_tty(
            ssh_scan(args, i, tty, master, pending),
        ),
    decreases args.len() - i,
{
    if i < args.len() {
        let a = args[i];
        if a == "--help"@ {
        } else if ssh_takes_value(a) {
            lemma_ssh_scan_tty_off(args, i + 1, tty, master, true);
        } else if !starts_with(a, "-"@) && pending {
            lemma_ssh_scan_tty_off(args, i + 1, tty, master || a == "ControlMaster=yes"@, false);
        } else if !starts_with(a, "-"@) {
        } else if a == "-T"@ {
            lemma_ssh_scan_tty_off(args, i + 1, false, master, pending);
        } else if a == "-N"@ {
            lemma_ssh_scan_tty_off(args, i + 1, tty, true, pending);
        } else {
            lemma_ssh_scan_tty_off(args, i + 1, tty, master, pending);
        }
    }
}

/// `-t` asks for the pseudo-terminal, which is the default: it changes nothing.
pub proof fn lemma_ssh_lower_t_is_default(rest: Seq<Seq<char>>)
    ensures
        ssh_plan(seq!["-t"@] + rest) == ssh_plan(rest),
{
    reveal_strlit("-t");
    reveal_strlit("-T");
    reveal_strlit("-o");
    reveal_strlit("-L");
    reveal_strlit("-p");
    reveal_strlit("-N");
    reveal_strlit("-");
    reveal_strlit("--help");
    let args = seq!["-t"@] + rest;
    assert(args[0] == "-t"@);
    assert("-t"@.subrange(0, 1) =~= "-"@);
    assert("-t"@ != "-T"@ && "-t"@ != "-o"@ && "-t"@ != "-L"@ && "-t"@ != "-p"@ && "-t"@
        != "--help"@) by {
        assert("-t"@[1] == 't');
    }
    lemma_ssh_plan_after_prefix(seq!["-t"@], rest);
}

/// `-T` before the destination, with no `-t` anywhere, serves the same
/// connection without a pseudo-terminal.
pub proof fn lemma_ssh_capital_t_turns_tty_off(rest: Seq<Seq<char>>)
    requires
        forall|k: int| 0 <= k < rest.len() ==> #[trigger] rest[k] != "-t"@,
    ensures
        ssh_plan(seq!["-T"@] + rest) == match ssh_plan(rest) {
            Ok(SshPlanView::Exec { user, container, tty, command }) => Ok(
                SshPlanView::Exec { user, container, tty: false, command },
            ),
            other => other,
        },
{
    reveal_strlit("-t");
    reveal_strlit("-T");
    reveal_strlit("-o");
    reveal_strlit("-L");
    reveal_strlit("-p");
    reveal_strlit("-");
    reveal_strlit("--help");
    let args = seq!["-T"@] + rest;
    assert(args[0] == "-T"@);
    assert("-T"@.subrange(0, 1) =~= "-"@);
    assert("-T"@ != "-o"@ && "-T"@ != "-L"@ && "-T"@ != "-p"@ && "-T"@ != "--help"@) by {
        assert("-T"@[1] == 'T');
    }
    assert(ssh_scan(args, 0, true, false, false) == ssh_scan(args, 1, false, false, false));
    assert forall|k: int| 1 <= k < args.len() implies #[trigger] args[k] != "-t"@ by {
        assert(args[k] == rest[k - 1]);
    }
    lemma_ssh_scan_tty_off(args, 1, true, false, false);
    lemma_ssh_scan_shift(seq!["-T"@], rest, 0, true, false, false);
    match ssh_scan(rest, 0, true, false, false) {
        SshScanEnd::Stopped { tty, master, dest, next } => {
            lemma_ssh_scan_next(rest, 0, true, false, false);
            assert(args.skip(next + 1) =~= rest.skip(next));
        },
        _ => {},
    }
}

} // verus!
