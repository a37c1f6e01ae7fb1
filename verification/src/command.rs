//! Descriptions of the commands that the front ends start.
use vstd::prelude::*;
use vstd::string::StringExecFns;
use crate::text::push_str;

verus! {

/// A command to start: the program, its arguments, and the value that its
/// `PATH` must be given, if any.
#[derive(Debug, PartialEq, Eq)]
pub struct CommandSpec {
    pub program: String,
    pub args: Vec<String>,
    pub path: Option<String>,
}

/// The mathematical value of a [`CommandSpec`].
pub struct CommandView {
    pub program: Seq<char>,
    pub args: Seq<Seq<char>>,
    pub path: Option<Seq<char>>,
}

impl View for CommandSpec {
    type V = CommandView;

    open spec fn view(&self) -> CommandView {
        CommandView {
            program: self.program@,
            args: self.args.deep_view(),
            path: match self.path {
                Some(p) => Some(p@),
                None => None,
            },
        }
    }
}

/// How `podman` is reached: directly when it is on the search path, otherwise
/// on the host through `flatpak-spawn --host`.
pub open spec fn podman_prefix(podman_on_path: bool) -> (Seq<char>, Seq<Seq<char>>) {
    if podman_on_path {
        ("podman"@, seq![])
    } else {
        ("flatpak-spawn"@, seq!["--host"@, "podman"@])
    }
}

/// The `podman` command with the arguments `args`.
pub open spec fn podman_command_spec(podman_on_path: bool, args: Seq<Seq<char>>) -> CommandView {
    CommandView {
        program: podman_prefix(podman_on_path).0,
        args: podman_prefix(podman_on_path).1 + args,
        path: None,
    }
}

/// The `podman` command with the arguments `args`, reached as
/// [`podman_prefix`] says.
pub fn podman_command(podman_on_path: bool, args: Vec<String>) -> (r: CommandSpec)
    ensures
        r@ == podman_command_spec(podman_on_path, args.deep_view()),
{
    if podman_on_path {
        let r = CommandSpec { program: String::from_str("podman"), args, path: None };
        assert(r@.args =~= Seq::<Seq<char>>::empty() + args.deep_view());
        r
    } else {
        let mut full: Vec<String> = Vec::new();
        push_str(&mut full, "--host");
        push_str(&mut full, "podman");
        let mut k: usize = 0;
        let ghost prefix = full.deep_view();
        while k < args.len()
            invariant
                k <= args.len(),
                full.deep_view() == prefix + args.deep_view().take(k as int),
            decreases args.len() - k,
        {
            push_str(&mut full, args[k].as_str());
            assert(args.deep_view().take(k + 1) =~= args.deep_view().take(k as int).push(
                args[k as int]@,
            ));
            assert(prefix + args.deep_view().take(k + 1) =~= (prefix + args.deep_view().take(
                k as int,
            )).push(args[k as int]@));
            k = k + 1;
        }
        assert(args.deep_view().take(args.len() as int) =~= args.deep_view());
        assert(prefix =~= seq!["--host"@, "podman"@]);
        CommandSpec { program: String::from_str("flatpak-spawn"), args: full, path: None }
    }
}

} // verus!
