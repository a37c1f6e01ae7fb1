use toolbx_zed::command::podman_command;
use toolbx_zed::error::CliError;
use toolbx_zed::ssh::{plan_ssh, podman_exec_args, SshPlan};

fn v(xs: &[&str]) -> Vec<String> {
    xs.iter().map(|s| s.to_string()).collect()
}

#[test]
fn ssh_help_is_recognised() {
    assert_eq!(plan_ssh(&v(&["--help"])), Ok(SshPlan::Help));
    assert_eq!(plan_ssh(&v(&["-x", "--help"])), Ok(SshPlan::Help));
}

#[test]
fn ssh_without_arguments_has_no_destination() {
    let r = plan_ssh(&v(&[]));
    assert_eq!(r, Err(CliError::NoSshDestination));
    assert_eq!(
        r.unwrap_err().message(),
        "ERROR: No destination specified for ssh command"
    );
}

#[test]
fn ssh_with_only_options_has_no_destination() {
    assert_eq!(plan_ssh(&v(&["-T", "-o"])), Err(CliError::NoSshDestination));
    assert_eq!(plan_ssh(&v(&["-o", "Opt=1"])), Err(CliError::NoSshDestination));
}

#[test]
fn ssh_destination_without_command_is_refused() {
    assert_eq!(
        plan_ssh(&v(&["1000@abc.toolbx"])),
        Err(CliError::NoSshDestination)
    );
}

#[test]
fn ssh_control_master_connection_is_held() {
    assert_eq!(
        plan_ssh(&v(&["-o", "ControlMaster=yes", "1000@abc.toolbx"])),
        Ok(SshPlan::HoldMaster)
    );
    assert_eq!(
        plan_ssh(&v(&["-N", "1000@abc.toolbx"])),
        Ok(SshPlan::HoldMaster)
    );
    assert_eq!(
        plan_ssh(&v(&["-N", "1000@abc.toolbx", "true"])),
        Ok(SshPlan::HoldMaster)
    );
}

#[test]
fn ssh_control_master_without_destination_is_refused() {
    assert_eq!(plan_ssh(&v(&["-N"])), Err(CliError::NoSshDestination));
}

#[test]
fn ssh_other_control_master_values_do_not_hold() {
    assert_eq!(
        plan_ssh(&v(&["-o", "ControlMaster=no", "1000@abc.toolbx"])),
        Err(CliError::NoSshDestination)
    );
}

#[test]
fn ssh_command_runs_in_container_without_tty_after_capital_t() {
    assert_eq!(
        plan_ssh(&v(&["-T", "1000@abc.toolbx", "sh", "-c", "echo hi"])),
        Ok(SshPlan::Exec {
            user: "1000".to_string(),
            container: "abc".to_string(),
            tty: false,
            command: v(&["sh", "-c", "echo hi"]),
        })
    );
}

#[test]
fn ssh_capital_t_after_destination_is_dropped_and_disables_tty() {
    assert_eq!(
        plan_ssh(&v(&["1000@abc.toolbx", "-T", "uname"])),
        Ok(SshPlan::Exec {
            user: "1000".to_string(),
            container: "abc".to_string(),
            tty: false,
            command: v(&["uname"]),
        })
    );
}

#[test]
fn ssh_tty_is_requested_by_default_and_by_lower_t() {
    assert_eq!(
        plan_ssh(&v(&["1000@abc.toolbx", "uname"])),
        Ok(SshPlan::Exec {
            user: "1000".to_string(),
            container: "abc".to_string(),
            tty: true,
            command: v(&["uname"]),
        })
    );
    assert_eq!(
        plan_ssh(&v(&["-T", "-t", "1000@abc.toolbx", "uname"])),
        Ok(SshPlan::Exec {
            user: "1000".to_string(),
            container: "abc".to_string(),
            tty: true,
            command: v(&["uname"]),
        })
    );
}

#[test]
fn ssh_option_values_are_skipped() {
    assert_eq!(
        plan_ssh(&v(&["-p", "22", "-L", "1:2", "-o", "X=y", "1000@abc.toolbx", "ls"])),
        Ok(SshPlan::Exec {
            user: "1000".to_string(),
            container: "abc".to_string(),
            tty: true,
            command: v(&["ls"]),
        })
    );
}

#[test]
fn ssh_help_after_destination_is_part_of_the_command() {
    assert_eq!(
        plan_ssh(&v(&["1000@abc.toolbx", "--help"])),
        Ok(SshPlan::Exec {
            user: "1000".to_string(),
            container: "abc".to_string(),
            tty: true,
            command: v(&["--help"]),
        })
    );
}

#[test]
fn ssh_other_destinations_are_delegated() {
    assert_eq!(plan_ssh(&v(&["example.com", "ls"])), Ok(SshPlan::Delegate));
    assert_eq!(
        plan_ssh(&v(&["-p", "22", "user@host", "ls"])),
        Ok(SshPlan::Delegate)
    );
}

#[test]
fn podman_exec_arguments_with_tty() {
    assert_eq!(
        podman_exec_args("1000", "abc", true, &v(&["echo hi"])),
        v(&["exec", "--user", "1000", "-i", "-t", "abc", "sh", "-c", "echo hi"])
    );
}

#[test]
fn podman_exec_arguments_without_tty() {
    assert_eq!(
        podman_exec_args("1000", "abc", false, &v(&["a", "b"])),
        v(&["exec", "--user", "1000", "-i", "abc", "sh", "-c", "a", "b"])
    );
}

#[test]
fn podman_is_called_directly_when_available() {
    let c = podman_command(true, v(&["ps"]));
    assert_eq!(c.program, "podman");
    assert_eq!(c.args, v(&["ps"]));
    assert_eq!(c.path, None);
}

#[test]
fn podman_is_reached_through_flatpak_spawn_otherwise() {
    let c = podman_command(false, v(&["ps", "-a"]));
    assert_eq!(c.program, "flatpak-spawn");
    assert_eq!(c.args, v(&["--host", "podman", "ps", "-a"]));
    assert_eq!(c.path, None);
}
