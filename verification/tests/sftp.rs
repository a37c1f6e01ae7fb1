use toolbx_zed::error::CliError;
use toolbx_zed::sftp::{parse_batch_command, plan_sftp, podman_chown_args, podman_copy_args, SftpPlan};

fn v(xs: &[&str]) -> Vec<String> {
    xs.iter().map(|s| s.to_string()).collect()
}

fn upload(l: &str, r: &str) -> Result<(String, String), CliError> {
    Ok((l.to_string(), r.to_string()))
}

#[test]
fn sftp_help_is_recognised() {
    assert_eq!(plan_sftp(&v(&["--help"])), Ok(SftpPlan::Help));
}

#[test]
fn sftp_without_destination_is_refused() {
    let r = plan_sftp(&v(&["-P", "2222"]));
    assert_eq!(r, Err(CliError::NoSftpDestination));
    assert_eq!(
        r.unwrap_err().message(),
        "ERROR: No destination specified for sftp command"
    );
    assert_eq!(plan_sftp(&v(&[])), Err(CliError::NoSftpDestination));
}

#[test]
fn sftp_toolbx_destination_uploads_into_container() {
    assert_eq!(
        plan_sftp(&v(&["-b", "-", "1000@abc.toolbx"])),
        Ok(SftpPlan::Upload {
            user: "1000".to_string(),
            container: "abc".to_string()
        })
    );
    assert_eq!(
        plan_sftp(&v(&["-o", "X=y", "1000@abc.toolbx", "--help"])),
        Ok(SftpPlan::Upload {
            user: "1000".to_string(),
            container: "abc".to_string()
        })
    );
}

#[test]
fn sftp_other_destinations_are_delegated() {
    assert_eq!(
        plan_sftp(&v(&["-o", "Port=22", "-P", "22", "user@host"])),
        Ok(SftpPlan::Delegate)
    );
}

#[test]
fn batch_put_with_quoted_paths() {
    assert_eq!(
        parse_batch_command("put -r \"/tmp/a\" \"/home/u/b\"\n"),
        upload("/tmp/a", "/home/u/b")
    );
}

#[test]
fn batch_put_without_recursion() {
    assert_eq!(parse_batch_command("put local remote"), upload("local", "remote"));
    assert_eq!(
        parse_batch_command("  put\tlocal   remote  extra \n"),
        upload("local", "remote")
    );
}

#[test]
fn batch_recursive_flag_changes_nothing() {
    assert_eq!(
        parse_batch_command("put -r x y"),
        parse_batch_command("put x y")
    );
}

#[test]
fn batch_with_too_few_words_is_refused() {
    let r = parse_batch_command("put a");
    assert_eq!(r, Err(CliError::InvalidBatchCommand));
    assert_eq!(r.unwrap_err().message(), "Invalid batch command format");
    assert_eq!(parse_batch_command(""), Err(CliError::InvalidBatchCommand));
    assert_eq!(parse_batch_command("   \n"), Err(CliError::InvalidBatchCommand));
}

#[test]
fn batch_other_commands_are_refused() {
    let r = parse_batch_command("get a b");
    assert_eq!(r, Err(CliError::UnsupportedBatchCommand("get".to_string())));
    assert_eq!(r.unwrap_err().message(), "Unsupported batch command: get");
}

#[test]
fn batch_paths_lose_all_surrounding_quotes() {
    assert_eq!(
        parse_batch_command("put \"\"a\" b\"\""),
        upload("a", "b")
    );
}

#[test]
fn podman_copy_arguments() {
    assert_eq!(
        podman_copy_args("abc", "/tmp/a", "/home/u/b"),
        v(&["cp", "/tmp/a", "abc:/home/u/b"])
    );
}

#[test]
fn podman_chown_arguments() {
    assert_eq!(
        podman_chown_args("abc", "1000", "/home/u/b"),
        v(&["exec", "abc", "sh", "-c", "chown -R 1000:1000 /home/u/b"])
    );
}
