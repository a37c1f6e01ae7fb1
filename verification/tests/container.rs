use toolbx_zed::container::parse_container_id;
use toolbx_zed::error::CliError;

#[test]
fn id_is_read_from_container_description() {
    let content = "engine=\"podman-4.9.4\"\nname=\"fedora-toolbox-40\"\nid=\"4f2a9c\"\nimage=\"x\"\nrootless=1\n";
    assert_eq!(parse_container_id(content), Ok("4f2a9c".to_string()));
}

#[test]
fn last_id_line_wins() {
    assert_eq!(parse_container_id("id=first\nid=second"), Ok("second".to_string()));
}

#[test]
fn crlf_line_endings_are_stripped() {
    assert_eq!(parse_container_id("id=\"abc\"\r\nname=x\r\n"), Ok("abc".to_string()));
}

#[test]
fn carriage_return_at_the_very_end_stays() {
    assert_eq!(parse_container_id("id=abc\r"), Ok("abc\r".to_string()));
}

#[test]
fn missing_id_is_an_error() {
    let r = parse_container_id("name=x\nxid=5\n id=6\n");
    assert_eq!(r, Err(CliError::ContainerIdNotFound));
    assert_eq!(r.unwrap_err().message(), "ID not found in /run/.containerenv");
    assert_eq!(parse_container_id(""), Err(CliError::ContainerIdNotFound));
}

#[test]
fn all_surrounding_quotes_are_removed() {
    assert_eq!(parse_container_id("id=\"\"x\"\"\n"), Ok("x".to_string()));
    assert_eq!(parse_container_id("id=\n"), Ok("".to_string()));
}
