use toolbx_zed::dest::parse_ssh_dest;

fn pair(u: &str, c: &str) -> Option<(String, String)> {
    Some((u.to_string(), c.to_string()))
}

#[test]
fn toolbx_destination_is_split_into_user_and_container() {
    assert_eq!(parse_ssh_dest("1000@4f2a9c.toolbx"), pair("1000", "4f2a9c"));
}

#[test]
fn destination_without_toolbx_suffix_is_not_recognised() {
    assert_eq!(parse_ssh_dest("user@example.com"), None);
}

#[test]
fn destination_without_user_is_not_recognised() {
    assert_eq!(parse_ssh_dest("4f2a9c.toolbx"), None);
}

#[test]
fn first_at_sign_separates_the_user() {
    assert_eq!(parse_ssh_dest("a@b@c.toolbx"), pair("a", "b@c"));
}

#[test]
fn first_toolbx_marker_ends_the_container() {
    assert_eq!(parse_ssh_dest("u@c.toolbx.toolbx"), pair("u", "c"));
    assert_eq!(parse_ssh_dest("u@c.toolbx/var/home"), pair("u", "c"));
}

#[test]
fn empty_user_and_container_are_accepted() {
    assert_eq!(parse_ssh_dest("@c.toolbx"), pair("", "c"));
    assert_eq!(parse_ssh_dest("u@.toolbx"), pair("u", ""));
}

#[test]
fn toolbx_marker_before_the_at_sign_does_not_count() {
    assert_eq!(parse_ssh_dest("x.toolbx@host"), None);
}

#[test]
fn destination_round_trip_on_concrete_values() {
    let user = "1000";
    let container = "0123456789abcdef";
    let dest = format!("{}@{}.toolbx", user, container);
    assert_eq!(parse_ssh_dest(&dest), pair(user, container));
    let with_path = format!("{}/var/home/me", dest);
    assert_eq!(parse_ssh_dest(&with_path), pair(user, container));
}
