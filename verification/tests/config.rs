use testkit::config::get_cli_path;
use testkit::config::ConfigError;

#[test]
fn reads_the_first_line() {
    assert_eq!(get_cli_path(b"my_cli"), Ok("my_cli".to_string()));
    assert_eq!(get_cli_path(b"my_cli\nsecond line"), Ok("my_cli".to_string()));
}

#[test]
fn strips_a_carriage_return_before_the_line_feed() {
    assert_eq!(get_cli_path(b"my_cli\r\nrest"), Ok("my_cli".to_string()));
    // A carriage return not followed by a line feed stays in the line.
    assert_eq!(get_cli_path(b"my_cli\r"), Ok("my_cli\r".to_string()));
}

#[test]
fn errors_if_config_is_empty() {
    assert_eq!(get_cli_path(b""), Err(ConfigError::Empty));
    // A lone line feed is an empty first line, not an empty config.
    assert_eq!(get_cli_path(b"\n"), Ok(String::new()));
}

#[test]
fn errors_if_first_line_is_invalid_utf8() {
    assert_eq!(get_cli_path(&[0xFF]), Err(ConfigError::InvalidUtf8));
    assert_eq!(get_cli_path(&[0xFF, b'\n', b'o', b'k']), Err(ConfigError::InvalidUtf8));
    // Invalid bytes after the first line do not matter.
    assert_eq!(get_cli_path(&[b'o', b'k', b'\n', 0xFF]), Ok("ok".to_string()));
}
