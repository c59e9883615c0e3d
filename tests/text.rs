use shopee_logs_collector::cli::{action_from_choice, create_config, Action, ConfigBuilder, DEFAULT_PORT};
use shopee_logs_collector::helpers::sanitize;

#[test]
fn sanitize_plain_text_is_kept() {
    assert_eq!(sanitize("hello world"), "hello world");
}

#[test]
fn sanitize_empty() {
    assert_eq!(sanitize(""), "");
}

#[test]
fn sanitize_replaces_separators_with_underscore() {
    assert_eq!(sanitize("a:b"), "a_b");
    assert_eq!(sanitize("bot1_2024-01-01 10:00:00 AM"), "bot1_2024-01-01 10_00_00 AM");
}

#[test]
fn sanitize_blanks_unsafe_characters_and_squeezes() {
    assert_eq!(sanitize("foo<bar>.txt"), "foo bar txt");
}

#[test]
fn sanitize_drops_leading_period() {
    assert_eq!(sanitize(".hidden"), "hidden");
    assert_eq!(sanitize("a..b"), "a.b");
}

#[test]
fn sanitize_joins_lines_with_dash() {
    assert_eq!(sanitize("a\nb"), "a-b");
    assert_eq!(sanitize("a\r\nb\n"), "a-b");
}

#[test]
fn sanitize_trims_edges_and_control_characters() {
    assert_eq!(sanitize("  __a__  "), "a");
    assert_eq!(sanitize("a\u{7}b"), "ab");
    assert_eq!(sanitize("a\tb"), "a b");
    assert_eq!(sanitize("-x-"), "x");
}

#[test]
fn action_numbers() {
    assert_eq!(action_from_choice(1), Action::RegisterService);
    assert_eq!(action_from_choice(2), Action::RemoveService);
    assert_eq!(action_from_choice(3), Action::RunService);
    assert_eq!(action_from_choice(4), Action::RunDirect);
    assert_eq!(action_from_choice(0), Action::RunDirect);
    assert_eq!(action_from_choice(-7), Action::RunDirect);
}

#[test]
fn config_defaults_port_and_needs_html_path() {
    let c = create_config(
        ConfigBuilder { action: None, port: None, html_path: Some("web".to_string()) },
        Action::RunDirect,
    )
    .unwrap();
    assert_eq!(c.port, DEFAULT_PORT);
    assert_eq!(c.port, 1729);
    assert_eq!(c.html_path, "web");
    assert_eq!(c.action, Action::RunDirect);
    let c = create_config(
        ConfigBuilder { action: None, port: Some(8080), html_path: Some("w".to_string()) },
        Action::RunService,
    )
    .unwrap();
    assert_eq!((c.port, c.action), (8080, Action::RunService));
    assert!(create_config(ConfigBuilder { action: None, port: Some(1), html_path: None }, Action::RunDirect).is_none());
}
