use trunk_lib::shell_env::parse_path_helper_output;

#[test]
fn parses_sh_format() {
    let input = r#"PATH="/usr/bin:/opt/homebrew/bin:/usr/sbin"; export PATH;"#;
    assert_eq!(parse_path_helper_output(input).as_deref(), Some("/usr/bin:/opt/homebrew/bin:/usr/sbin"));
}

#[test]
fn parses_csh_format() {
    let input = r#"setenv PATH "/usr/bin:/bin";"#;
    assert_eq!(parse_path_helper_output(input).as_deref(), Some("/usr/bin:/bin"));
}

#[test]
fn returns_none_on_empty() {
    assert!(parse_path_helper_output("").is_none());
}

#[test]
fn returns_none_on_no_quotes() {
    assert!(parse_path_helper_output("PATH=/usr/bin").is_none());
}

#[test]
fn returns_none_on_single_quote() {
    assert!(parse_path_helper_output(r#"PATH="/usr/bin"#).is_none());
}

#[test]
fn empty_quotes_give_empty_path() {
    assert_eq!(parse_path_helper_output(r#"PATH=""; export"#).as_deref(), Some(""));
}
