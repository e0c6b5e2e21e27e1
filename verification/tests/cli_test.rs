use lsoff_rs::cli::{parse_args, usage, Config, VERSION};
use lsoff_rs::{is_confirmed, kill_prompt, none_found, ExitError};

#[test]
fn test_parse_args_empty() {
    let cfg = parse_args(&Vec::<&str>::new()).unwrap();
    assert_eq!(cfg, Config::default());
}

#[test]
fn test_parse_args_port_and_flags() {
    let cfg = parse_args(&["-t", "--json", "8080"]).unwrap();
    assert_eq!(cfg.port, Some(8080));
    assert!(cfg.tcp);
    assert!(!cfg.udp);
    assert!(cfg.json);
}

#[test]
fn test_parse_args_kill() {
    let cfg = parse_args(&["-k", "-y", "80"]).unwrap();
    assert!(cfg.kill);
    assert!(cfg.yes);
    assert_eq!(cfg.port, Some(80));

    assert!(parse_args(&["-k"]).is_err());
    assert!(parse_args(&["-k", "--json", "80"]).is_err());
    assert!(parse_args(&["-y"]).is_err());
}

#[test]
fn test_parse_args_invalid() {
    assert!(parse_args(&["8080", "80"]).is_err());
    assert!(parse_args(&["--nope"]).is_err());
}

#[test]
fn test_parse_args_query() {
    let cfg = parse_args(&["nginx"]).unwrap();
    assert_eq!(cfg.query, "nginx");
    assert_eq!(cfg.port, None);

    let cfg = parse_args(&["-q", "node 8080", "-t"]).unwrap();
    assert_eq!(cfg.query, "node 8080");
    assert!(cfg.tcp);

    let cfg = parse_args(&["--query=Chrome"]).unwrap();
    assert_eq!(cfg.query, "Chrome");
}

#[test]
fn parse_args_error_messages() {
    let e = parse_args(&["--nope"]).unwrap_err();
    assert!(e.starts_with("unknown flag --nope\n\n"));
    assert!(e.ends_with(usage()));
    let e = parse_args(&["-q"]).unwrap_err();
    assert!(e.starts_with("-q requires a value\n\n"));
    let e = parse_args(&["8080", "80"]).unwrap_err();
    assert!(e.starts_with("too many arguments\n\n"));
    let e = parse_args(&["-k"]).unwrap_err();
    assert!(e.starts_with("-k requires a port\n\n"));
    assert_eq!(
        parse_args(&["-k", "--json", "80"]).unwrap_err(),
        format!("cannot combine -k and --json\n\n{}", usage())
    );
    assert_eq!(
        parse_args(&["-y"]).unwrap_err(),
        format!("-y can only be used with -k\n\n{}", usage())
    );
    assert_eq!(
        parse_args(&["-q", "node", "web"]).unwrap_err(),
        format!("too many search terms (use quotes: \"node web\")\n\n{}", usage())
    );
}

#[test]
fn parse_args_help_and_version_stop_reading() {
    let cfg = parse_args(&["-k", "-h", "--nope"]).unwrap();
    assert!(cfg.help);
    assert!(cfg.kill);
    let cfg = parse_args(&["--version"]).unwrap();
    assert!(cfg.version);
}

#[test]
fn parse_args_port_forms() {
    assert_eq!(parse_args(&["+443"]).unwrap().port, Some(443));
    assert_eq!(parse_args(&["65535"]).unwrap().port, Some(65535));
    let cfg = parse_args(&["65536"]).unwrap();
    assert_eq!(cfg.port, None);
    assert_eq!(cfg.query, "65536");
    assert_eq!(parse_args(&["-q=abc"]).unwrap().query, "abc");
    assert_eq!(parse_args(&["-u"]).unwrap().udp, true);
}

#[test]
fn usage_mentions_flags() {
    assert!(usage().contains("Usage:"));
    assert!(usage().contains("-k, --kill"));
    assert_eq!(VERSION, "0.1.3");
}

#[test]
fn none_found_messages() {
    let mut cfg = Config::default();
    assert_eq!(none_found(&cfg), "no listeners");
    cfg.port = Some(80);
    assert_eq!(none_found(&cfg), "no listeners on port 80");
    cfg.query = "node".to_string();
    assert_eq!(none_found(&cfg), "no listeners on port 80 matching \"node\"");
    cfg.port = None;
    cfg.query = "a\"b".to_string();
    assert_eq!(none_found(&cfg), "no listeners matching \"a\\\"b\"");
}

#[test]
fn kill_prompt_and_answers() {
    assert_eq!(kill_prompt(&[42]), "Kill 1 process [42]? [y/N] ");
    assert_eq!(kill_prompt(&[1, 2, 3]), "Kill 3 processes [1, 2, 3]? [y/N] ");
    assert!(is_confirmed("y\n"));
    assert!(is_confirmed("  YES \n"));
    assert!(!is_confirmed("n\n"));
    assert!(!is_confirmed("yeah\n"));
    assert!(!is_confirmed(""));
}

#[test]
fn exit_error_keeps_code_and_message() {
    let e = ExitError::new(2, "boom");
    assert_eq!(e.code, 2);
    assert_eq!(e.msg, "boom");
}
