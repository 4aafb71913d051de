use anyserve::cli::{chars_of, parse_args, parse_port, worker_args, CliOptions, DEFAULT_PORT};

fn args(xs: &[&str]) -> Vec<String> {
    xs.iter().map(|s| s.to_string()).collect()
}

#[test]
fn no_arguments_give_defaults() {
    let o = parse_args(&args(&["anyserve"]));
    assert_eq!(o, CliOptions { target: String::new(), port: 8080 });
    assert_eq!(DEFAULT_PORT, 8080);
}

#[test]
fn port_and_target_are_read() {
    let o = parse_args(&args(&["anyserve", "--port", "9001", "app:model"]));
    assert_eq!(o, CliOptions { target: "app:model".to_string(), port: 9001 });
    let o = parse_args(&args(&["anyserve", "app:model", "--port", "+7"]));
    assert_eq!(o, CliOptions { target: "app:model".to_string(), port: 7 });
}

#[test]
fn first_positional_wins_and_options_are_skipped() {
    let o = parse_args(&args(&["anyserve", "-v", "first", "second"]));
    assert_eq!(o.target, "first");
    assert_eq!(o.port, 8080);
}

#[test]
fn bad_port_falls_back_to_default() {
    let o = parse_args(&args(&["anyserve", "--port", "9001", "--port", "abc"]));
    assert_eq!(o.port, 8080);
    let o = parse_args(&args(&["anyserve", "--port", "70000"]));
    assert_eq!(o.port, 8080);
    let o = parse_args(&args(&["anyserve", "--port"]));
    assert_eq!(o, CliOptions { target: String::new(), port: 8080 });
}

#[test]
fn port_numbers() {
    assert_eq!(parse_port(&"0".to_string()), Some(0));
    assert_eq!(parse_port(&"65535".to_string()), Some(65535));
    assert_eq!(parse_port(&"65536".to_string()), None);
    assert_eq!(parse_port(&"007".to_string()), Some(7));
    assert_eq!(parse_port(&"".to_string()), None);
    assert_eq!(parse_port(&"+".to_string()), None);
    assert_eq!(parse_port(&"-1".to_string()), None);
    assert_eq!(parse_port(&"8o".to_string()), None);
    assert_eq!(parse_port(&"99999999999".to_string()), None);
}

#[test]
fn characters_of_a_string() {
    assert_eq!(chars_of(&"añb".to_string()), vec!['a', 'ñ', 'b']);
}

#[test]
fn worker_arguments_by_precedence() {
    assert_eq!(
        worker_args(&"app:model".to_string(), Some("w.py".to_string()), None),
        args(&["-m", "anyserve_worker.loader", "app:model"])
    );
    assert_eq!(
        worker_args(&String::new(), Some("w.py".to_string()), Some("mod".to_string())),
        args(&["w.py"])
    );
    assert_eq!(worker_args(&String::new(), None, Some("mod".to_string())), args(&["-m", "mod"]));
    assert_eq!(worker_args(&String::new(), None, None), args(&["-m", "anyserve_worker"]));
}
