use texpack::cli::{parse_args, read_flag, ArgError, Flag};

fn args(list: &[&str]) -> Vec<String> {
    list.iter().map(|s| s.to_string()).collect()
}

#[test]
fn flags_in_any_order_with_defaults() {
    let opts = parse_args(&args(&["-o", "out/x.png", "-2", "b.png", "-0", "a.png"])).unwrap();
    assert_eq!(opts.output, "out/x.png");
    assert_eq!(opts.sources, vec![Some("a.png".to_string()), None, Some("b.png".to_string()), None]);
    assert_eq!(opts.swizzle, "bbbw");
    assert_eq!(opts.select, "rrrr");
}

#[test]
fn later_flag_wins() {
    let opts = parse_args(&args(&["-s", "01", "-m", "ga", "-o", "a", "-s", "0bw", "-o", "b"])).unwrap();
    assert_eq!(opts.swizzle, "0bw");
    assert_eq!(opts.select, "ga");
    assert_eq!(opts.output, "b");
}

#[test]
fn argument_errors() {
    assert_eq!(parse_args(&args(&["-o"])).unwrap_err(), ArgError::OddCount { count: 1 });
    assert_eq!(parse_args(&args(&["-0", "a", "-x", "b"])).unwrap_err(), ArgError::UnknownFlag { index: 2 });
    assert_eq!(parse_args(&args(&["-0", "a"])).unwrap_err(), ArgError::MissingOutput);
    assert_eq!(parse_args(&args(&[])).unwrap_err(), ArgError::MissingOutput);
}

#[test]
fn flag_spelling() {
    assert_eq!(read_flag("-3"), Some(Flag::Source(3)));
    assert_eq!(read_flag("-m"), Some(Flag::Select));
    assert_eq!(read_flag("-4"), None);
    assert_eq!(read_flag("--o"), None);
    assert_eq!(read_flag("o"), None);
}
