use funject::{parse_args, CliError, Options};

fn args(list: &[&str]) -> Vec<String> {
    list.iter().map(|a| a.to_string()).collect()
}

fn nothing() -> Options {
    Options {
        help: false,
        inject: false,
        quiet: false,
        follow_inc: false,
        dir: None,
        skip: None,
        files: vec![],
    }
}

#[test]
fn no_arguments_ask_for_nothing() {
    assert_eq!(parse_args(&[]), Ok(nothing()));
}

#[test]
fn plain_arguments_are_files() {
    let parsed = parse_args(&args(&["a.cpp", "dir/b.h"])).unwrap();
    assert_eq!(parsed, Options { files: args(&["a.cpp", "dir/b.h"]), ..nothing() });
}

#[test]
fn switches_count_wherever_they_stand() {
    let parsed = parse_args(&args(&["a.cpp", "--quiet", "b.cpp", "--inject", "--follow-inc"])).unwrap();
    assert_eq!(
        parsed,
        Options {
            inject: true,
            quiet: true,
            follow_inc: true,
            files: args(&["a.cpp", "b.cpp"]),
            ..nothing()
        }
    );
}

#[test]
fn help_has_two_spellings() {
    assert!(parse_args(&args(&["--help"])).unwrap().help);
    assert!(parse_args(&args(&["x.c", "-h"])).unwrap().help);
    assert!(!parse_args(&args(&["-help", "--h", "help"])).unwrap().help);
}

#[test]
fn dir_and_skip_take_the_next_argument() {
    let parsed = parse_args(&args(&["--dir", "src", "--skip", "third_party"])).unwrap();
    assert_eq!(parsed.dir, Some("src".to_string()));
    assert_eq!(parsed.skip, Some("third_party".to_string()));
    assert!(!parsed.inject);
}

#[test]
fn the_first_dir_counts() {
    let parsed = parse_args(&args(&["--dir", "one", "--dir", "two"])).unwrap();
    assert_eq!(parsed.dir, Some("one".to_string()));
}

#[test]
fn a_value_may_look_like_a_switch() {
    let parsed = parse_args(&args(&["--dir", "--quiet", "a.c"])).unwrap();
    assert_eq!(parsed.dir, Some("--quiet".to_string()));
    assert!(parsed.quiet);
    assert_eq!(parsed.files, args(&["a.c"]));
}

#[test]
fn switches_and_their_values_are_no_files() {
    let parsed = parse_args(&args(&["--dir", "src", "--skip", "gen", "a.c"])).unwrap();
    assert_eq!(parsed.files, args(&["a.c"]));
    assert_eq!(parsed.dir, Some("src".to_string()));
    assert_eq!(parsed.skip, Some("gen".to_string()));
}

#[test]
fn skip_is_read_without_a_directory() {
    let parsed = parse_args(&args(&["a.c", "--skip", "gen", "gen/b.c", "--quiet", "c.c"])).unwrap();
    assert_eq!(parsed.skip, Some("gen".to_string()));
    assert_eq!(parsed.dir, None);
    assert_eq!(parsed.files, args(&["a.c", "gen/b.c", "c.c"]));
    assert!(parsed.quiet);
}

#[test]
fn what_stands_behind_a_later_dir_or_skip_is_no_file_either() {
    let parsed = parse_args(&args(&["--dir", "one", "--dir", "two", "x.c", "--skip", "p", "--skip", "q"]))
        .unwrap();
    assert_eq!(parsed.dir, Some("one".to_string()));
    assert_eq!(parsed.skip, Some("p".to_string()));
    assert_eq!(parsed.files, args(&["x.c"]));
}

#[test]
fn dir_without_a_directory_is_refused() {
    assert_eq!(parse_args(&args(&["a.c", "--dir"])), Err(CliError::MissingDirectory));
    assert_eq!(parse_args(&args(&["--skip", "--dir"])), Err(CliError::MissingDirectory));
}

#[test]
fn skip_without_a_pattern_is_refused() {
    assert_eq!(parse_args(&args(&["--dir", "src", "--skip"])), Err(CliError::MissingPattern));
    assert_eq!(parse_args(&args(&["--skip"])), Err(CliError::MissingPattern));
}

#[test]
fn help_is_answered_whatever_else_is_missing() {
    let parsed = parse_args(&args(&["--help", "--dir"])).unwrap();
    assert!(parsed.help);
    assert_eq!(parsed.dir, None);
    let parsed = parse_args(&args(&["--skip", "-h", "--skip"])).unwrap();
    assert!(parsed.help);
    assert_eq!(parsed.skip, Some("-h".to_string()));
}
