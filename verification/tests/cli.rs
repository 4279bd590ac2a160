use nocruft::cli::{default_log_filter, parse_argv, CliError, NocruftFlags, PatternSet, RoutedArgs};

fn args(list: &[&str]) -> Vec<String> {
    list.iter().map(|s| s.to_string()).collect()
}

fn route(list: &[&str]) -> (Vec<String>, Vec<String>) {
    let r = parse_argv(args(list)).unwrap();
    (r.nc_args, r.child_args)
}

#[test]
fn foreign_arguments_pass_through() {
    let (nc, child) = route(&["-p", "hello", "--pure", "shell.nix", "--run", "python -c 1"]);
    assert!(nc.is_empty());
    assert_eq!(child, args(&["-p", "hello", "--pure", "shell.nix", "--run", "python -c 1"]));
}

#[test]
fn own_arguments_are_taken_out() {
    let (nc, child) = route(&["--nc-json", "-p", "--nc-verbose", "hello"]);
    assert_eq!(nc, args(&["--nc-json", "--nc-verbose"]));
    assert_eq!(child, args(&["-p", "hello"]));
}

#[test]
fn value_options_take_the_next_argument() {
    let (nc, child) = route(&["--nc-exec", "sh", "--nc-exclude", "--", "--nc-include", "-h", "x"]);
    assert_eq!(nc, args(&["--nc-exec", "sh", "--nc-exclude", "--", "--nc-include", "-h"]));
    assert_eq!(child, args(&["x"]));
}

#[test]
fn value_in_the_same_argument() {
    let (nc, child) = route(&["--nc-exec=sh", "x"]);
    assert_eq!(nc, args(&["--nc-exec=sh"]));
    assert_eq!(child, args(&["x"]));
}

#[test]
fn separator_shields_the_rest() {
    let (nc, child) = route(&["--nc-exec", "sh", "--", "-c", "--nc-json", "--", "--help"]);
    assert_eq!(nc, args(&["--nc-exec", "sh"]));
    assert_eq!(child, args(&["-c", "--nc-json", "--", "--help"]));
}

#[test]
fn bare_flags_are_own() {
    let (nc, child) = route(&["--help", "-h", "--version", "-V", "-v", "--nc"]);
    assert_eq!(nc, args(&["--help", "-h", "--version", "-V"]));
    assert_eq!(child, args(&["-v", "--nc"]));
}

#[test]
fn empty_command_line() {
    let (nc, child) = route(&[]);
    assert!(nc.is_empty() && child.is_empty());
}

#[test]
fn missing_value_is_refused() {
    let e = parse_argv(args(&["-p", "--nc-exclude"])).unwrap_err();
    assert!(matches!(&e, CliError::MissingValue { flag } if flag == "--nc-exclude"));
    assert_eq!(e.message(), "flag --nc-exclude requires a value");
}

#[test]
fn arguments_are_conserved() {
    let list = ["a", "--nc-exec", "b", "--nc-json", "c", "-h"];
    let (nc, child) = route(&list);
    let mut all: Vec<String> = nc.into_iter().chain(child).collect();
    let mut expected = args(&list);
    all.sort();
    expected.sort();
    assert_eq!(all, expected);
}

fn finish(flags: NocruftFlags) -> Result<nocruft::cli::Parsed, CliError> {
    RoutedArgs { nc_args: Vec::new(), child_args: args(&["-c", "x"]) }.finish(flags)
}

#[test]
fn child_program_defaults_to_nix_shell() {
    let p = finish(NocruftFlags::default()).unwrap();
    assert_eq!(p.child_prog, "nix-shell");
    assert_eq!(p.child_args, args(&["-c", "x"]));
    assert!(p.patterns.includes.is_empty() && p.patterns.excludes.is_empty());
}

#[test]
fn child_program_can_be_given() {
    let flags = NocruftFlags { exec_prog: Some("sh".to_string()), ..NocruftFlags::default() };
    assert_eq!(finish(flags).unwrap().child_prog, "sh");
}

#[test]
fn patterns_are_compiled() {
    let flags = NocruftFlags {
        exclude: args(&["/a/**", "*.log"]),
        force_include: args(&["/b/*"]),
        ..NocruftFlags::default()
    };
    let p = PatternSet::compile(&flags).unwrap();
    assert_eq!(p.includes.len(), 1);
    assert_eq!(p.excludes.len(), 2);
    assert_eq!(p.excludes[1].as_str(), "*.log");
}

#[test]
fn bad_pattern_is_refused() {
    let flags = NocruftFlags { exclude: args(&["ok", "a[", "***"]), ..NocruftFlags::default() };
    let e = PatternSet::compile(&flags).unwrap_err();
    let detail = glob::Pattern::new("a[").unwrap_err().to_string();
    assert_eq!(e.message(), format!("invalid --nc-exclude pattern \"a[\": {}", detail));
}

#[test]
fn bad_wanted_pattern_is_reported_first() {
    let flags = NocruftFlags {
        exclude: args(&["***"]),
        force_include: args(&["x", "**a\"\n"]),
        ..NocruftFlags::default()
    };
    let e = finish(flags).unwrap_err();
    assert!(e.message().starts_with("invalid --nc-include pattern \"**a\\\"\\n\": Pattern syntax"));
}

#[test]
fn no_patterns() {
    let p = PatternSet::default();
    assert!(p.includes.is_empty() && p.excludes.is_empty());
}

#[test]
fn log_filter() {
    assert_eq!(default_log_filter(true), "debug");
    assert_eq!(default_log_filter(false), "warn");
}
