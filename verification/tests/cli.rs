use class_diagram::cli::parse_args;
use class_diagram::source::parse_rust_source;

fn args(v: &[&str]) -> Vec<String> {
    v.iter().map(|a| a.to_string()).collect()
}

#[test]
fn default_options() {
    let o = parse_args(&args(&["prog"]));
    assert_eq!(o.dir_to_scan, "src");
    assert!(o.generate_png);
    let o = parse_args(&args(&[]));
    assert_eq!(o.dir_to_scan, "src");
    assert!(o.generate_png);
}

#[test]
fn png_flag_and_directory() {
    let o = parse_args(&args(&["prog", "--png", "mydir"]));
    assert_eq!(o.dir_to_scan, "mydir");
    assert!(!o.generate_png);
}

#[test]
fn last_directory_wins_and_other_flags_are_ignored() {
    let o = parse_args(&args(&["prog", "first", "--verbose", "second"]));
    assert_eq!(o.dir_to_scan, "second");
    assert!(o.generate_png);
}

#[test]
fn program_name_is_not_a_directory() {
    let o = parse_args(&args(&["some/dir"]));
    assert_eq!(o.dir_to_scan, "src");
}

#[test]
fn parses_valid_rust() {
    assert!(parse_rust_source("pub struct A { x: u32 }\nfn main() {}").is_ok());
    assert!(parse_rust_source("").is_ok());
}

#[test]
fn rejects_invalid_rust() {
    assert!(parse_rust_source("struct {").is_err());
    assert!(parse_rust_source("fn f( {").is_err());
}
