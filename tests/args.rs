use lambda::args::{ArgError, Args};
use lambda::variable::Type;

fn strings(v: &[&str]) -> Vec<String> {
    v.iter().map(|s| s.to_string()).collect()
}

#[test]
fn reads_flags_and_script() {
    let a = Args::from_cmd(&strings(&["lam", "-h", "prog.lam", "--version"])).unwrap();
    assert_eq!(a.program, "lam");
    assert!(a.show_help);
    assert!(a.show_version);
    assert_eq!(a.file, Some("prog.lam".to_string()));
}

#[test]
fn no_arguments() {
    let a = Args::from_cmd(&strings(&["lam"])).unwrap();
    assert!(!a.show_help && !a.show_version);
    assert_eq!(a.file, None);
    let a = Args::from_cmd(&Vec::new()).unwrap();
    assert_eq!(a.program, "<program>");
}

#[test]
fn unknown_flag_is_rejected() {
    match Args::from_cmd(&strings(&["lam", "-x"])) {
        Err(ArgError::UnknownFlag(f)) => assert_eq!(f.0, "-x"),
        other => panic!("unexpected {:?}", other),
    }
}

#[test]
fn second_script_is_rejected() {
    match Args::from_cmd(&strings(&["lam", "a", "b"])) {
        Err(ArgError::UnexpectedArg(f)) => assert_eq!(f.0, "b"),
        other => panic!("unexpected {:?}", other),
    }
}

#[test]
fn unsigned_type_name() {
    assert_eq!(5u32.get_name(), "unsigned");
}
