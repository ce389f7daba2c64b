use meow::operations::{confirms, parse_command, parse_install_args, Command};

fn args(v: &[&str]) -> Vec<String> {
    v.iter().map(|s| s.to_string()).collect()
}

#[test]
fn commands() {
    assert_eq!(parse_command(&args(&["meow"])), Command::Banner);
    assert_eq!(parse_command(&args(&["meow", "install", "bash"])), Command::Install);
    assert_eq!(parse_command(&args(&["meow", "sync"])), Command::Sync);
    assert_eq!(parse_command(&args(&["meow", "remove"])), Command::Invalid);
    assert_eq!(parse_command(&args(&["meow", "-h"])), Command::Invalid);
}

#[test]
fn install_options_and_packages() {
    let r = parse_install_args(&args(&["meow", "install", "bash", "-y", "zsh", "--sync"]));
    assert!(r.auto_confirm);
    assert!(r.sync_db);
    assert!(!r.reinstall_dependencies);
    assert_eq!(r.packages, args(&["bash", "zsh"]));

    let r = parse_install_args(&args(&["meow", "install", "-rd", "--auto-confirm", "-s", "vim"]));
    assert!(r.auto_confirm && r.sync_db && r.reinstall_dependencies);
    assert_eq!(r.packages, args(&["vim"]));

    let r = parse_install_args(&args(&["meow", "install", "--reinstall-deps"]));
    assert!(r.reinstall_dependencies && !r.auto_confirm && !r.sync_db);
    assert!(r.packages.is_empty());
}

#[test]
fn install_without_operands() {
    for a in [args(&["meow", "install"]), args(&["meow"]), args(&[])] {
        let r = parse_install_args(&a);
        assert!(!r.auto_confirm && !r.sync_db && !r.reinstall_dependencies);
        assert!(r.packages.is_empty());
    }
}

#[test]
fn unknown_dashes_are_package_names() {
    let r = parse_install_args(&args(&["meow", "install", "-Y", "--yes"]));
    assert!(!r.auto_confirm);
    assert_eq!(r.packages, args(&["-Y", "--yes"]));
}

#[test]
fn confirmation_answers() {
    assert!(confirms("y\n"));
    assert!(confirms("Y"));
    assert!(confirms("  y  \n"));
    assert!(confirms("\n"));
    assert!(confirms(""));
    assert!(!confirms("n\n"));
    assert!(!confirms("yes\n"));
    assert!(!confirms("N"));
    assert!(!confirms("y y"));
}
