use zeroclaw::bubblewrap::{
    validate_writable_path, BubblewrapSandbox, CommandLine, SandboxErrorKind,
};

fn command(program: &str, args: &[&str]) -> CommandLine {
    CommandLine {
        program: program.to_string(),
        args: args.iter().map(|a| a.to_string()).collect(),
    }
}

#[test]
fn bubblewrap_sandbox_name() {
    let sandbox = BubblewrapSandbox::default();
    assert_eq!(sandbox.name(), "bubblewrap");
}

#[test]
fn bubblewrap_is_available_only_if_installed() {
    assert!(BubblewrapSandbox::new(true).is_ok());
    assert!(BubblewrapSandbox::probe(true).is_ok());
    let err = BubblewrapSandbox::probe(false).unwrap_err();
    assert_eq!(err.kind(), SandboxErrorKind::NotFound);

    // Either way, the name should still work
    let sandbox = BubblewrapSandbox::default();
    assert_eq!(sandbox.name(), "bubblewrap");
}

#[test]
fn bubblewrap_wrap_command_includes_isolation_flags() {
    let sandbox = BubblewrapSandbox::default();
    let mut cmd = command("echo", &["hello"]);
    sandbox.wrap_command(&mut cmd);

    assert_eq!(cmd.program, "bwrap", "wrapped command should use bwrap as program");
    assert!(
        cmd.args.contains(&"--unshare-all".to_string()),
        "must include --unshare-all for namespace isolation"
    );
    assert!(
        cmd.args.contains(&"--die-with-parent".to_string()),
        "must include --die-with-parent to prevent orphan processes"
    );
    assert!(
        !cmd.args.contains(&"--share-net".to_string()),
        "must NOT include --share-net (network should be blocked by default)"
    );
}

#[test]
fn bubblewrap_wrap_command_preserves_original_command() {
    let sandbox = BubblewrapSandbox::default();
    let mut cmd = command("ls", &["-la", "/tmp"]);
    sandbox.wrap_command(&mut cmd);

    assert!(cmd.args.contains(&"ls".to_string()), "original program must be passed as argument");
    assert!(cmd.args.contains(&"-la".to_string()), "original args must be preserved");
    assert!(cmd.args.contains(&"/tmp".to_string()), "original args must be preserved");
}

#[test]
fn bubblewrap_wrap_command_binds_required_paths() {
    let sandbox = BubblewrapSandbox::default();
    let mut cmd = command("echo", &[]);
    sandbox.wrap_command(&mut cmd);

    assert!(cmd.args.contains(&"--ro-bind".to_string()), "must include read-only bind for /usr");
    assert!(cmd.args.contains(&"--dev".to_string()), "must include /dev mount");
    assert!(cmd.args.contains(&"--proc".to_string()), "must include /proc mount");
}

#[test]
fn writable_paths_added_as_bind_mounts() {
    let sandbox = BubblewrapSandbox::with_config(
        vec!["/home/user".to_string(), "/var/data".to_string()],
        false,
        true,
    )
    .unwrap();
    let mut cmd = command("echo", &[]);
    sandbox.wrap_command(&mut cmd);

    let bind_positions: Vec<usize> = cmd
        .args
        .iter()
        .enumerate()
        .filter(|(_, a)| a.as_str() == "--bind")
        .map(|(i, _)| i)
        .collect();

    // At least 3 --bind args: /tmp + /home/user + /var/data
    assert!(
        bind_positions.len() >= 3,
        "expected at least 3 --bind entries, got {}",
        bind_positions.len()
    );
    assert!(cmd.args.contains(&"/home/user".to_string()), "must bind-mount /home/user");
    assert!(cmd.args.contains(&"/var/data".to_string()), "must bind-mount /var/data");
}

#[test]
fn allow_network_adds_share_net() {
    let sandbox = BubblewrapSandbox::with_config(Vec::new(), true, true).unwrap();
    let mut cmd = command("echo", &[]);
    sandbox.wrap_command(&mut cmd);

    assert!(cmd.args.contains(&"--unshare-all".to_string()), "must still unshare-all first");
    assert!(
        cmd.args.contains(&"--share-net".to_string()),
        "must include --share-net when allow_network is true"
    );
}

#[test]
fn deny_network_by_default() {
    let sandbox = BubblewrapSandbox::default();
    let mut cmd = command("echo", &[]);
    sandbox.wrap_command(&mut cmd);

    assert!(
        !cmd.args.contains(&"--share-net".to_string()),
        "must NOT include --share-net by default"
    );
}

#[test]
fn whole_command_line() {
    let sandbox =
        BubblewrapSandbox::with_config(vec!["/srv/a".to_string()], true, true).unwrap();
    let mut cmd = command("ls", &["-la", "--share-net"]);
    sandbox.wrap_command(&mut cmd);
    assert_eq!(cmd.program, "bwrap");
    assert_eq!(
        cmd.args,
        [
            "--ro-bind", "/usr", "/usr", "--dev", "/dev", "--proc", "/proc", "--bind", "/tmp",
            "/tmp", "--bind", "/srv/a", "/srv/a", "--unshare-all", "--share-net",
            "--die-with-parent", "ls", "-la", "--share-net",
        ]
    );
}

#[test]
fn validate_rejects_relative_path() {
    let err = validate_writable_path("relative/path").unwrap_err();
    assert_eq!(err.kind(), SandboxErrorKind::InvalidInput);
    assert!(err.message().contains("absolute"), "error should mention 'absolute'");
    assert_eq!(err.message(), "sandbox writable path must be absolute: relative/path");
}

#[test]
fn validate_rejects_path_traversal() {
    let err = validate_writable_path("/home/../etc/shadow").unwrap_err();
    assert_eq!(err.kind(), SandboxErrorKind::InvalidInput);
    assert!(err.message().contains(".."), "error should mention '..'");
    assert_eq!(
        err.message(),
        "sandbox writable path must not contain '..': /home/../etc/shadow"
    );
}

#[test]
fn validate_accepts_valid_absolute_path() {
    assert!(validate_writable_path("/home/user/workspace").is_ok());
    assert!(validate_writable_path("/var/data").is_ok());
    assert!(validate_writable_path("/tmp").is_ok());
}

#[test]
fn validate_looks_at_whole_segments() {
    assert!(validate_writable_path("/").is_ok());
    assert!(validate_writable_path("/..a/a../...").is_ok());
    assert!(validate_writable_path("/a/..").is_err());
    assert!(validate_writable_path("/..").is_err());
    assert!(validate_writable_path("//../").is_err());
    assert!(validate_writable_path("").is_err());
}

#[test]
fn with_config_rejects_invalid_paths() {
    let err = validate_writable_path("not-absolute").unwrap_err();
    assert_eq!(err.kind(), SandboxErrorKind::InvalidInput);

    let paths = vec!["/ok".to_string(), "not-absolute".to_string(), "/a/../b".to_string()];
    let err = BubblewrapSandbox::with_config(paths, false, true).unwrap_err();
    assert_eq!(err.kind(), SandboxErrorKind::InvalidInput);
    assert_eq!(err.message(), "sandbox writable path must be absolute: not-absolute");
}

#[test]
fn with_config_needs_the_program_first() {
    let paths = vec!["not-absolute".to_string()];
    let err = BubblewrapSandbox::with_config(paths, false, false).unwrap_err();
    assert_eq!(err.kind(), SandboxErrorKind::NotFound);
    assert_eq!(err.message(), "Bubblewrap not found");
}

#[test]
fn description_names_the_program() {
    let sandbox = BubblewrapSandbox::default();
    assert_eq!(sandbox.description(), "User namespace sandbox (requires bwrap)");
}
