use calcifer::shell::{CommandShell, ShellStep};

fn shell() -> CommandShell {
    CommandShell::new(String::from("/home/penwing/Documents"))
}

#[test]
fn cd_root_is_denied() {
    let mut sh = shell();
    let step = sh.run(String::from("cd /"));
    assert!(matches!(step, ShellStep::Done));
    assert_eq!(sh.working_dir, "/home/penwing/Documents");
    assert_eq!(sh.history.len(), 1);
    assert_eq!(sh.history[0].error, "Root access denied");
    assert_eq!(sh.history[0].output, "");
    assert_eq!(sh.history[0].command, "cd /");
}

#[test]
fn cd_tilde_expands_to_home() {
    let mut sh = shell();
    let step = sh.run(String::from("cd ~"));
    match step {
        ShellStep::NeedsChdir(path) => {
            assert_eq!(path, "/home/penwing");
            sh.finish_chdir(String::from("cd ~"), path, true);
        },
        _ => panic!("expected a directory change request"),
    }
    assert_eq!(sh.working_dir, "/home/penwing");
    assert_eq!(sh.history[0].output, "Moved to: /home/penwing");
    assert_eq!(sh.history[0].error, "");
}

#[test]
fn cd_tilde_subdir_expands() {
    let mut sh = shell();
    let step = sh.run(String::from("cd ~/projects"));
    match step {
        ShellStep::NeedsChdir(path) => assert_eq!(path, "/home/penwing/projects"),
        _ => panic!("expected a directory change request"),
    }
}

#[test]
fn bare_cd_is_invalid() {
    let mut sh = shell();
    assert!(matches!(sh.run(String::from("cd")), ShellStep::Done));
    assert_eq!(sh.history[0].error, "Invalid cd, should provide path");
    assert!(matches!(sh.run(String::from("cd ")), ShellStep::Done));
    assert_eq!(sh.history[1].error, "Invalid cd, should provide path");
    assert_eq!(sh.working_dir, "/home/penwing/Documents");
}

#[test]
fn short_commands_run_verbatim() {
    let mut sh = shell();
    match sh.run(String::from("c")) {
        ShellStep::NeedsSpawn(c) => assert_eq!(c, "c"),
        _ => panic!("expected a spawn request"),
    }
    match sh.run(String::from("ls -l")) {
        ShellStep::NeedsSpawn(c) => assert_eq!(c, "ls -l"),
        _ => panic!("expected a spawn request"),
    }
    assert_eq!(sh.history.len(), 0);
}

#[test]
fn failed_chdir_reports_missing_path() {
    let mut sh = shell();
    match sh.run(String::from("cd /nope")) {
        ShellStep::NeedsChdir(path) => {
            assert_eq!(path, "/nope");
            sh.finish_chdir(String::from("cd /nope"), path, false);
        },
        _ => panic!("expected a directory change request"),
    }
    assert_eq!(sh.working_dir, "/home/penwing/Documents");
    assert_eq!(sh.history[0].error, "Could not find path: /nope");
    assert_eq!(sh.history[0].output, "");
}

#[test]
fn spawn_output_trims_exactly_one_newline() {
    let mut sh = shell();
    sh.finish_spawn(
        String::from("echo hi"),
        String::from("hi\n"),
        String::from(""),
    );
    assert_eq!(sh.history[0].output, "hi");
    assert_eq!(sh.history[0].error, "");
    sh.finish_spawn(
        String::from("printf x"),
        String::from("x\n\n"),
        String::from("warn\n"),
    );
    assert_eq!(sh.history[1].output, "x\n");
    assert_eq!(sh.history[1].error, "warn");
}

#[test]
fn history_is_append_only_and_ordered() {
    let mut sh = shell();
    sh.run(String::from("cd"));
    sh.run(String::from("cd /"));
    sh.finish_spawn(String::from("ls"), String::from("a\n"), String::from(""));
    assert_eq!(sh.history.len(), 3);
    assert_eq!(sh.history[0].command, "cd");
    assert_eq!(sh.history[1].command, "cd /");
    assert_eq!(sh.history[2].command, "ls");
}

#[test]
fn entry_env_shows_trailing_directories() {
    let mut sh = shell();
    sh.run(String::from("cd"));
    assert_eq!(sh.history[0].env, "home/penwing/Documents>");
    let mut sh2 = CommandShell::new(String::from("/a/b/c/d/e"));
    sh2.run(String::from("cd"));
    assert_eq!(sh2.history[0].env, "c/d/e>");
}

#[test]
fn every_tilde_is_expanded() {
    let mut sh = shell();
    match sh.run(String::from("cd ~/a~b")) {
        ShellStep::NeedsChdir(path) => {
            assert_eq!(path, "/home/penwing/a/home/penwingb");
        },
        _ => panic!("expected a directory change request"),
    }
}

#[test]
fn cd_with_double_slash_root_is_not_denied() {
    let mut sh = shell();
    match sh.run(String::from("cd //")) {
        ShellStep::NeedsChdir(path) => assert_eq!(path, "//"),
        _ => panic!("expected a directory change request"),
    }
}
