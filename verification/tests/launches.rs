use nono_guard::launch::{
    build_env, check_request, child_step, exit_code_of, finish_exec, get_thread_count,
    prepare_exec, prepare_fork_context, resolve_program, trim, wait_step, Blame, ChildAction,
    ChildEvent, ChildFailure, ExecError, ExecRequest, ExecResult, ForkContext, ThreadCountError,
    Place, Timeout, WaitAction, WaitEvent, WorkingDirectory,
};
use nono_guard::table::Table;

fn s(t: &str) -> String {
    String::from(t)
}

fn pair(k: &str, v: &str) -> (String, String) {
    (s(k), s(v))
}

fn b(t: &str) -> Vec<u8> {
    t.as_bytes().to_vec()
}

fn bytes(k: &str, v: &str) -> (Vec<u8>, Vec<u8>) {
    (b(k), b(v))
}

fn present(entries: &[(&str, bool)]) -> Table<Place> {
    let mut t: Table<Place> = Table::new();
    for (path, there) in entries {
        t.insert(s(path), Place { exists: *there, is_file: *there });
    }
    t
}

#[test]
fn a_result_is_shown_by_its_lengths() {
    let r = ExecResult { stdout: vec![1, 2, 3], stderr: Vec::new(), exit_code: -9 };
    assert_eq!(r.__repr__(), "ExecResult(exit_code=-9, stdout_len=3, stderr_len=0)");
}

#[test]
fn threads_are_counted_in_the_status() {
    let count = |t: &str| get_thread_count(Ok(s(t)));
    assert_eq!(count("Name:\tx\nThreads:\t12\nSigQ:\t0/1\n").unwrap(), 12);
    assert_eq!(count("Threads: 1\r\n").unwrap(), 1);
    assert_eq!(count("Threads:5\nThreads:x\n").unwrap(), 5);
    assert_eq!(count("Threads:\tx\nThreads:\t3\n").unwrap_err().message(), "Cannot parse thread count");
    assert_eq!(
        count("Name: x\n Threads: 3\n").unwrap_err().message(),
        "Threads field not found in /proc/self/status"
    );
    assert_eq!(
        get_thread_count(Err(s("denied"))).unwrap_err().message(),
        "Cannot read /proc/self/status: denied"
    );
}

#[test]
fn trimming_is_as_in_std() {
    for t in ["", " ", "a", " a ", "\t a b \n", "\u{a0}x\u{3000}", "\u{200b}x", "\u{2003}\u{85}y\u{1680}"] {
        assert_eq!(trim(t), t.trim(), "{:?}", t);
    }
}

#[test]
fn white_space_is_as_in_std() {
    for n in 0..0x3100u32 {
        if let Some(c) = char::from_u32(n) {
            let t = format!("{}x{}", c, c);
            assert_eq!(trim(&t), t.trim(), "{:x}", n);
        }
    }
}

#[test]
fn requests_are_checked_in_order() {
    let command = vec![s("ls")];
    let refused = |c: &[String], t: Timeout, n: Option<Result<usize, ThreadCountError>>| {
        let e = check_request(c, t, n).unwrap_err();
        (e.message(), e.blame())
    };
    assert_eq!(
        refused(&[], Timeout::Bad(s("-1")), None),
        (s("command must not be empty"), Blame::Value)
    );
    assert_eq!(
        refused(&command, Timeout::Bad(s("NaN")), Some(Ok(99))),
        (s("timeout_secs must be non-negative, got NaN"), Blame::Value)
    );
    assert_eq!(
        refused(&command, Timeout::Limited, Some(Ok(33))),
        (
            s("Too many threads (33) for safe fork. Reduce thread count before calling sandboxed_exec."),
            Blame::Runtime
        )
    );
    assert_eq!(
        refused(&command, Timeout::Unlimited, Some(Err(ThreadCountError::NoField))),
        (
            s("Failed to check thread count: Threads field not found in /proc/self/status"),
            Blame::Runtime
        )
    );
    assert!(check_request(&command, Timeout::Limited, Some(Ok(32))).is_ok());
    assert!(check_request(&command, Timeout::Unlimited, None).is_ok());
}

#[test]
fn programs_are_looked_for_in_path() {
    let path = Some(s("/usr/bin:/bin::/opt/"));
    let known = present(&[
        ("/usr/bin/ls", false), ("/bin/ls", true), ("ls", true), ("/opt/ls", true),
        ("/usr/bin/x", false), ("/bin/x", false), ("x", false), ("/opt/x", false),
        ("/usr/bin/y", false), ("/bin/y", false), ("y", true),
        ("/usr/bin/z", false), ("/bin/z", false), ("z", false), ("/opt/z", true),
    ]);
    let find = |p: &str| resolve_program(p, &path, b"/home/me", &known);
    assert_eq!(find("ls").unwrap(), b("/bin/ls"));
    assert_eq!(find("y").unwrap(), b("/home/me/y"));
    assert_eq!(find("z").unwrap(), b("/opt/z"));
    assert_eq!(find("x").unwrap_err().message(), "Program not found in PATH: x");
    assert!(matches!(find("new").unwrap_err(), ExecError::ProbeNeeded(p) if p == "/usr/bin/new"));
    assert_eq!(
        resolve_program("ls", &None, b"/home/me", &known).unwrap_err().message(),
        "Program not found in PATH: ls"
    );
}

#[test]
fn programs_with_a_slash_are_paths() {
    let known = present(&[("./run", true), ("/bin/no", false)]);
    let find = |p: &str| resolve_program(p, &Some(s("/bin")), b"/home/me", &known);
    assert_eq!(find("./run").unwrap(), b("/home/me/./run"));
    assert_eq!(find("/bin/no").unwrap_err().message(), "Program not found: /bin/no");
    assert!(matches!(find("a/b").unwrap_err(), ExecError::ProbeNeeded(p) if p == "a/b"));
}

#[test]
fn a_directory_is_no_program_in_path() {
    let mut known: Table<Place> = Table::new();
    known.insert(s("/usr/bin/ls"), Place { exists: true, is_file: false });
    known.insert(s("/bin/ls"), Place { exists: true, is_file: true });
    let path = Some(s("/usr/bin:/bin"));
    assert_eq!(resolve_program("ls", &path, b"/", &known).unwrap(), b("/bin/ls"));
    assert_eq!(resolve_program("/usr/bin/ls", &path, b"/", &known).unwrap(), b("/usr/bin/ls"));
}

#[test]
fn a_program_is_seen_from_the_current_directory() {
    let known = present(&[("bin/x", true), ("/bin/x", true)]);
    let find = |p: &str, dir: &[u8]| resolve_program(p, &None, dir, &known).unwrap();
    assert_eq!(find("bin/x", b"/"), b("/bin/x"));
    assert_eq!(find("bin/x", b"/home/"), b("/home/bin/x"));
    assert_eq!(find("bin/x", b"/h\xff"), b"/h\xff/bin/x".to_vec());
    assert_eq!(find("/bin/x", b"/home"), b("/bin/x"));
}

#[test]
fn overrides_win_over_what_is_inherited() {
    let inherited = vec![bytes("PATH", "/bin"), bytes("HOME", "/home"), bytes("BAD", "a\0b")];
    assert_eq!(build_env(&inherited, &None), vec![b("PATH=/bin"), b("HOME=/home")]);
    let set = Some(vec![pair("HOME", "/tmp"), pair("NEW", ""), pair("N", "\0"), pair("HOME", "/x")]);
    assert_eq!(
        build_env(&inherited, &set),
        vec![b("PATH=/bin"), b("HOME=/tmp"), b("NEW="), b("HOME=/x")]
    );
    assert_eq!(build_env(&inherited, &Some(Vec::new())).len(), 2);
}

#[test]
fn what_is_inherited_need_not_be_text() {
    let inherited = vec![(b("LS"), b"\xff\xfe".to_vec()), (b"K\x80".to_vec(), b("1"))];
    let set = Some(vec![pair("LS", "é")]);
    assert_eq!(
        build_env(&inherited, &None),
        vec![b"LS=\xff\xfe".to_vec(), b"K\x80=1".to_vec()]
    );
    assert_eq!(build_env(&inherited, &set), vec![b"K\x80=1".to_vec(), b("LS=é")]);
}

fn request(command: &[&str], cwd: Option<WorkingDirectory>) -> ExecRequest {
    ExecRequest {
        command: command.iter().map(|c| s(c)).collect(),
        cwd,
        timeout: Timeout::Limited,
        env: Some(vec![pair("A", "1")]),
        threads: Some(Ok(2)),
        inherited: vec![bytes("A", "0"), bytes("B", "2")],
        path_var: Some(s("/bin")),
        current_dir: b("/home/me"),
    }
}

fn prepare(command: &[&str], cwd: Option<WorkingDirectory>) -> Result<ForkContext, ExecError> {
    let known = present(&[("/bin/ls", true), ("/b\0n/ls", true), ("./run", true)]);
    prepare_exec(request(command, cwd), &known)
}

fn wanted(dir: &str, resolved: Result<&str, &str>) -> Option<WorkingDirectory> {
    Some(WorkingDirectory { dir: s(dir), resolved: resolved.map(b).map_err(s) })
}

#[test]
fn a_command_is_prepared() {
    let ctx = prepare(&["ls", "-l", ""], wanted("w", Ok("/home/w"))).unwrap();
    assert_eq!(ctx.program, b("/bin/ls"));
    assert_eq!(ctx.argv, vec![s("ls"), s("-l"), s("")]);
    assert_eq!(ctx.env, vec![b("B=2"), b("A=1")]);
    assert_eq!(ctx.cwd, Some(b("/home/w")));
    assert_eq!(prepare(&["ls"], None).unwrap().cwd, None);
    assert_eq!(prepare(&["./run"], None).unwrap().program, b("/home/me/./run"));
    let known = present(&[("./run", true)]);
    let dir = Some(WorkingDirectory { dir: s("w"), resolved: Ok(b"/w\xff".to_vec()) });
    let ctx =
        prepare_fork_context(&[s("./run")], dir, &Vec::new(), &None, &None, b"/d", &known).unwrap();
    assert_eq!((ctx.program, ctx.cwd), (b("/d/./run"), Some(b"/w\xff".to_vec())));
}

#[test]
fn commands_that_cannot_be_prepared() {
    let message = |command: &[&str], cwd: Option<WorkingDirectory>| {
        prepare(command, cwd).unwrap_err().message()
    };
    assert_eq!(message(&[], None), "command must not be empty");
    assert_eq!(message(&["/b\0n/ls"], None), "Program path contains null byte");
    assert_eq!(message(&["ls", "a\0"], wanted("w", Err("gone"))), "Argument contains null byte");
    assert_eq!(
        message(&["ls"], wanted("w", Err("No such file or directory (os error 2)"))),
        "Cannot resolve working directory 'w': No such file or directory (os error 2)"
    );
    assert_eq!(message(&["ls"], wanted("w", Ok("/w\0"))), "Working directory contains null byte");
    assert!(matches!(prepare(&["cat"], None), Err(ExecError::ProbeNeeded(p)) if p == "/bin/cat"));
}

#[test]
fn children_that_fail_say_so() {
    let chdir = ChildFailure::Chdir;
    assert_eq!((chdir.message(), chdir.exit_code()), (s("nono: failed to chdir\n"), 126));
    let sandbox = ChildFailure::Sandbox(s("no landlock"));
    assert_eq!(
        (sandbox.message(), sandbox.exit_code()),
        (s("nono: sandbox apply failed: no landlock\n"), 126)
    );
    let exec = ChildFailure::Exec(s("denied"));
    assert_eq!((exec.message(), exec.exit_code()), (s("nono: exec failed: denied\n"), 127));
}

/// What a child does, where everything but `fault` succeeds.
fn steps(has_cwd: bool, fault: &str) -> Vec<String> {
    let mut event = ChildEvent::Forked;
    let mut done: Vec<String> = Vec::new();
    loop {
        let action = child_step(has_cwd, event);
        done.push(format!("{:?}", action));
        event = match action {
            ChildAction::Redirect => ChildEvent::Redirected,
            ChildAction::Chdir if fault == "chdir" => ChildEvent::NotMoved,
            ChildAction::Chdir => ChildEvent::Moved,
            ChildAction::ApplySandbox if fault == "sandbox" => ChildEvent::NotSandboxed(s("x")),
            ChildAction::ApplySandbox => ChildEvent::Sandboxed,
            ChildAction::Exec if fault == "exec" => ChildEvent::NotExecuted(s("y")),
            ChildAction::Exec => return done,
            ChildAction::GiveUp(_) => return done,
        };
    }
}

#[test]
fn a_child_is_sandboxed_before_it_runs_the_command() {
    assert_eq!(steps(true, ""), ["Redirect", "Chdir", "ApplySandbox", "Exec"]);
    assert_eq!(steps(false, ""), ["Redirect", "ApplySandbox", "Exec"]);
    assert_eq!(steps(true, "chdir"), ["Redirect", "Chdir", "GiveUp(Chdir)"]);
    assert_eq!(
        steps(false, "sandbox"),
        ["Redirect", "ApplySandbox", "GiveUp(Sandbox(\"x\"))"]
    );
    assert_eq!(
        steps(true, "exec"),
        ["Redirect", "Chdir", "ApplySandbox", "Exec", "GiveUp(Exec(\"y\"))"]
    );
}

#[test]
fn wait_statuses_become_exit_codes() {
    assert_eq!(exit_code_of(0).unwrap(), 0);
    assert_eq!(exit_code_of(0x0100).unwrap(), 1);
    assert_eq!(exit_code_of(0xff00).unwrap(), 255);
    assert_eq!(exit_code_of(9).unwrap(), -9);
    assert_eq!(exit_code_of(0x80 | 11).unwrap(), -11);
    assert_eq!(exit_code_of(0x7e).unwrap(), -126);
    assert_eq!(
        exit_code_of(0x137f).unwrap_err().message(),
        "Child process exited with unexpected status"
    );
    for status in 0..0x1_0000i32 {
        match exit_code_of(status) {
            Ok(code) if libc::WIFEXITED(status) => assert_eq!(code, libc::WEXITSTATUS(status)),
            Ok(code) => {
                assert!(libc::WIFSIGNALED(status));
                assert_eq!(code, -libc::WTERMSIG(status));
            }
            Err(_) => assert!(!libc::WIFEXITED(status) && !libc::WIFSIGNALED(status)),
        }
    }
}

#[test]
fn a_child_is_waited_for() {
    assert!(matches!(wait_step(WaitEvent::Interrupted, true), WaitAction::LookAgain));
    assert!(matches!(wait_step(WaitEvent::Running, false), WaitAction::Sleep(10)));
    assert!(matches!(wait_step(WaitEvent::Running, true), WaitAction::Kill(124)));
    assert!(matches!(wait_step(WaitEvent::Ended(0x0300), true), WaitAction::Finish(3)));
    assert!(matches!(wait_step(WaitEvent::Ended(15), false), WaitAction::Finish(-15)));
    match wait_step(WaitEvent::Failed(s("No child processes")), false) {
        WaitAction::Fail(e) => assert_eq!(e.message(), "waitpid() failed: No child processes"),
        _ => panic!("no error"),
    }
    match wait_step(WaitEvent::Ended(0xffff), false) {
        WaitAction::Fail(e) => {
            assert_eq!(e.message(), "Child process exited with unexpected status")
        }
        _ => panic!("no error"),
    }
}

#[test]
fn a_child_that_never_ran_the_command_is_an_error() {
    let r = finish_exec(None, 126, vec![1], vec![2, 3]).unwrap();
    assert_eq!((r.exit_code, r.stdout, r.stderr), (126, vec![1], vec![2, 3]));
    let e = finish_exec(Some(s("nono: exec failed: x\n")), 127, Vec::new(), Vec::new()).unwrap_err();
    assert_eq!(e.message(), "nono: exec failed: x\n");
    assert_eq!(e.blame(), Blame::Runtime);
    assert_eq!(ExecError::PipeFailed(s("x")).message(), "pipe() failed: x");
    assert_eq!(ExecError::ForkFailed(s("y")).message(), "fork() failed: y");
    assert_eq!(ExecError::ProbeNeeded(s("/p")).message(), "Nothing is known of /p");
}
