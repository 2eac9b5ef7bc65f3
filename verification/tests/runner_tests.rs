use disk_space_optimizer::runner::CmdError;
use disk_space_optimizer::runner::Invocation;
use disk_space_optimizer::runner::command_outcome;
use disk_space_optimizer::runner::render_invocation;

#[test]
fn successful_run_returns_trimmed_stdout() {
    // What the runner makes of `echo hello world` once the process has
    // exited successfully with "hello world\n" captured.
    let r = command_outcome(true, 0, "hello world\n", "");
    assert_eq!(r.unwrap(), "hello world");
}

#[test]
fn nonzero_exit_fails_with_status_and_trimmed_stderr() {
    let r = command_outcome(false, 1, "", "boom\n");
    match r {
        Err(CmdError::CommandFailed { status, stderr }) => {
            assert_eq!(status, 1);
            assert_eq!(stderr, "boom");
        }
        other => panic!("expected a command failure, got {:?}", other),
    }
}

#[test]
fn failure_keeps_the_exact_status() {
    let r = command_outcome(false, 42, "partial output", "  why it failed  ");
    match r {
        Err(CmdError::CommandFailed { status, stderr }) => {
            assert_eq!(status, 42);
            assert_eq!(stderr, "why it failed");
        }
        other => panic!("expected a command failure, got {:?}", other),
    }
}

#[test]
fn trace_line_joins_program_and_arguments() {
    let inv = Invocation {
        program: "dnf".to_string(),
        args: vec!["clean".to_string(), "all".to_string()],
    };
    assert_eq!(render_invocation(&inv), "dnf clean all");

    let bare = Invocation { program: "dnf".to_string(), args: Vec::new() };
    assert_eq!(render_invocation(&bare), "dnf");

    let one = Invocation { program: "rpm".to_string(), args: vec!["-q".to_string(), "kernel".to_string()] };
    assert_eq!(render_invocation(&one), "rpm -q kernel");
}
