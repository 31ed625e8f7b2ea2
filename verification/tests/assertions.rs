use assert_cmd::assertion::Assert;
use assert_cmd::assertion::EqCodePredicate;
use assert_cmd::assertion::OutputAssertExt;
use assert_cmd::output::classify_run;
use assert_cmd::output::OutputCause;
use assert_cmd::output::OutputError;
use assert_cmd::output::OutputOkExt;
use assert_cmd::output::ProcessOutcome;

fn outcome(code: Option<i32>, stdout: &[u8], stderr: &[u8]) -> ProcessOutcome {
    ProcessOutcome {
        code,
        stdout: stdout.to_vec(),
        stderr: stderr.to_vec(),
    }
}

#[test]
fn hello_world_fixture_chain_passes() {
    // A fixture writing "hello" to stdout, "world" to stderr, exiting 0.
    let o = outcome(Some(0), b"hello\n", b"world\n");
    let a = o.into_assert().success().stdout("hello\n").stderr("world\n");
    assert_eq!(Some(0), a.get_output().code);
}

#[test]
fn exit_code_fixture_chain_passes() {
    // A fixture configured to exit with code 42.
    let o = outcome(Some(42), b"", b"");
    let a = o.into_assert().failure().code(42);
    let wrong = EqCodePredicate { expected: 0 };
    assert!(a.check_code(&wrong).is_some());
}

#[test]
fn stdin_passthrough_error_shows_stdin() {
    // A passthrough fixture fed "42" echoes it; asserting failure on the
    // successful run must fail, and a failed run's error shows the stdin.
    let good = outcome(Some(0), b"42", b"");
    let a = Assert::new(good);
    assert!(a.check_stdout(&assert_cmd::assertion::StrContentOutputPredicate::new(
        String::from("42")
    ))
    .is_none());
    assert!(a.check_failure().is_some());

    let bad = outcome(Some(1), b"42", b"");
    let err = classify_run(Ok(bad), String::from("passthrough"), Some(b"42".to_vec()))
        .err()
        .unwrap();
    let rendered = err.render();
    assert!(rendered.contains("command=passthrough\n"));
    assert!(rendered.contains("stdin=\"42\"\n"));
}

#[test]
fn success_check_passes_on_zero() {
    let a = Assert::new(outcome(Some(0), b"out", b"err"));
    assert!(a.check_success().is_none());
}

#[test]
fn success_check_message_carries_streams() {
    let a = Assert::new(outcome(Some(3), b"partial output", b"boom happened"));
    let msg = a.check_success().unwrap();
    assert!(msg.starts_with("Unexpected failure.\ncode-3\nstderr=```boom happened```\n"));
    assert!(msg.contains("boom happened"));
    assert!(msg.contains("partial output"));
    assert!(msg.contains("code=3\n"));
}

#[test]
fn success_check_on_interrupted_run() {
    let a = Assert::new(outcome(None, b"", b"signal"));
    let msg = a.check_success().unwrap();
    assert!(msg.starts_with("Unexpected failure.\ncode=<interrupted>\nstderr=```signal```\n"));
    assert!(msg.contains("code=<interrupted>\n"));
}

#[test]
fn failure_check_counts_interrupted_as_failed() {
    let a = Assert::new(outcome(None, b"", b""));
    assert!(a.check_failure().is_none());
    let b = Assert::new(outcome(Some(1), b"", b""));
    assert!(b.check_failure().is_none());
    let c = Assert::new(outcome(Some(0), b"shown", b""));
    let msg = c.check_failure().unwrap();
    assert!(msg.starts_with("Unexpected success\nstdout=```shown```\n"));
}

#[test]
fn interrupted_check() {
    let a = Assert::new(outcome(None, b"", b""));
    assert!(a.check_interrupted().is_none());
    let b = Assert::new(outcome(Some(0), b"done", b""));
    let msg = b.check_interrupted().unwrap();
    assert!(msg.starts_with("Unexpected completion\nstdout=```done```\n"));
}

#[test]
fn code_check_exact() {
    let a = Assert::new(outcome(Some(42), b"", b""));
    assert!(a.check_code(&EqCodePredicate { expected: 42 }).is_none());
    let msg = a.check_code(&EqCodePredicate { expected: 0 }).unwrap();
    assert!(msg.starts_with("Unexpected return code\nstdout=``````\nstderr=``````\n"));
}

#[test]
fn code_check_interrupted_regardless_of_predicate() {
    let a = Assert::new(outcome(None, b"", b"killed"));
    let msg_a = a.check_code(&EqCodePredicate { expected: 0 }).unwrap();
    let msg_b = a.check_code(&EqCodePredicate { expected: 1 }).unwrap();
    assert_eq!(msg_a, msg_b);
    assert!(msg_a.starts_with("Command interrupted\nstderr=```killed```\n"));
}

#[test]
fn stdout_check_rejects_differing_content() {
    let a = Assert::new(outcome(Some(0), b"hello\n", b""));
    let ok = assert_cmd::assertion::StrContentOutputPredicate::new(String::from("hello\n"));
    assert!(a.check_stdout(&ok).is_none());
    let wrong = assert_cmd::assertion::StrContentOutputPredicate::new(String::from("hello"));
    let msg = a.check_stdout(&wrong).unwrap();
    assert!(msg.starts_with("Unexpected stdout\n"));
}

#[test]
fn stderr_check() {
    let a = Assert::new(outcome(Some(0), b"", b"warn\n"));
    let ok = assert_cmd::assertion::StrContentOutputPredicate::new(String::from("warn\n"));
    assert!(a.check_stderr(&ok).is_none());
    let wrong = assert_cmd::assertion::StrContentOutputPredicate::new(String::from("fine"));
    let msg = a.check_stderr(&wrong).unwrap();
    assert!(msg.starts_with("Unexpected stderr\n"));
}

#[test]
fn append_context_shows_in_rendering() {
    let a = Assert::new(outcome(Some(0), b"", b""))
        .append_context("command", "fixture --flag")
        .append_context("main", "no args");
    let rendered = a.render();
    assert!(rendered.starts_with("command=`fixture --flag`\nmain=`no args`\ncode=0\n"));
}

#[test]
fn outcome_rendering_exact() {
    let a = Assert::new(outcome(Some(7), b"out", b"err"));
    assert_eq!("code=7\nstdout=\"out\"\nstderr=\"err\"\n", a.render());
}

#[test]
fn ok_classifies_by_exit_status() {
    let good = outcome(Some(0), b"42\n", b"");
    assert!(good.ok().is_ok());
    let bad = outcome(Some(1), b"", b"");
    let err = bad.ok().err().unwrap();
    assert!(matches!(err.cause, OutputCause::Expected(_)));
    assert!(err.as_output().is_some());
    assert_eq!(Some(1), err.as_output().unwrap().code);
}

#[test]
fn unwrap_returns_outcome() {
    let good = outcome(Some(0), b"fine", b"");
    let o = good.unwrap();
    assert_eq!(b"fine".to_vec(), o.stdout);
}

#[test]
fn launch_failure_is_unexpected_cause() {
    let r = classify_run(
        Err(String::from("No such file or directory")),
        String::from("missing-binary"),
        None,
    );
    let err = r.err().unwrap();
    assert!(err.as_output().is_none());
    assert!(matches!(err.cause, OutputCause::Unexpected(_)));
    // The launch error keeps no command context, as the launcher reported it.
    assert_eq!("No such file or directory", err.render());
}

#[test]
fn error_rendering_exact() {
    let err = OutputError::new(outcome(Some(2), b"so", b"se"))
        .set_cmd(String::from("fixture"))
        .set_stdin(b"in".to_vec());
    assert_eq!(
        "command=fixture\nstdin=\"in\"\ncode=2\nstdout=\"so\"\nstderr=\"se\"\n",
        err.render()
    );
}

#[test]
fn interrupted_error_rendering() {
    let err = OutputError::new(outcome(None, b"", b""));
    assert_eq!("code=<interrupted>\nstdout=\"\"\nstderr=\"\"\n", err.render());
}
