//! Classification of one completed process run as success or failure.

use vstd::prelude::*;

use crate::buffer::format_bytes;
use crate::buffer::formatted;
use crate::num::i32_to_string;
use crate::num::int_str;

verus! {

/// One completed run of a child process: the exit code, if the process
/// exited with one, and the captured stdout and stderr bytes.  A process
/// terminated abnormally carries no code.
#[derive(Debug)]
pub struct ProcessOutcome {
    /// The exit code; `None` when the process was interrupted.
    pub code: Option<i32>,
    /// The captured standard output bytes.
    pub stdout: Vec<u8>,
    /// The captured standard error bytes.
    pub stderr: Vec<u8>,
}

impl ProcessOutcome {
    /// Whether the run counts as a success: it exited with code zero.
    pub open spec fn is_success(&self) -> bool {
        self.code == Some(0i32)
    }

    /// Whether the exit status indicates success.
    pub fn status_success(&self) -> (r: bool)
        ensures
            r == self.is_success(),
    {
        match self.code {
            Some(c) => c == 0,
            None => false,
        }
    }
}

/// The `code=` line of a diagnostic: the decimal exit code, or
/// `<interrupted>` for a run without one.
pub open spec fn code_line(code: Option<i32>) -> Seq<char> {
    match code {
        Some(c) => "code="@ + int_str(c as int) + "\n"@,
        None => "code=<interrupted>\n"@,
    }
}

/// The diagnostic rendering of an outcome: the code line, then the
/// guarded renderings of stdout and stderr.
pub open spec fn outcome_rendered(o: ProcessOutcome) -> Seq<char> {
    code_line(o.code) + "stdout="@ + formatted(o.stdout@) + "\n"@ + "stderr="@ + formatted(
        o.stderr@,
    ) + "\n"@
}

/// Renders the `code=` / `stdout=` / `stderr=` block of a diagnostic.
pub fn render_outcome(o: &ProcessOutcome) -> (r: String)
    ensures
        r@ == outcome_rendered(*o),
{
    let mut out = match o.code {
        Some(c) => {
            let mut line = String::from_str("code=");
            let digits = i32_to_string(c);
            line.append(digits.as_str());
            line.append("\n");
            line
        },
        None => String::from_str("code=<interrupted>\n"),
    };
    out.append("stdout=");
    let so = format_bytes(o.stdout.as_slice());
    out.append(so.as_str());
    out.append("\n");
    out.append("stderr=");
    let se = format_bytes(o.stderr.as_slice());
    out.append(se.as_str());
    out.append("\n");
    proof {
        assert(out@ =~= outcome_rendered(*o));
    }
    out
}

/// Why a run failed: the process completed but reported failure, or it
/// could not be run at all.
#[derive(Debug)]
pub enum OutputCause {
    /// The process ran and its exit status indicated failure; the full
    /// outcome is carried.
    Expected(ProcessOutcome),
    /// The process could not be launched; the underlying error's message
    /// is carried.
    Unexpected(String),
}

/// A failed run, with optional command-line and stdin context attached
/// for diagnostics before the error reaches the caller.
#[derive(Debug)]
pub struct OutputError {
    /// The rendered command line, when recorded.
    pub cmd: Option<String>,
    /// The supplied stdin bytes, when recorded.
    pub stdin: Option<Vec<u8>>,
    /// What went wrong.
    pub cause: OutputCause,
}

/// The optional `command=` line of an error rendering.
pub open spec fn cmd_part(cmd: Option<String>) -> Seq<char> {
    match cmd {
        Some(c) => "command="@ + c@ + "\n"@,
        None => Seq::<char>::empty(),
    }
}

/// The optional `stdin=` line of an error rendering, the buffer shown
/// through the guarded byte formatter.
pub open spec fn stdin_part(stdin: Option<Vec<u8>>) -> Seq<char> {
    match stdin {
        Some(b) => "stdin="@ + formatted(b@) + "\n"@,
        None => Seq::<char>::empty(),
    }
}

/// The rendering of a cause: the full outcome block for a completed
/// failure, the underlying message for a launch failure.
pub open spec fn cause_rendered(cause: OutputCause) -> Seq<char> {
    match cause {
        OutputCause::Expected(o) => outcome_rendered(o),
        OutputCause::Unexpected(m) => m@,
    }
}

/// The diagnostic rendering of an error: `command=` if recorded, then
/// `stdin=` if recorded, then the cause.
pub open spec fn error_rendered(e: OutputError) -> Seq<char> {
    cmd_part(e.cmd) + stdin_part(e.stdin) + cause_rendered(e.cause)
}

impl OutputError {
    /// Wraps a completed outcome whose status indicated failure.
    pub fn new(output: ProcessOutcome) -> (r: Self)
        ensures
            r == (OutputError { cmd: None, stdin: None, cause: OutputCause::Expected(output) }),
    {
        OutputError { cmd: None, stdin: None, cause: OutputCause::Expected(output) }
    }

    /// Wraps the message of an error that kept the process from running.
    pub fn with_cause(cause: String) -> (r: Self)
        ensures
            r == (OutputError { cmd: None, stdin: None, cause: OutputCause::Unexpected(cause) }),
    {
        OutputError { cmd: None, stdin: None, cause: OutputCause::Unexpected(cause) }
    }

    /// Records the command line for additional context.
    pub fn set_cmd(self, cmd: String) -> (r: Self)
        ensures
            r == (OutputError { cmd: Some(cmd), ..self }),
    {
        OutputError { cmd: Some(cmd), ..self }
    }

    /// Records the stdin buffer for additional context.
    pub fn set_stdin(self, stdin: Vec<u8>) -> (r: Self)
        ensures
            r == (OutputError { stdin: Some(stdin), ..self }),
    {
        OutputError { stdin: Some(stdin), ..self }
    }

    /// The contained outcome: present exactly for a completed failure.
    pub fn as_output(&self) -> (r: Option<&ProcessOutcome>)
        ensures
            self.cause matches OutputCause::Expected(o) ==> r matches Some(p) && *p == o,
            self.cause matches OutputCause::Unexpected(m) ==> r is None,
    {
        match &self.cause {
            OutputCause::Expected(o) => Some(o),
            OutputCause::Unexpected(_) => None,
        }
    }

    /// The full diagnostic text of the error.
    pub fn render(&self) -> (r: String)
        ensures
            r@ == error_rendered(*self),
    {
        let mut out = String::new();
        match &self.cmd {
            Some(c) => {
                out.append("command=");
                out.append(c.as_str());
                out.append("\n");
            },
            None => {},
        }
        match &self.stdin {
            Some(b) => {
                out.append("stdin=");
                let fb = format_bytes(b.as_slice());
                out.append(fb.as_str());
                out.append("\n");
            },
            None => {},
        }
        match &self.cause {
            OutputCause::Expected(o) => {
                let ro = render_outcome(o);
                out.append(ro.as_str());
            },
            OutputCause::Unexpected(m) => {
                out.append(m.as_str());
            },
        }
        proof {
            assert(out@ =~= error_rendered(*self));
        }
        out
    }
}

/// A completed run classified as success or failure.
pub type OutputResult = Result<ProcessOutcome, OutputError>;

/// Conversion of a completed run into an [`OutputResult`].
pub trait OutputOkExt: Sized {
    /// The classification this value converts to.
    spec fn ok_spec(&self) -> Result<ProcessOutcome, OutputError>;

    /// Classifies the run: `Ok` exactly on success.
    fn ok(self) -> (r: OutputResult)
        ensures
            r == self.ok_spec(),
    ;

    /// The outcome of a run that classifies as a success.
    fn unwrap(self) -> (o: ProcessOutcome)
        requires
            self.ok_spec() is Ok,
        ensures
            self.ok_spec() == Ok::<ProcessOutcome, OutputError>(o),
    {
        match self.ok() {
            Ok(o) => o,
            Err(_) => vstd::pervasive::unreached(),
        }
    }

    /// The error of a run that classifies as a failure.
    fn unwrap_err(self) -> (e: OutputError)
        requires
            self.ok_spec() is Err,
        ensures
            self.ok_spec() == Err::<ProcessOutcome, OutputError>(e),
    {
        match self.ok() {
            Ok(_) => vstd::pervasive::unreached(),
            Err(e) => e,
        }
    }
}

impl OutputOkExt for ProcessOutcome {
    open spec fn ok_spec(&self) -> Result<ProcessOutcome, OutputError> {
        if self.is_success() {
            Ok(*self)
        } else {
            Err(OutputError { cmd: None, stdin: None, cause: OutputCause::Expected(*self) })
        }
    }

    fn ok(self) -> (r: OutputResult) {
        if self.status_success() {
            Ok(self)
        } else {
            Err(OutputError::new(self))
        }
    }
}

/// Classifies a run attempted from a launch specification.  A launch
/// failure keeps the unexpected cause bare, as the launcher reported it;
/// an unsuccessful outcome is annotated with the rendered command line
/// and, when one was supplied, the stdin buffer.
pub fn classify_run(run: Result<ProcessOutcome, String>, cmd: String, stdin: Option<Vec<u8>>) -> (r:
    OutputResult)
    ensures
        (match run {
            Ok(o) => if o.is_success() {
                r == Ok::<ProcessOutcome, OutputError>(o)
            } else {
                r == Err::<ProcessOutcome, OutputError>(
                    OutputError { cmd: Some(cmd), stdin, cause: OutputCause::Expected(o) },
                )
            },
            Err(m) => r == Err::<ProcessOutcome, OutputError>(
                OutputError { cmd: None, stdin: None, cause: OutputCause::Unexpected(m) },
            ),
        }),
{
    match run {
        Ok(o) => {
            if o.status_success() {
                Ok(o)
            } else {
                let mut e = OutputError::new(o).set_cmd(cmd);
                match stdin {
                    Some(b) => Err(e.set_stdin(b)),
                    None => Err(e),
                }
            }
        },
        Err(m) => Err(OutputError::with_cause(m)),
    }
}

} // verus!
