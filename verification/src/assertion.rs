//! Fluent assertions over one completed process outcome.
//!
//! An [`Assert`] holds an outcome and optional diagnostic context.  Each
//! check either passes the value through or reports a fully rendered
//! diagnostic; the `check_*` functions return the exact message a failed
//! check reports, so a caller can fail loudly with it.

use vstd::prelude::*;
use vstd::utf8::{decode_utf8, valid_utf8};

use crate::buffer::dump_buffer;
use crate::buffer::dumped;
use crate::num::i32_to_string;
use crate::num::int_str;
use crate::output::outcome_rendered;
use crate::output::render_outcome;
use crate::output::ProcessOutcome;

verus! {

/// A boolean test over an exit code, with a specification-level meaning.
pub trait CodePredicate: Sized {
    /// Which codes the predicate accepts.
    spec fn accepts(&self, code: int) -> bool;

    /// Evaluates the predicate on an actual exit code.
    fn eval(&self, code: i32) -> (r: bool)
        ensures
            r == self.accepts(code as int),
    ;
}

/// Accepts exactly one expected exit code.
#[derive(Debug)]
pub struct EqCodePredicate {
    /// The expected code.
    pub expected: i32,
}

impl CodePredicate for EqCodePredicate {
    open spec fn accepts(&self, code: int) -> bool {
        code == self.expected as int
    }

    fn eval(&self, code: i32) -> (r: bool) {
        code == self.expected
    }
}

/// Accepts any of a list of expected exit codes.
#[derive(Debug)]
pub struct InCodePredicate {
    /// The accepted codes.
    pub expected: Vec<i32>,
}

impl CodePredicate for InCodePredicate {
    open spec fn accepts(&self, code: int) -> bool {
        exists|i: int| 0 <= i < self.expected@.len() && self.expected@[i] as int == code
    }

    fn eval(&self, code: i32) -> (r: bool) {
        let n = self.expected.len();
        let mut i: usize = 0;
        while i < n
            invariant
                n == self.expected@.len(),
                i <= n,
                forall|k: int| 0 <= k < i ==> self.expected@[k] != code,
            decreases n - i,
        {
            if self.expected[i] == code {
                proof {
                    assert(self.expected@[i as int] as int == code as int);
                }
                return true;
            }
            i = i + 1;
        }
        false
    }
}

/// A boolean test over a captured output buffer, with a
/// specification-level meaning.
pub trait OutputPredicate: Sized {
    /// Which buffers the predicate accepts.
    spec fn accepts(&self, actual: Seq<u8>) -> bool;

    /// Evaluates the predicate on the actual bytes.
    fn eval(&self, actual: &[u8]) -> (r: bool)
        ensures
            r == self.accepts(actual@),
    ;
}

/// Accepts exactly one expected byte sequence.
#[derive(Debug)]
pub struct BytesContentOutputPredicate {
    /// The expected bytes.
    pub expected: Vec<u8>,
}

impl BytesContentOutputPredicate {
    /// A predicate accepting exactly `value`.
    pub fn new(value: Vec<u8>) -> (r: Self)
        ensures
            r.expected == value,
    {
        BytesContentOutputPredicate { expected: value }
    }
}

impl OutputPredicate for BytesContentOutputPredicate {
    open spec fn accepts(&self, actual: Seq<u8>) -> bool {
        actual == self.expected@
    }

    fn eval(&self, actual: &[u8]) -> (r: bool) {
        if actual.len() != self.expected.len() {
            return false;
        }
        let n = actual.len();
        let mut i: usize = 0;
        while i < n
            invariant
                n == actual@.len() == self.expected@.len(),
                i <= n,
                forall|k: int| 0 <= k < i ==> actual@[k] == self.expected@[k],
            decreases n - i,
        {
            if *vstd::slice::slice_index_get(actual, i) != self.expected[i] {
                return false;
            }
            i = i + 1;
        }
        proof {
            assert(actual@ =~= self.expected@);
        }
        true
    }
}

/// Accepts output that decodes as UTF-8 text equal to an expected string.
#[derive(Debug)]
pub struct StrContentOutputPredicate {
    /// The expected text.
    pub expected: String,
}

impl StrContentOutputPredicate {
    /// A predicate accepting exactly the UTF-8 encoding of `value`.
    pub fn new(value: String) -> (r: Self)
        ensures
            r.expected == value,
    {
        StrContentOutputPredicate { expected: value }
    }
}

impl OutputPredicate for StrContentOutputPredicate {
    open spec fn accepts(&self, actual: Seq<u8>) -> bool {
        valid_utf8(actual) && decode_utf8(actual) == self.expected@
    }

    fn eval(&self, actual: &[u8]) -> (r: bool) {
        match crate::buffer::decode_bytes(actual) {
            Some(s) => s == self.expected,
            None => false,
        }
    }
}

/// A textual expectation accepts exactly the buffers that decode as UTF-8
/// text equal to it; differing content, or content that is not valid
/// UTF-8, is rejected.
pub proof fn lemma_str_predicate_exact(p: StrContentOutputPredicate, actual: Seq<u8>)
    ensures
        p.accepts(actual) <==> (valid_utf8(actual) && decode_utf8(actual) == p.expected@),
{
}

/// Conversion of an expected value into a code predicate, so that one
/// call site takes a literal code, a list of codes, or a predicate
/// object.
pub trait IntoCodePredicate<P: CodePredicate>: Sized {
    /// Which codes the converted predicate accepts.
    spec fn accepts_code(&self, code: int) -> bool;

    /// Converts to a predicate for testing an exit code.
    fn into_code(self) -> (p: P)
        ensures
            forall|c: int| p.accepts(c) == self.accepts_code(c),
    ;
}

impl<P: CodePredicate> IntoCodePredicate<P> for P {
    open spec fn accepts_code(&self, code: int) -> bool {
        self.accepts(code)
    }

    fn into_code(self) -> (p: P) {
        self
    }
}

impl IntoCodePredicate<EqCodePredicate> for i32 {
    open spec fn accepts_code(&self, code: int) -> bool {
        code == *self as int
    }

    fn into_code(self) -> (p: EqCodePredicate) {
        EqCodePredicate { expected: self }
    }
}

impl IntoCodePredicate<InCodePredicate> for Vec<i32> {
    open spec fn accepts_code(&self, code: int) -> bool {
        exists|i: int| 0 <= i < self@.len() && self@[i] as int == code
    }

    fn into_code(self) -> (p: InCodePredicate) {
        let p = InCodePredicate { expected: self };
        proof {
            assert forall|c: int| p.accepts(c) == self.accepts_code(c) by {
                if p.accepts(c) {
                    let i = choose|i: int|
                        0 <= i < p.expected@.len() && p.expected@[i] as int == c;
                    assert(0 <= i < self@.len() && self@[i] as int == c);
                }
                if self.accepts_code(c) {
                    let i = choose|i: int| 0 <= i < self@.len() && self@[i] as int == c;
                    assert(0 <= i < p.expected@.len() && p.expected@[i] as int == c);
                }
            };
        }
        p
    }
}

impl IntoCodePredicate<InCodePredicate> for &[i32] {
    open spec fn accepts_code(&self, code: int) -> bool {
        exists|i: int| 0 <= i < self@.len() && self@[i] as int == code
    }

    fn into_code(self) -> (p: InCodePredicate) {
        let p = InCodePredicate { expected: vstd::slice::slice_to_vec(self) };
        proof {
            assert forall|c: int| p.accepts(c) == self.accepts_code(c) by {
                if p.accepts(c) {
                    let i = choose|i: int|
                        0 <= i < p.expected@.len() && p.expected@[i] as int == c;
                    assert(0 <= i < self@.len() && self@[i] as int == c);
                }
                if self.accepts_code(c) {
                    let i = choose|i: int| 0 <= i < self@.len() && self@[i] as int == c;
                    assert(0 <= i < p.expected@.len() && p.expected@[i] as int == c);
                }
            };
        }
        p
    }
}

/// Conversion of an expected value into an output predicate, so that one
/// call site takes a literal byte slice, a literal string, or a predicate
/// object.
pub trait IntoOutputPredicate<P: OutputPredicate>: Sized {
    /// Which buffers the converted predicate accepts.
    spec fn accepts_output(&self, actual: Seq<u8>) -> bool;

    /// Converts to a predicate for testing a captured buffer.
    fn into_output(self) -> (p: P)
        ensures
            forall|a: Seq<u8>| p.accepts(a) == self.accepts_output(a),
    ;
}

impl<P: OutputPredicate> IntoOutputPredicate<P> for P {
    open spec fn accepts_output(&self, actual: Seq<u8>) -> bool {
        self.accepts(actual)
    }

    fn into_output(self) -> (p: P) {
        self
    }
}

impl IntoOutputPredicate<BytesContentOutputPredicate> for &[u8] {
    open spec fn accepts_output(&self, actual: Seq<u8>) -> bool {
        actual == self@
    }

    fn into_output(self) -> (p: BytesContentOutputPredicate) {
        BytesContentOutputPredicate::new(vstd::slice::slice_to_vec(self))
    }
}

impl IntoOutputPredicate<StrContentOutputPredicate> for &str {
    open spec fn accepts_output(&self, actual: Seq<u8>) -> bool {
        valid_utf8(actual) && decode_utf8(actual) == self@
    }

    fn into_output(self) -> (p: StrContentOutputPredicate) {
        StrContentOutputPredicate::new(String::from_str(self))
    }
}

/// Fluent assertions over one completed outcome, with accumulated
/// diagnostic context.
#[derive(Debug)]
pub struct Assert {
    /// The outcome under test.
    pub output: ProcessOutcome,
    /// Accumulated (name, rendered value) context pairs.
    pub context: Vec<(String, String)>,
}

/// The rendered context lines: one ``name=`value` `` line per pair.
pub open spec fn contexts_rendered(ctx: Seq<(String, String)>) -> Seq<char>
    decreases ctx.len(),
{
    if ctx.len() == 0 {
        Seq::<char>::empty()
    } else {
        ctx[0].0@ + "=`"@ + ctx[0].1@ + "`\n"@ + contexts_rendered(ctx.skip(1))
    }
}

/// The full diagnostic rendering of an assertion: the context lines,
/// then the outcome block.
pub open spec fn assert_rendered(a: Assert) -> Seq<char> {
    contexts_rendered(a.context@) + outcome_rendered(a.output)
}

proof fn lemma_contexts_rendered_push(ctx: Seq<(String, String)>, p: (String, String))
    ensures
        contexts_rendered(ctx.push(p)) == contexts_rendered(ctx) + p.0@ + "=`"@ + p.1@ + "`\n"@,
    decreases ctx.len(),
{
    if ctx.len() == 0 {
        assert(ctx.push(p)[0] == p);
        assert(ctx.push(p).skip(1).len() == 0);
        assert(contexts_rendered(ctx.push(p).skip(1)) =~= Seq::<char>::empty());
        assert(contexts_rendered(ctx.push(p)) =~= contexts_rendered(ctx) + p.0@ + "=`"@ + p.1@
            + "`\n"@);
    } else {
        lemma_contexts_rendered_push(ctx.skip(1), p);
        assert(ctx.push(p)[0] == ctx[0]);
        assert(ctx.push(p).skip(1) =~= ctx.skip(1).push(p));
        assert(contexts_rendered(ctx.push(p)) =~= contexts_rendered(ctx) + p.0@ + "=`"@ + p.1@
            + "`\n"@);
    }
}

/// The message of a failed success check: the failure header with the
/// code (or the interrupted marker), the raw stderr dump, and the full
/// rendering.
pub open spec fn success_message(a: Assert) -> Seq<char> {
    match a.output.code {
        Some(c) => "Unexpected failure.\ncode-"@ + int_str(c as int) + "\nstderr=```"@ + dumped(
            a.output.stderr@,
        ) + "```\n"@ + assert_rendered(a),
        None => "Unexpected failure.\ncode=<interrupted>\nstderr=```"@ + dumped(a.output.stderr@)
            + "```\n"@ + assert_rendered(a),
    }
}

/// The message of a failed failure check: the run succeeded.
pub open spec fn failure_message(a: Assert) -> Seq<char> {
    "Unexpected success\nstdout=```"@ + dumped(a.output.stdout@) + "```\n"@ + assert_rendered(a)
}

/// The message of a failed interruption check: the run completed with a
/// code.
pub open spec fn interrupted_message(a: Assert) -> Seq<char> {
    "Unexpected completion\nstdout=```"@ + dumped(a.output.stdout@) + "```\n"@ + assert_rendered(a)
}

/// The message of a code check on an interrupted run.
pub open spec fn code_interrupted_message(a: Assert) -> Seq<char> {
    "Command interrupted\nstderr=```"@ + dumped(a.output.stderr@) + "```\n"@ + assert_rendered(a)
}

/// The message of a code check whose expectation rejected the code.
pub open spec fn code_mismatch_message(a: Assert) -> Seq<char> {
    "Unexpected return code\nstdout=```"@ + dumped(a.output.stdout@) + "```\nstderr=```"@ + dumped(
        a.output.stderr@,
    ) + "```\n"@ + assert_rendered(a)
}

/// The message of a failed stdout check.
pub open spec fn stdout_message(a: Assert) -> Seq<char> {
    "Unexpected stdout\n"@ + assert_rendered(a)
}

/// The message of a failed stderr check.
pub open spec fn stderr_message(a: Assert) -> Seq<char> {
    "Unexpected stderr\n"@ + assert_rendered(a)
}

impl Assert {
    /// Wraps a completed outcome, with no context yet.
    pub fn new(output: ProcessOutcome) -> (r: Self)
        ensures
            r.output == output,
            r.context@ == Seq::<(String, String)>::empty(),
    {
        Assert { output, context: Vec::new() }
    }

    /// Records one named piece of context for later diagnostics.
    pub fn append_context(self, name: &str, context: &str) -> (r: Self)
        ensures
            r.output == self.output,
            r.context@.len() == self.context@.len() + 1,
            forall|i: int| 0 <= i < self.context@.len() ==> r.context@[i] == self.context@[i],
            r.context@.last().0@ == name@,
            r.context@.last().1@ == context@,
            contexts_rendered(r.context@) == contexts_rendered(self.context@) + name@ + "=`"@
                + context@ + "`\n"@,
    {
        let mut r = self;
        let pair = (String::from_str(name), String::from_str(context));
        proof {
            lemma_contexts_rendered_push(r.context@, pair);
        }
        r.context.push(pair);
        r
    }

    /// The outcome under test.
    pub fn get_output(&self) -> (r: &ProcessOutcome)
        ensures
            *r == self.output,
    {
        &self.output
    }

    /// The full diagnostic rendering: context lines, then the outcome.
    pub fn render(&self) -> (r: String)
        ensures
            r@ == assert_rendered(*self),
    {
        let mut out = String::new();
        let n = self.context.len();
        let mut i: usize = 0;
        proof {
            assert(self.context@.skip(0) =~= self.context@);
        }
        while i < n
            invariant
                n == self.context@.len(),
                i <= n,
                contexts_rendered(self.context@) == out@ + contexts_rendered(
                    self.context@.skip(i as int),
                ),
            decreases n - i,
        {
            out.append(self.context[i].0.as_str());
            out.append("=`");
            out.append(self.context[i].1.as_str());
            out.append("`\n");
            proof {
                let cs = self.context@;
                assert(cs.skip(i as int)[0] == cs[i as int]);
                assert(cs.skip(i as int).skip(1) =~= cs.skip(i + 1));
                assert(contexts_rendered(self.context@) =~= out@ + contexts_rendered(
                    cs.skip(i + 1),
                ));
            }
            i = i + 1;
        }
        let ro = render_outcome(&self.output);
        out.append(ro.as_str());
        proof {
            assert(self.context@.skip(n as int).len() == 0);
            assert(contexts_rendered(self.context@.skip(n as int)) =~= Seq::<char>::empty());
            assert(contexts_rendered(self.context@) =~= contexts_rendered(self.context@)
                + Seq::<char>::empty());
            assert(out@ =~= assert_rendered(*self));
        }
        out
    }

    /// Reports nothing exactly when the run succeeded; otherwise yields
    /// the message a success assertion fails with, which carries the raw
    /// stderr dump and the full rendering, stdout included.
    pub fn check_success(&self) -> (r: Option<String>)
        ensures
            (r is None) <==> self.output.is_success(),
            r matches Some(m) ==> m@ == success_message(*self),
    {
        if self.output.status_success() {
            None
        } else {
            let mut m = match self.output.code {
                Some(c) => {
                    let mut s = String::from_str("Unexpected failure.\ncode-");
                    let digits = i32_to_string(c);
                    s.append(digits.as_str());
                    s.append("\nstderr=```");
                    s
                },
                None => String::from_str("Unexpected failure.\ncode=<interrupted>\nstderr=```"),
            };
            let dump = dump_buffer(self.output.stderr.as_slice());
            m.append(dump.as_str());
            m.append("```\n");
            let rendered = self.render();
            m.append(rendered.as_str());
            proof {
                assert(m@ =~= success_message(*self));
            }
            Some(m)
        }
    }

    /// Passes a successful run through; a run that failed or was
    /// interrupted is excluded by contract.
    pub fn success(self) -> (r: Self)
        requires
            self.output.is_success(),
        ensures
            r == self,
    {
        self
    }

    /// Reports nothing exactly when the run did not succeed (an
    /// interrupted run counts as failed); otherwise yields the message a
    /// failure assertion fails with.
    pub fn check_failure(&self) -> (r: Option<String>)
        ensures
            (r is None) <==> !self.output.is_success(),
            r matches Some(m) ==> m@ == failure_message(*self),
    {
        if !self.output.status_success() {
            None
        } else {
            let mut m = String::from_str("Unexpected success\nstdout=```");
            let dump = dump_buffer(self.output.stdout.as_slice());
            m.append(dump.as_str());
            m.append("```\n");
            let rendered = self.render();
            m.append(rendered.as_str());
            proof {
                assert(m@ =~= failure_message(*self));
            }
            Some(m)
        }
    }

    /// Passes a non-successful run through (an interrupted run counts as
    /// failed); a successful run is excluded by contract.
    pub fn failure(self) -> (r: Self)
        requires
            !self.output.is_success(),
        ensures
            r == self,
    {
        self
    }

    /// Reports nothing exactly when the run ended without an exit code;
    /// otherwise yields the message an interruption assertion fails with.
    pub fn check_interrupted(&self) -> (r: Option<String>)
        ensures
            (r is None) <==> (self.output.code is None),
            r matches Some(m) ==> m@ == interrupted_message(*self),
    {
        match self.output.code {
            None => None,
            Some(_) => {
                let mut m = String::from_str("Unexpected completion\nstdout=```");
                let dump = dump_buffer(self.output.stdout.as_slice());
                m.append(dump.as_str());
                m.append("```\n");
                let rendered = self.render();
                m.append(rendered.as_str());
                proof {
                    assert(m@ =~= interrupted_message(*self));
                }
                Some(m)
            },
        }
    }

    /// Passes an interrupted run through; a run with an exit code is
    /// excluded by contract.
    pub fn interrupted(self) -> (r: Self)
        requires
            self.output.code is None,
        ensures
            r == self,
    {
        self
    }

    /// Reports nothing exactly when the run has a code and the predicate
    /// accepts it.  An interrupted run is reported whatever the
    /// predicate; a rejected code is reported with the mismatch message.
    pub fn check_code<P: CodePredicate>(&self, pred: &P) -> (r: Option<String>)
        ensures
            self.output.code is None ==> (r matches Some(m) && m@ == code_interrupted_message(
                *self,
            )),
            self.output.code matches Some(c) ==> if pred.accepts(c as int) {
                r is None
            } else {
                (r matches Some(m) && m@ == code_mismatch_message(*self))
            },
    {
        match self.output.code {
            None => {
                let mut m = String::from_str("Command interrupted\nstderr=```");
                let dump = dump_buffer(self.output.stderr.as_slice());
                m.append(dump.as_str());
                m.append("```\n");
                let rendered = self.render();
                m.append(rendered.as_str());
                proof {
                    assert(m@ =~= code_interrupted_message(*self));
                }
                Some(m)
            },
            Some(c) => {
                if pred.eval(c) {
                    None
                } else {
                    let mut m = String::from_str("Unexpected return code\nstdout=```");
                    let dump_out = dump_buffer(self.output.stdout.as_slice());
                    m.append(dump_out.as_str());
                    m.append("```\nstderr=```");
                    let dump_err = dump_buffer(self.output.stderr.as_slice());
                    m.append(dump_err.as_str());
                    m.append("```\n");
                    let rendered = self.render();
                    m.append(rendered.as_str());
                    proof {
                        assert(m@ =~= code_mismatch_message(*self));
                    }
                    Some(m)
                }
            },
        }
    }

    fn code_impl<P: CodePredicate>(self, pred: &P) -> (r: Self)
        requires
            (match self.output.code {
                Some(c) => pred.accepts(c as int),
                None => false,
            }),
        ensures
            r == self,
    {
        self
    }

    /// Passes a run through when its exit code meets the expectation; an
    /// interrupted run, or a rejected code, is excluded by contract.
    pub fn code<I: IntoCodePredicate<P>, P: CodePredicate>(self, pred: I) -> (r: Self)
        requires
            (match self.output.code {
                Some(c) => pred.accepts_code(c as int),
                None => false,
            }),
        ensures
            r == self,
    {
        let p = pred.into_code();
        self.code_impl(&p)
    }

    /// Reports nothing exactly when the predicate accepts the captured
    /// stdout; otherwise yields the message a stdout assertion fails
    /// with.
    pub fn check_stdout<P: OutputPredicate>(&self, pred: &P) -> (r: Option<String>)
        ensures
            (r is None) <==> pred.accepts(self.output.stdout@),
            r matches Some(m) ==> m@ == stdout_message(*self),
    {
        if pred.eval(self.output.stdout.as_slice()) {
            None
        } else {
            let mut m = String::from_str("Unexpected stdout\n");
            let rendered = self.render();
            m.append(rendered.as_str());
            proof {
                assert(m@ =~= stdout_message(*self));
            }
            Some(m)
        }
    }

    fn stdout_impl<P: OutputPredicate>(self, pred: &P) -> (r: Self)
        requires
            pred.accepts(self.output.stdout@),
        ensures
            r == self,
    {
        self
    }

    /// Passes a run through when the expectation accepts its captured
    /// stdout; a mismatch is excluded by contract.
    pub fn stdout<I: IntoOutputPredicate<P>, P: OutputPredicate>(self, pred: I) -> (r: Self)
        requires
            pred.accepts_output(self.output.stdout@),
        ensures
            r == self,
    {
        let p = pred.into_output();
        self.stdout_impl(&p)
    }

    /// Reports nothing exactly when the predicate accepts the captured
    /// stderr; otherwise yields the message a stderr assertion fails
    /// with.
    pub fn check_stderr<P: OutputPredicate>(&self, pred: &P) -> (r: Option<String>)
        ensures
            (r is None) <==> pred.accepts(self.output.stderr@),
            r matches Some(m) ==> m@ == stderr_message(*self),
    {
        if pred.eval(self.output.stderr.as_slice()) {
            None
        } else {
            let mut m = String::from_str("Unexpected stderr\n");
            let rendered = self.render();
            m.append(rendered.as_str());
            proof {
                assert(m@ =~= stderr_message(*self));
            }
            Some(m)
        }
    }

    fn stderr_impl<P: OutputPredicate>(self, pred: &P) -> (r: Self)
        requires
            pred.accepts(self.output.stderr@),
        ensures
            r == self,
    {
        self
    }

    /// Passes a run through when the expectation accepts its captured
    /// stderr; a mismatch is excluded by contract.
    pub fn stderr<I: IntoOutputPredicate<P>, P: OutputPredicate>(self, pred: I) -> (r: Self)
        requires
            pred.accepts_output(self.output.stderr@),
        ensures
            r == self,
    {
        let p = pred.into_output();
        self.stderr_impl(&p)
    }
}

/// Wrapping of a completed run in an [`Assert`].
pub trait OutputAssertExt: Sized {
    /// Wraps with an interface for assertions on the outcome.
    fn into_assert(self) -> Assert;
}

impl OutputAssertExt for ProcessOutcome {
    fn into_assert(self) -> (a: Assert)
        ensures
            a.output == self,
            a.context@.len() == 0,
    {
        Assert::new(self)
    }
}

/// An exact-code expectation accepts exactly the expected code and no
/// other.
pub proof fn lemma_exact_code_accepts(n: i32, c: i32)
    ensures
        (EqCodePredicate { expected: n }).accepts(c as int) <==> c == n,
{
}

/// The message a failed success check yields carries the raw stderr dump
/// verbatim, as one contiguous span.
pub proof fn lemma_success_message_has_stderr(a: Assert)
    ensures
        exists|i: int|
            0 <= i && i + dumped(a.output.stderr@).len() <= success_message(a).len() && #[trigger] success_message(
                a,
            ).subrange(i, i + dumped(a.output.stderr@).len()) == dumped(a.output.stderr@),
{
    let d = dumped(a.output.stderr@);
    let m = success_message(a);
    match a.output.code {
        Some(c) => {
            let i = "Unexpected failure.\ncode-"@.len() + int_str(c as int).len()
                + "\nstderr=```"@.len();
            assert(m.subrange(i as int, i as int + d.len() as int) =~= d);
        },
        None => {
            let i = "Unexpected failure.\ncode=<interrupted>\nstderr=```"@.len();
            assert(m.subrange(i as int, i as int + d.len() as int) =~= d);
        },
    }
}

} // verus!
