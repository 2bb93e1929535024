//! Decompiling a client jar with the bundled CFR decompiler: the errors, the
//! command that is run, and the steps between locating java and the exit of
//! the decompiler.
use vstd::prelude::*;
use crate::text::i32_to_text;
use crate::text::join_with;
use crate::text::joined;
use crate::text::signed_decimal;
use crate::text::decimal;
use crate::text::digits_value;
use crate::text::is_digit;
use crate::text::lemma_decimal_denotes;

verus! {

/// Why a decompilation failed.
#[derive(Debug, Clone, PartialEq, Eq)]
pub enum JavaDecompilerError {
    NoJava,
    CFRExtractionFailure,
    /// The command that was run, and the exit code of the process (`-1`
    /// when it had none).
    DecompilationFailure(String, i32),
}

/// The abstract value of a [`JavaDecompilerError`].
pub enum DecompilerErrorView {
    NoJava,
    CFRExtractionFailure,
    DecompilationFailure(Seq<char>, i32),
}

impl View for JavaDecompilerError {
    type V = DecompilerErrorView;

    open spec fn view(&self) -> DecompilerErrorView {
        match self {
            JavaDecompilerError::NoJava => DecompilerErrorView::NoJava,
            JavaDecompilerError::CFRExtractionFailure => DecompilerErrorView::CFRExtractionFailure,
            JavaDecompilerError::DecompilationFailure(c, code) => DecompilerErrorView::DecompilationFailure(c@, *code),
        }
    }
}

impl DecompilerErrorView {
    /// The human-readable text of the error.
    pub open spec fn text(self) -> Seq<char> {
        match self {
            DecompilerErrorView::NoJava => "Unable to detect an installed version of java"@,
            DecompilerErrorView::CFRExtractionFailure =>
                "Failed to extract cfr decompiler jar to the temp directory"@,
            DecompilerErrorView::DecompilationFailure(command, code) =>
                "Unable to decompile the java source code, process exited with status code "@
                    + signed_decimal(code as int) + "\nThe command executed: '"@ + command + "'"@,
        }
    }
}

impl JavaDecompilerError {
    /// The human-readable text of the error.
    pub fn message(&self) -> (r: String)
        ensures
            r@ == self@.text(),
    {
        match self {
            JavaDecompilerError::NoJava => String::from_str("Unable to detect an installed version of java"),
            JavaDecompilerError::CFRExtractionFailure => String::from_str(
                "Failed to extract cfr decompiler jar to the temp directory",
            ),
            JavaDecompilerError::DecompilationFailure(command, code) => {
                let mut out = String::from_str(
                    "Unable to decompile the java source code, process exited with status code ",
                );
                let code_text = i32_to_text(*code);
                out.append(code_text.as_str());
                out.append("\nThe command executed: '");
                out.append(command.as_str());
                out.append("'");
                out
            },
        }
    }
}

/// The exit code in a failure message is written in decimal: a `-` exactly
/// when it is negative, then digits only, without leading zeros, denoting its
/// magnitude.
pub proof fn lemma_status_code_text(code: i32)
    ensures
        (signed_decimal(code as int)[0] == '-') == (code < 0),
        ({
            let digits = if code < 0 { signed_decimal(code as int).skip(1) } else { signed_decimal(code as int) };
            &&& digits.len() >= 1
            &&& forall|i: int| 0 <= i < digits.len() ==> is_digit(#[trigger] digits[i])
            &&& digits_value(digits) == if code < 0 { -(code as int) } else { code as int }
            &&& (digits[0] == '0' ==> code == 0 && digits.len() == 1)
        }),
{
    let m: nat = if code < 0 { (-(code as int)) as nat } else { code as nat };
    lemma_decimal_denotes(m);
    if code < 0 {
        assert((seq!['-'] + decimal(m)).skip(1) =~= decimal(m));
    } else {
        assert('0' <= decimal(m)[0] <= '9');
    }
}

/// The reported command is the program, then `-jar`, the CFR jar, the input,
/// `--outputdir` and the output directory, separated by single spaces.
pub proof fn lemma_command_text(program: Seq<char>, cfr: Seq<char>, input: Seq<char>, output: Seq<char>)
    ensures
        decompiler_args(cfr, input, output) == seq!["-jar"@, cfr, input, "--outputdir"@, output],
        command_text(program, decompiler_args(cfr, input, output))
            == program + " "@ + "-jar"@ + " "@ + cfr + " "@ + input + " "@ + "--outputdir"@ + " "@ + output,
{
    let a = decompiler_args(cfr, input, output);
    let sp = " "@;
    crate::text::lemma_joined_push(Seq::empty(), a[0], sp);
    assert(Seq::<Seq<char>>::empty().push(a[0]) =~= a.take(1));
    assert(a.take(1).push(a[1]) =~= a.take(2));
    assert(a.take(2).push(a[2]) =~= a.take(3));
    assert(a.take(3).push(a[3]) =~= a.take(4));
    assert(a.take(4).push(a[4]) =~= a);
    crate::text::lemma_joined_push(a.take(1), a[1], sp);
    crate::text::lemma_joined_push(a.take(2), a[2], sp);
    crate::text::lemma_joined_push(a.take(3), a[3], sp);
    crate::text::lemma_joined_push(a.take(4), a[4], sp);
    assert(crate::text::joined(a, sp) =~= a[0] + sp + a[1] + sp + a[2] + sp + a[3] + sp + a[4]);
    assert(command_text(program, a) =~= program + sp + a[0] + sp + a[1] + sp + a[2] + sp + a[3] + sp + a[4]);
}

/// The arguments given to java: `-jar <cfr> <input> --outputdir <output>`.
pub open spec fn decompiler_args(cfr: Seq<char>, input: Seq<char>, output: Seq<char>) -> Seq<Seq<char>> {
    seq!["-jar"@, cfr, input, "--outputdir"@, output]
}

/// The command as it is reported: the program and its arguments, separated
/// by single spaces.
pub open spec fn command_text(program: Seq<char>, args: Seq<Seq<char>>) -> Seq<char> {
    program + " "@ + joined(args, " "@)
}

/// The arguments that run CFR on `input`, writing the sources to `output`.
pub fn decompiler_arguments(cfr: &str, input: &str, output: &str) -> (r: Vec<String>)
    ensures
        r@.map_values(|s: String| s@) == decompiler_args(cfr@, input@, output@),
{
    let mut args: Vec<String> = Vec::new();
    args.push(String::from_str("-jar"));
    args.push(String::from_str(cfr));
    args.push(String::from_str(input));
    args.push(String::from_str("--outputdir"));
    args.push(String::from_str(output));
    assert(args@.map_values(|s: String| s@) =~= decompiler_args(cfr@, input@, output@));
    args
}

/// The command line that is reported when the decompiler fails.
pub fn command_line(program: &str, args: &Vec<String>) -> (r: String)
    ensures
        r@ == command_text(program@, args@.map_values(|s: String| s@)),
{
    let mut out = String::from_str(program);
    out.append(" ");
    let rest = join_with(args, " ");
    out.append(rest.as_str());
    out
}


/// Where a decompilation stands.
#[derive(Debug)]
pub enum DecompileStage {
    /// Looking for `java` on the path.
    LocatingJava,
    /// Java was found; writing the bundled CFR jar out.
    ExtractingCfr { java: String },
    /// The decompiler runs; `command` is how it was invoked.
    Running { command: String },
    /// The outcome has been given.
    Finished,
}

/// What the outside world reports back to a decompilation.
#[derive(Debug)]
pub enum DecompileEvent {
    /// The path of `java`, or `None` when it is not installed.
    JavaLocated(Option<String>),
    /// The path of the extracted CFR jar, or `None` when writing it failed
    /// or the file is not there afterwards.
    CfrExtracted(Option<String>),
    /// The decompiler exited; `code` is its exit code, if it had one.
    Exited { success: bool, code: Option<i32> },
}

/// What a decompilation asks the outside world to do next.
#[derive(Debug)]
pub enum DecompileAction {
    /// Extract the bundled CFR jar.
    ExtractCfr,
    /// Run `program` with `args`, logging its error output until it exits.
    Spawn { program: String, args: Vec<String> },
    /// The decompilation is over, with this outcome.
    Finish(Result<(), JavaDecompilerError>),
    /// The event did not fit the stage: nothing to do.
    Wait,
}

/// The abstract value of a [`DecompileStage`].
pub enum StageView {
    LocatingJava,
    ExtractingCfr(Seq<char>),
    Running(Seq<char>),
    Finished,
}

/// The abstract value of a [`DecompileEvent`].
pub enum EventView {
    JavaLocated(Option<Seq<char>>),
    CfrExtracted(Option<Seq<char>>),
    Exited(bool, Option<i32>),
}

/// The abstract value of a [`DecompileAction`].
pub enum ActionView {
    ExtractCfr,
    Spawn(Seq<char>, Seq<Seq<char>>),
    Finish(Result<(), DecompilerErrorView>),
    Wait,
}

impl View for DecompileStage {
    type V = StageView;

    open spec fn view(&self) -> StageView {
        match self {
            DecompileStage::LocatingJava => StageView::LocatingJava,
            DecompileStage::ExtractingCfr { java } => StageView::ExtractingCfr(java@),
            DecompileStage::Running { command } => StageView::Running(command@),
            DecompileStage::Finished => StageView::Finished,
        }
    }
}

impl View for DecompileEvent {
    type V = EventView;

    open spec fn view(&self) -> EventView {
        match self {
            DecompileEvent::JavaLocated(j) => EventView::JavaLocated(j.deep_view()),
            DecompileEvent::CfrExtracted(c) => EventView::CfrExtracted(c.deep_view()),
            DecompileEvent::Exited { success, code } => EventView::Exited(*success, *code),
        }
    }
}

impl View for DecompileAction {
    type V = ActionView;

    open spec fn view(&self) -> ActionView {
        match self {
            DecompileAction::ExtractCfr => ActionView::ExtractCfr,
            DecompileAction::Spawn { program, args } => ActionView::Spawn(
                program@,
                args@.map_values(|s: String| s@),
            ),
            DecompileAction::Finish(Ok(())) => ActionView::Finish(Ok(())),
            DecompileAction::Finish(Err(e)) => ActionView::Finish(Err(e@)),
            DecompileAction::Wait => ActionView::Wait,
        }
    }
}

/// One step of a decompilation of `input` into `output`: java must be found
/// before CFR is extracted, both before the decompiler runs, and a failed run
/// reports the exact command with its exit code (`-1` when there was none).
pub open spec fn decompile_step(input: Seq<char>, output: Seq<char>, stage: StageView, event: EventView) -> (StageView, ActionView) {
    match (stage, event) {
        (StageView::LocatingJava, EventView::JavaLocated(None)) =>
            (StageView::Finished, ActionView::Finish(Err(DecompilerErrorView::NoJava))),
        (StageView::LocatingJava, EventView::JavaLocated(Some(java))) =>
            (StageView::ExtractingCfr(java), ActionView::ExtractCfr),
        (StageView::ExtractingCfr(_), EventView::CfrExtracted(None)) =>
            (StageView::Finished, ActionView::Finish(Err(DecompilerErrorView::CFRExtractionFailure))),
        (StageView::ExtractingCfr(java), EventView::CfrExtracted(Some(cfr))) => {
            let args = decompiler_args(cfr, input, output);
            (StageView::Running(command_text(java, args)), ActionView::Spawn(java, args))
        },
        (StageView::Running(_), EventView::Exited(true, _)) => (StageView::Finished, ActionView::Finish(Ok(()))),
        (StageView::Running(command), EventView::Exited(false, code)) => (
            StageView::Finished,
            ActionView::Finish(Err(DecompilerErrorView::DecompilationFailure(
                command,
                match code { Some(c) => c, None => -1i32 },
            ))),
        ),
        (s, _) => (s, ActionView::Wait),
    }
}

/// A decompilation of `input` into the directory `output`, driven step by step.
#[derive(Debug)]
pub struct Decompilation {
    pub input: String,
    pub output: String,
    pub stage: DecompileStage,
}

impl Decompilation {
    /// Starts a decompilation; its first need is the location of java.
    pub fn new(input: String, output: String) -> (r: Decompilation)
        ensures
            r.input@ == input@,
            r.output@ == output@,
            r.stage@ == StageView::LocatingJava,
    {
        Decompilation { input, output, stage: DecompileStage::LocatingJava }
    }

    /// Takes in what the outside world reports and says what to do next.
    pub fn step(&mut self, event: DecompileEvent) -> (r: DecompileAction)
        ensures
            final(self).input@ == old(self).input@,
            final(self).output@ == old(self).output@,
            (final(self).stage@, r@) == decompile_step(old(self).input@, old(self).output@, old(self).stage@, event@),
    {
        match (&self.stage, event) {
            (DecompileStage::LocatingJava, DecompileEvent::JavaLocated(None)) => {
                self.stage = DecompileStage::Finished;
                DecompileAction::Finish(Err(JavaDecompilerError::NoJava))
            },
            (DecompileStage::LocatingJava, DecompileEvent::JavaLocated(Some(java))) => {
                self.stage = DecompileStage::ExtractingCfr { java };
                DecompileAction::ExtractCfr
            },
            (DecompileStage::ExtractingCfr { .. }, DecompileEvent::CfrExtracted(None)) => {
                self.stage = DecompileStage::Finished;
                DecompileAction::Finish(Err(JavaDecompilerError::CFRExtractionFailure))
            },
            (DecompileStage::ExtractingCfr { java }, DecompileEvent::CfrExtracted(Some(cfr))) => {
                let program = java.clone();
                let args = decompiler_arguments(cfr.as_str(), self.input.as_str(), self.output.as_str());
                let command = command_line(program.as_str(), &args);
                self.stage = DecompileStage::Running { command };
                DecompileAction::Spawn { program, args }
            },
            (DecompileStage::Running { .. }, DecompileEvent::Exited { success: true, .. }) => {
                self.stage = DecompileStage::Finished;
                DecompileAction::Finish(Ok(()))
            },
            (DecompileStage::Running { command }, DecompileEvent::Exited { success: false, code }) => {
                let command = command.clone();
                let code = match code {
                    Some(c) => c,
                    None => -1i32,
                };
                self.stage = DecompileStage::Finished;
                DecompileAction::Finish(Err(JavaDecompilerError::DecompilationFailure(command, code)))
            },
            _ => DecompileAction::Wait,
        }
    }
}


/// The actions a decompilation asks for, from `stage` on, as `events` come in.
pub open spec fn decompile_trace(input: Seq<char>, output: Seq<char>, stage: StageView, events: Seq<EventView>) -> Seq<ActionView>
    decreases events.len(),
{
    if events.len() == 0 {
        Seq::empty()
    } else {
        let (next, action) = decompile_step(input, output, stage, events[0]);
        seq![action] + decompile_trace(input, output, next, events.drop_first())
    }
}

/// The java that a stage remembers.
pub open spec fn stage_java(stage: StageView) -> Option<Seq<char>> {
    match stage {
        StageView::ExtractingCfr(j) => Some(j),
        _ => None,
    }
}

/// The command that a stage remembers.
pub open spec fn stage_command(stage: StageView) -> Option<Seq<char>> {
    match stage {
        StageView::Running(c) => Some(c),
        _ => None,
    }
}

/// The exit code that a failed run reports.
pub open spec fn reported_code(code: Option<i32>) -> i32 {
    match code {
        Some(c) => c,
        None => -1i32,
    }
}

proof fn lemma_decompile_trace_len(input: Seq<char>, output: Seq<char>, stage: StageView, events: Seq<EventView>)
    ensures
        decompile_trace(input, output, stage, events).len() == events.len(),
    decreases events.len(),
{
    if events.len() > 0 {
        let (next, _) = decompile_step(input, output, stage, events[0]);
        lemma_decompile_trace_len(input, output, next, events.drop_first());
    }
}

proof fn lemma_decompile_finished_waits(input: Seq<char>, output: Seq<char>, events: Seq<EventView>)
    ensures
        forall|k: int| 0 <= k < events.len() ==> #[trigger] decompile_trace(input, output, StageView::Finished, events)[k]
            == ActionView::Wait,
    decreases events.len(),
{
    lemma_decompile_trace_len(input, output, StageView::Finished, events);
    if events.len() > 0 {
        lemma_decompile_finished_waits(input, output, events.drop_first());
        let t = decompile_trace(input, output, StageView::Finished, events);
        assert forall|k: int| 0 <= k < events.len() implies #[trigger] t[k] == ActionView::Wait by {
            if k > 0 {
                assert(t[k] == decompile_trace(input, output, StageView::Finished, events.drop_first())[k - 1]);
            }
        }
    }
}

proof fn lemma_decompile_trace_general(input: Seq<char>, output: Seq<char>, stage: StageView, events: Seq<EventView>)
    ensures
        forall|k: int| 0 <= k < events.len() ==> (#[trigger] decompile_trace(input, output, stage, events)[k]
            matches ActionView::Spawn(program, args) ==> (exists|cfr: Seq<char>|
                events[k] == EventView::CfrExtracted(Some(cfr)) && args == decompiler_args(cfr, input, output))
                && (stage_java(stage) == Some(program)
                || exists|j: int| 0 <= j < k && events[j] == EventView::JavaLocated(Some(program)))),
        forall|k: int| 0 <= k < events.len() ==> (#[trigger] decompile_trace(input, output, stage, events)[k]
            matches ActionView::Finish(Err(DecompilerErrorView::DecompilationFailure(command, code)))
            ==> (exists|c: Option<i32>| events[k] == EventView::Exited(false, c) && code == reported_code(c))
                && (stage_command(stage) == Some(command)
                || exists|j: int| #![trigger decompile_trace(input, output, stage, events)[j]] 0 <= j < k && (decompile_trace(input, output, stage, events)[j]
                    matches ActionView::Spawn(p, a) && command == command_text(p, a)))),
        forall|k1: int, k2: int| 0 <= k1 < k2 < events.len()
            && #[trigger] decompile_trace(input, output, stage, events)[k1] is Finish
            ==> #[trigger] decompile_trace(input, output, stage, events)[k2] == ActionView::Wait,
    decreases events.len(),
{
    lemma_decompile_trace_len(input, output, stage, events);
    if events.len() > 0 {
        let (next, a) = decompile_step(input, output, stage, events[0]);
        let rest = events.drop_first();
        let t = decompile_trace(input, output, stage, events);
        let tr = decompile_trace(input, output, next, rest);
        lemma_decompile_trace_general(input, output, next, rest);
        lemma_decompile_trace_len(input, output, next, rest);
        assert(t[0] == a);
        assert forall|k: int| 1 <= k < events.len() implies #[trigger] t[k] == tr[k - 1] && events[k] == rest[k - 1] by {}
        assert forall|k: int| 0 <= k < events.len() implies (#[trigger] t[k] matches ActionView::Spawn(program, args)
            ==> (exists|cfr: Seq<char>| events[k] == EventView::CfrExtracted(Some(cfr))
                && args == decompiler_args(cfr, input, output)) && (stage_java(stage) == Some(program)
                || exists|j: int| 0 <= j < k && events[j] == EventView::JavaLocated(Some(program)))) by {
            if k > 0 && t[k] is Spawn {
                let program = t[k]->Spawn_0;
                assert(t[k] == tr[k - 1]);
                if stage_java(next) == Some(program) {
                    if stage_java(stage) != Some(program) {
                        assert(events[0] == EventView::JavaLocated(Some(program)));
                    }
                } else {
                    let j = choose|j: int| 0 <= j < k - 1 && rest[j] == EventView::JavaLocated(Some(program));
                    assert(events[j + 1] == rest[j]);
                }
            }
        }
        assert forall|k: int| 0 <= k < events.len() implies (#[trigger] t[k]
            matches ActionView::Finish(Err(DecompilerErrorView::DecompilationFailure(command, code)))
            ==> (exists|c: Option<i32>| events[k] == EventView::Exited(false, c) && code == reported_code(c))
                && (stage_command(stage) == Some(command)
                || exists|j: int| #![trigger t[j]] 0 <= j < k && (t[j] matches ActionView::Spawn(p, a) && command == command_text(p, a)))) by {
            if t[k] matches ActionView::Finish(Err(DecompilerErrorView::DecompilationFailure(_, _))) {
                let code = t[k]->Finish_0->Err_0->DecompilationFailure_1;
                if k == 0 {
                    let c = events[0]->Exited_1;
                    assert(events[0] == EventView::Exited(false, c) && code == reported_code(c));
                } else {
                    let c = events[k]->Exited_1;
                    assert(t[k] == tr[k - 1]);
                    assert(events[k] == EventView::Exited(false, c) && code == reported_code(c));
                    let command = t[k]->Finish_0->Err_0->DecompilationFailure_0;
                    if stage_command(next) == Some(command) {
                        if stage_command(stage) != Some(command) {
                            assert(t[0] matches ActionView::Spawn(p, a) && command == command_text(p, a));
                        }
                    } else {
                        let j = choose|j: int| #![trigger tr[j]] 0 <= j < k - 1
                            && (tr[j] matches ActionView::Spawn(p, a) && command == command_text(p, a));
                        assert(t[j + 1] == tr[j]);
                    }
                }
            }
        }
        assert forall|k1: int, k2: int| 0 <= k1 < k2 < events.len() && #[trigger] t[k1] is Finish
            implies #[trigger] t[k2] == ActionView::Wait by {
            if k1 == 0 {
                assert(next == StageView::Finished);
                lemma_decompile_finished_waits(input, output, rest);
                assert(t[k2] == tr[k2 - 1]);
            } else {
                assert(t[k1] == tr[k1 - 1]);
                assert(t[k2] == tr[k2 - 1]);
            }
        }
    }
}

/// Whatever the outside world reports, a decompilation started afresh runs
/// the decompiler only with the java it was told of, on the CFR jar just
/// extracted, with the arguments `-jar <cfr> <input> --outputdir <output>`;
/// reports a failed run with the exact command that was run and the exit code
/// (`-1` when there was none); and gives its outcome once.
pub proof fn lemma_decompile_outcome(input: Seq<char>, output: Seq<char>, events: Seq<EventView>)
    ensures
        forall|k: int| 0 <= k < events.len() ==> (#[trigger] decompile_trace(input, output, StageView::LocatingJava, events)[k]
            matches ActionView::Spawn(program, args) ==> (exists|cfr: Seq<char>|
                events[k] == EventView::CfrExtracted(Some(cfr)) && args == decompiler_args(cfr, input, output))
                && exists|j: int| 0 <= j < k && events[j] == EventView::JavaLocated(Some(program))),
        forall|k: int| 0 <= k < events.len() ==> (#[trigger] decompile_trace(input, output, StageView::LocatingJava, events)[k]
            matches ActionView::Finish(Err(DecompilerErrorView::DecompilationFailure(command, code)))
            ==> (exists|c: Option<i32>| events[k] == EventView::Exited(false, c) && code == reported_code(c))
                && exists|j: int| #![trigger decompile_trace(input, output, StageView::LocatingJava, events)[j]] 0 <= j < k && (decompile_trace(input, output, StageView::LocatingJava, events)[j]
                    matches ActionView::Spawn(p, a) && command == command_text(p, a))),
        forall|k1: int, k2: int| 0 <= k1 < k2 < events.len()
            && #[trigger] decompile_trace(input, output, StageView::LocatingJava, events)[k1] is Finish
            ==> #[trigger] decompile_trace(input, output, StageView::LocatingJava, events)[k2] == ActionView::Wait,
        forall|c: i32| #[trigger] reported_code(Some(c)) == c,
        reported_code(None) == -1,
{
    lemma_decompile_trace_general(input, output, StageView::LocatingJava, events);
}

} // verus!
