use vstd::prelude::*;
use crate::emit::{program_text, transpile};
use crate::parse::{Diagnostic, UnterminatedBlock, lex, parse_script};

verus! {

/// The Rust program for a script, with the lines that were skipped.
#[derive(Debug, PartialEq, Eq)]
pub struct Transpiled {
    pub code: String,
    pub diagnostics: Vec<Diagnostic>,
}

/// The output for a script: the program text and the skipped lines, or the
/// block that has no closing line.
pub open spec fn script_output(text: Seq<char>) -> Result<(Seq<char>, Seq<Diagnostic>), UnterminatedBlock> {
    match parse_script(text) {
        Ok((s, d)) => Ok((program_text(s), d)),
        Err(e) => Err(e),
    }
}

/// Parses a script and emits its Rust program.
pub fn transpile_source(input: &str) -> (r: Result<Transpiled, UnterminatedBlock>)
    ensures
        match r {
            Ok(t) => script_output(input@) == Ok::<(Seq<char>, Seq<Diagnostic>), UnterminatedBlock>(
                (t.code@, t.diagnostics@),
            ),
            Err(e) => script_output(input@) == Err::<(Seq<char>, Seq<Diagnostic>), UnterminatedBlock>(e),
        },
{
    let parsed = lex(input);
    match parsed {
        Ok(p) => {
            let code = transpile(p.statements.as_slice());
            Ok(Transpiled { code, diagnostics: p.diagnostics })
        },
        Err(e) => Err(e),
    }
}

/// A fixed script always gives the same output, byte for byte.
pub proof fn lemma_output_fixed(first: Seq<char>, second: Seq<char>)
    requires
        first == second,
    ensures
        script_output(first) == script_output(second),
{
}

/// Where a build stands.
#[derive(Debug, Clone, Copy, PartialEq, Eq, Structural)]
pub enum BuildState {
    /// The emitted program is being compiled.
    Compiling,
    /// The compiled program is running.
    Running,
    /// Nothing is left to do.
    Finished,
}

/// What the outside toolchain reports.
#[derive(Debug, Clone, Copy, PartialEq, Eq, Structural)]
pub enum BuildEvent {
    /// The compiler finished, successfully or not.
    Compiled { success: bool },
    /// The compiled program finished.
    Ran,
}

/// What the caller does next.
#[derive(Debug, Clone, Copy, PartialEq, Eq, Structural)]
pub enum BuildAction {
    /// Run the compiled program.
    Run,
    /// Report the compiler's diagnostics as they are; nothing is run.
    ReportCompileFailure,
    /// Report what the program wrote.
    ReportOutput,
    /// The event does not belong to this state: nothing to do.
    Ignore,
}

/// The state and action that follow an event.
pub open spec fn build_step(state: BuildState, event: BuildEvent) -> (BuildState, BuildAction) {
    match (state, event) {
        (BuildState::Compiling, BuildEvent::Compiled { success }) => if success {
            (BuildState::Running, BuildAction::Run)
        } else {
            (BuildState::Finished, BuildAction::ReportCompileFailure)
        },
        (BuildState::Running, BuildEvent::Ran) => (BuildState::Finished, BuildAction::ReportOutput),
        _ => (state, BuildAction::Ignore),
    }
}

/// Decides the next step of a build: the program runs only after it
/// compiled, and a failed compile ends the build without a retry.
pub fn next_step(state: BuildState, event: BuildEvent) -> (r: (BuildState, BuildAction))
    ensures
        r == build_step(state, event),
{
    match (state, event) {
        (BuildState::Compiling, BuildEvent::Compiled { success }) => if success {
            (BuildState::Running, BuildAction::Run)
        } else {
            (BuildState::Finished, BuildAction::ReportCompileFailure)
        },
        (BuildState::Running, BuildEvent::Ran) => (BuildState::Finished, BuildAction::ReportOutput),
        _ => (state, BuildAction::Ignore),
    }
}

/// The script a new project starts with.
pub fn starter_script() -> (r: &'static str)
    ensures
        r@ == "print to terminal \"Hello, World\"\nsleep 1000\nprint to terminal \"After 1 second\""@,
{
    "print to terminal \"Hello, World\"\nsleep 1000\nprint to terminal \"After 1 second\""
}

} // verus!
