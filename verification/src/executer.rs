//! What executes a program text, and the executer that echoes it.

use vstd::prelude::*;
use crate::error::{parse_error_text, ErrorReporter, LoxError};

verus! {

/// Something that executes a program text.
///
/// `runs` says what an execution may do: whether one of `source` that
/// starts with the executer in state `pre` can leave it in state `post` and
/// end with `result`.
pub trait Executer: Sized {
    open spec fn runs(
        pre: Self,
        source: Seq<char>,
        post: Self,
        result: Result<(), LoxError>,
    ) -> bool {
        true
    }

    fn run(&mut self, source: String) -> (result: Result<(), LoxError>)
        ensures
            Self::runs(*old(self), source@, *final(self), result),
    ;
}

/// The executer that echoes each program text on a line of its own. It
/// collects what it has to say; the caller takes the text and writes it out.
pub struct EvalExecuter {
    had_error: bool,
    output: String,
}

/// The state of an [`EvalExecuter`]: whether an error was reported to it,
/// and the text that it has produced and that was not yet taken.
pub struct EvalExecuterView {
    pub had_error: bool,
    pub output: Seq<char>,
}

impl View for EvalExecuter {
    type V = EvalExecuterView;

    closed spec fn view(&self) -> EvalExecuterView {
        EvalExecuterView { had_error: self.had_error, output: self.output@ }
    }
}

impl EvalExecuter {
    /// An executer that has seen no error and produced no text.
    pub fn new() -> (executer: Self)
        ensures
            executer@ == (EvalExecuterView { had_error: false, output: Seq::empty() }),
    {
        Self { had_error: false, output: String::new() }
    }

    /// Whether an error was reported to the executer.
    pub fn had_error(&self) -> (had_error: bool)
        ensures
            had_error == self@.had_error,
    {
        self.had_error
    }

    /// Hands out the text produced so far, and forgets it.
    pub fn take_output(&mut self) -> (output: String)
        ensures
            output@ == old(self)@.output,
            final(self)@ == (EvalExecuterView { output: Seq::empty(), ..old(self)@ }),
    {
        let mut output = String::new();
        std::mem::swap(&mut self.output, &mut output);
        output
    }
}

impl Executer for EvalExecuter {
    open spec fn runs(
        pre: Self,
        source: Seq<char>,
        post: Self,
        result: Result<(), LoxError>,
    ) -> bool {
        &&& result is Ok
        &&& post@ == (EvalExecuterView { output: pre@.output + source + seq!['\n'], ..pre@ })
    }

    fn run(&mut self, source: String) -> (result: Result<(), LoxError>) {
        proof {
            reveal_strlit("\n");
        }
        self.output.append(source.as_str());
        self.output.append("\n");
        assert(self.output@ =~= old(self).output@ + source@ + seq!['\n']);
        Ok(())
    }
}

impl ErrorReporter for EvalExecuter {
    /// A located error is absorbed: its report is added to the output and
    /// the executer remembers that it saw one. Any other error is handed
    /// back.
    fn report(&mut self, err: LoxError) -> (result: Result<(), LoxError>)
        ensures
            match err {
                LoxError::ParseError { line, where_, message } => {
                    &&& result is Ok
                    &&& final(self)@ == (EvalExecuterView {
                        had_error: true,
                        output: old(self)@.output + parse_error_text(
                            line as nat,
                            where_@,
                            message@,
                        ),
                    })
                },
                _ => result == Err::<(), LoxError>(err) && final(self)@ == old(self)@,
            },
    {
        match err {
            LoxError::ParseError { .. } => {
                let text = err.to_string();
                self.output.append(text.as_str());
                self.had_error = true;
                Ok(())
            },
            _ => Err(err),
        }
    }
}

} // verus!
