//! The plain driver: like [`crate::lox`], but it takes each line typed at
//! the prompt as it stands and does not flush the prompt.

use vstd::prelude::*;
use crate::error::LoxError;
use crate::executer::Executer;
use crate::lox::{
    is_exit, is_prompt, is_read_file, prompt_after, prompts_after, settle, settled, Action,
};

verus! {

/// The driver of an executer of type `T`.
pub struct Interpreter<T: Executer> {
    executer: T,
}

/// A driver for `executer`.
pub fn new<T: Executer>(executer: T) -> (interpreter: Interpreter<T>)
    ensures
        interpreter.inner() == executer,
{
    Interpreter { executer }
}

impl<T: Executer> Interpreter<T> {
    /// The executer that the driver hands program texts to.
    pub closed spec fn inner(&self) -> T {
        self.executer
    }

    /// The executer that the driver hands program texts to.
    pub fn executer(&self) -> (executer: &T)
        ensures
            *executer == self.inner(),
    {
        &self.executer
    }

    /// Starts the driver with the arguments of the command line. With more
    /// than a script the usage is shown and the run fails; with a script,
    /// the script is to be read; with neither, the prompt is shown.
    pub fn exec(&mut self, args: Vec<String>) -> (action: Action)
        ensures
            final(self).inner() == old(self).inner(),
            args@.len() > 2 ==> is_exit(
                action,
                "Usage: rlox [script]\n"@,
                Err(LoxError::InvalidParameter),
            ),
            args@.len() == 2 ==> is_read_file(action, args@[1]@),
            args@.len() < 2 ==> is_prompt(action, "> "@, false),
    {
        if args.len() > 2 {
            Action::Exit {
                output: "Usage: rlox [script]\n".to_owned(),
                result: Err(LoxError::InvalidParameter),
            }
        } else if args.len() == 2 {
            Action::ReadFile { path: args[1].clone() }
        } else {
            Action::Prompt { output: "> ".to_owned(), flush: false }
        }
    }

    /// Runs the text of the script and ends the run with what came of it.
    pub fn run_file(&mut self, contents: String) -> (action: Action)
        ensures
            exists|outcome: Result<(), LoxError>| #[trigger]
                T::runs(old(self).inner(), contents@, final(self).inner(), outcome)
                    && is_exit(action, settled(outcome, false).0, settled(outcome, false).1),
    {
        let (output, result) = self.run(contents, false);
        Action::Exit { output, result }
    }

    /// Answers a line read at the prompt, taken as it stands, line break
    /// and all: `exit` ends the run, and any other line is run and answered
    /// with the next prompt.
    pub fn run_prompt(&mut self, line: String) -> (action: Action)
        ensures
            if line@ == "exit"@ {
                final(self).inner() == old(self).inner() && is_exit(
                    action,
                    Seq::empty(),
                    Ok(()),
                )
            } else {
                exists|outcome: Result<(), LoxError>| #[trigger]
                    T::runs(old(self).inner(), line@, final(self).inner(), outcome)
                        && prompts_after(outcome, "> "@, false, action)
            },
    {
        if line == "exit".to_owned() {
            return Action::Exit { output: String::new(), result: Ok(()) };
        }
        let outcome = self.executer.run(line);
        assert(T::runs(old(self).inner(), line@, self.inner(), outcome));
        prompt_after(outcome, "> ", false)
    }

    /// Runs `source` and settles what came of it.
    pub fn run(&mut self, source: String, ignore_interpreter_error: bool) -> (answer: (
        String,
        Result<(), LoxError>,
    ))
        ensures
            exists|outcome: Result<(), LoxError>| #[trigger]
                T::runs(old(self).inner(), source@, final(self).inner(), outcome) && (
                    answer.0@,
                    answer.1,
                ) == settled(outcome, ignore_interpreter_error),
    {
        let outcome = self.executer.run(source);
        let answer = settle(outcome, ignore_interpreter_error);
        assert(T::runs(old(self).inner(), source@, self.inner(), outcome));
        answer
    }
}

} // verus!
