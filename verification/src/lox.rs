//! The driver: what to do with the command line, with a file and with each
//! line typed at the prompt.
//!
//! The driver reads and writes nothing itself. Each of its methods answers
//! with an [`Action`] that says what is to be written, and what is to be
//! read and handed to it next.

use vstd::prelude::*;
use crate::error::LoxError;
use crate::runner::Runner;
use crate::text::trimmed_end;

verus! {

/// What the caller of the driver has to do next.
pub enum Action {
    /// Write `output`, flush it if `flush` is set, read one line and hand
    /// it to `run_prompt`.
    Prompt { output: String, flush: bool },
    /// Read the file at `path` whole and hand its text to `run_file`.
    ReadFile { path: String },
    /// Write `output` and stop: the run has ended with `result`.
    Exit { output: String, result: Result<(), LoxError> },
}

/// What a run that ended with `outcome` is answered with: the text to
/// write, and the result that the driver goes on with. A runtime error is
/// reported, and forgiven where `ignore` is set; any other error is passed
/// on as it is.
pub open spec fn settled(outcome: Result<(), LoxError>, ignore: bool) -> (Seq<char>, Result<
    (),
    LoxError,
>) {
    match outcome {
        Ok(_) => (Seq::empty(), Ok(())),
        Err(LoxError::RuntimeError) => (
            "Runtime error"@,
            if ignore {
                Ok(())
            } else {
                Err(LoxError::RuntimeError)
            },
        ),
        Err(err) => (Seq::empty(), Err(err)),
    }
}

/// Whether `action` ends the run, writing `output` and returning `result`.
pub open spec fn is_exit(action: Action, output: Seq<char>, result: Result<(), LoxError>) -> bool {
    action matches Action::Exit { output: o, result: r } && o@ == output && r == result
}

/// Whether `action` asks for the text of the file at `path`.
pub open spec fn is_read_file(action: Action, path: Seq<char>) -> bool {
    action matches Action::ReadFile { path: p } && p@ == path
}

/// Whether `action` asks for a line after writing `output`.
pub open spec fn is_prompt(action: Action, output: Seq<char>, flush: bool) -> bool {
    action matches Action::Prompt { output: o, flush: f } && o@ == output && f == flush
}

/// Whether `action` is the answer of the prompt to a run that ended with
/// `outcome`: the report of a runtime error, if there was one, and the
/// next prompt, written with `flush`; or the end of the run, if the run
/// failed otherwise.
pub open spec fn prompts_after(
    outcome: Result<(), LoxError>,
    prompt: Seq<char>,
    flush: bool,
    action: Action,
) -> bool {
    let (output, result) = settled(outcome, true);
    if result is Ok {
        is_prompt(action, output + prompt, flush)
    } else {
        is_exit(action, output, result)
    }
}

/// The answer to a run that ended with `outcome`.
pub fn settle(outcome: Result<(), LoxError>, ignore_interpreter_error: bool) -> (answer: (
    String,
    Result<(), LoxError>,
))
    ensures
        (answer.0@, answer.1) == settled(outcome, ignore_interpreter_error),
{
    if let Err(err) = outcome {
        match err {
            LoxError::RuntimeError => {
                let output = err.to_string();
                if !ignore_interpreter_error {
                    (output, Err(err))
                } else {
                    (output, Ok(()))
                }
            },
            _ => (String::new(), Err(err)),
        }
    } else {
        (String::new(), Ok(()))
    }
}

/// The answer of the prompt to a run that ended with `outcome`.
pub fn prompt_after(outcome: Result<(), LoxError>, prompt: &str, flush: bool) -> (action: Action)
    ensures
        prompts_after(outcome, prompt@, flush, action),
{
    let (mut output, result) = settle(outcome, true);
    match result {
        Ok(_) => {
            output.append(prompt);
            Action::Prompt { output, flush }
        },
        Err(err) => Action::Exit { output, result: Err(err) },
    }
}

/// The driver of a runner of type `T`.
pub struct Lox<T: Runner> {
    executer: T,
}

/// A driver for `executer`.
pub fn new<T: Runner>(executer: T) -> (lox: Lox<T>)
    ensures
        lox.inner() == executer,
{
    Lox { executer }
}

impl<T: Runner> Lox<T> {
    /// The runner that the driver hands program texts to.
    pub closed spec fn inner(&self) -> T {
        self.executer
    }

    /// The runner that the driver hands program texts to.
    pub fn executer(&self) -> (executer: &T)
        ensures
            *executer == self.inner(),
    {
        &self.executer
    }

    /// Whether `action` is the answer to `line`, typed at the prompt, when
    /// the runner goes from `pre` to `post`: `exit` ends the run, and any
    /// other line is run and answered with the next prompt.
    pub open spec fn answered(pre: T, line: Seq<char>, post: T, action: Action) -> bool {
        if line == "exit"@ {
            post == pre && is_exit(action, Seq::empty(), Ok(()))
        } else {
            exists|outcome: Result<(), LoxError>| #[trigger]
                T::runs(pre, line, post, outcome) && prompts_after(outcome, "> "@, true, action)
        }
    }

    /// Starts the driver with the arguments of the command line. With more
    /// than a script the usage is shown and the run fails; with a script,
    /// the script is to be read; with neither, the prompt is shown.
    pub fn exec(&mut self, args: Vec<String>) -> (action: Action)
        ensures
            final(self).inner() == old(self).inner(),
            args@.len() > 2 ==> is_exit(
                action,
                "Usage: lox [script]\n"@,
                Err(LoxError::InvalidParameter),
            ),
            args@.len() == 2 ==> is_read_file(action, args@[1]@),
            args@.len() < 2 ==> is_prompt(action, "> "@, true),
    {
        if args.len() > 2 {
            Action::Exit {
                output: "Usage: lox [script]\n".to_owned(),
                result: Err(LoxError::InvalidParameter),
            }
        } else if args.len() == 2 {
            Action::ReadFile { path: args[1].clone() }
        } else {
            Action::Prompt { output: "> ".to_owned(), flush: true }
        }
    }

    /// Runs the text of the script and ends the run with what came of it.
    pub fn run_file(&mut self, contents: String) -> (action: Action)
        ensures
            exists|outcome: Result<(), LoxError>| #[trigger]
                T::runs(old(self).inner(), contents@, final(self).inner(), outcome) && is_exit(
                    action,
                    settled(outcome, false).0,
                    settled(outcome, false).1,
                ),
    {
        let (output, result) = self.run(contents, false);
        Action::Exit { output, result }
    }

    /// Answers a line read at the prompt: the white space at its end is
    /// dropped, and the rest is answered as [`Lox::answer`] says.
    pub fn run_prompt(&mut self, line: String) -> (action: Action)
        ensures
            Self::answered(old(self).inner(), trimmed_end(line@), final(self).inner(), action),
    {
        let line = line.as_str().trim_end().to_owned();
        self.answer(line)
    }

    /// Answers a line, taken as it stands.
    pub fn answer(&mut self, line: String) -> (action: Action)
        ensures
            Self::answered(old(self).inner(), line@, final(self).inner(), action),
    {
        if line == "exit".to_owned() {
            return Action::Exit { output: String::new(), result: Ok(()) };
        }
        let outcome = self.executer.run(line);
        assert(T::runs(old(self).inner(), line@, self.inner(), outcome));
        prompt_after(outcome, "> ", true)
    }

    /// Runs `source` and settles what came of it.
    pub fn run(&mut self, source: String, ignore_interpreter_error: bool) -> (answer: (
        String,
        Result<(), LoxError>,
    ))
        ensures
            exists|outcome: Result<(), LoxError>| #[trigger]
                T::runs(old(self).inner(), source@, final(self).inner(), outcome) && (
                    answer.0@,
                    answer.1,
                ) == settled(outcome, ignore_interpreter_error),
    {
        let outcome = self.executer.run(source);
        let answer = settle(outcome, ignore_interpreter_error);
        assert(T::runs(old(self).inner(), source@, self.inner(), outcome));
        answer
    }
}

} // verus!
