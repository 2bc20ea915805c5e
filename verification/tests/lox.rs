use rlox::error::LoxError;
use rlox::lox::{new, Action, Lox};
use rlox::runner::Runner;
use std::io::{BufRead, Read, Write};
use std::rc::Rc;
use std::sync::Mutex;

struct MockExecuter<'a>(Rc<Mutex<&'a mut dyn Write>>);

impl<'a> Runner for MockExecuter<'a> {
    fn run(&mut self, source: String) -> Result<(), LoxError> {
        self.0.lock().unwrap().write_all(source.as_bytes()).map_err(LoxError::IOError)?;
        Ok(())
    }
}

fn no_file(_path: &str) -> std::io::Result<String> {
    Err(std::io::Error::new(std::io::ErrorKind::NotFound, "no file"))
}

fn drive_lox<'a, T: Runner>(
    lox: &mut Lox<T>,
    input: Rc<Mutex<&'a mut dyn BufRead>>,
    output: Rc<Mutex<&'a mut dyn Write>>,
    args: Vec<String>,
    read_file: &dyn Fn(&str) -> std::io::Result<String>,
) -> Result<(), LoxError> {
    let mut action = lox.exec(args);
    loop {
        match action {
            Action::Prompt { output: text, flush } => {
                output.lock().unwrap().write_all(text.as_bytes()).map_err(LoxError::IOError)?;
                if flush {
                    output.lock().unwrap().flush().map_err(LoxError::IOError)?;
                }
                let mut line = String::new();
                input.lock().unwrap().read_line(&mut line).map_err(LoxError::IOError)?;
                action = lox.run_prompt(line);
            }
            Action::ReadFile { path } => {
                let contents = read_file(&path).map_err(LoxError::IOError)?;
                action = lox.run_file(contents);
            }
            Action::Exit { output: text, result } => {
                output.lock().unwrap().write_all(text.as_bytes()).map_err(LoxError::IOError)?;
                return result;
            }
        }
    }
}

#[test]
fn lox_invalid_args() {
    let mut input = "".as_bytes();
    let mut output_buffer = Vec::new();
    {
        let output: Rc<Mutex<&mut dyn Write>> = Rc::new(Mutex::new(&mut output_buffer));
        let mut interpreter = new(MockExecuter(output.clone()));
        let err = drive_lox(
            &mut interpreter,
            Rc::new(Mutex::new(&mut input)),
            output.clone(),
            vec![String::from("a"), String::from("b"), String::from("c")],
            &no_file,
        )
        .err();
        match err {
            Some(LoxError::InvalidParameter) => (),
            _ => panic!("Invalid error"),
        }
    }
    assert_eq!(output_buffer, b"Usage: lox [script]\n");
}

#[test]
fn lox_run_file() {
    let mut input = "".as_bytes();
    let mut output_buffer = Vec::new();
    {
        let output: Rc<Mutex<&mut dyn Write>> = Rc::new(Mutex::new(&mut output_buffer));
        let mut tmpfile = tempfile::NamedTempFile::new().unwrap();
        tmpfile.write_all(b"hello\nworld").unwrap();
        let file_path = tmpfile.path().to_str().unwrap().to_string();
        let mut interpreter = new(MockExecuter(output.clone()));
        let err = drive_lox(
            &mut interpreter,
            Rc::new(Mutex::new(&mut input)),
            output.clone(),
            vec![String::from("lox"), file_path.clone()],
            &|path: &str| {
                assert_eq!(path, file_path);
                let mut contents = String::new();
                tmpfile.reopen()?.read_to_string(&mut contents)?;
                Ok(contents)
            },
        )
        .err();
        assert_eq!(err.is_none(), true);
    }
    assert_eq!(output_buffer, b"hello\nworld");
}

#[test]
fn lox_run_prompt() {
    let mut input = "hello\nworld\nexit".as_bytes();
    let mut output_buffer = Vec::new();
    {
        let output: Rc<Mutex<&mut dyn Write>> = Rc::new(Mutex::new(&mut output_buffer));
        let mut interpreter = new(MockExecuter(output.clone()));
        let err = drive_lox(
            &mut interpreter,
            Rc::new(Mutex::new(&mut input)),
            output.clone(),
            vec![],
            &no_file,
        )
        .err();
        assert_eq!(err.is_none(), true);
    }
    assert_eq!(output_buffer, b"> hello> world> ");
}

struct Broken(bool);

impl Runner for Broken {
    fn run(&mut self, _source: String) -> Result<(), LoxError> {
        if self.0 {
            Err(LoxError::RuntimeError)
        } else {
            Err(LoxError::IOError(std::io::Error::new(std::io::ErrorKind::Other, "broken pipe")))
        }
    }
}

struct Recorder(Vec<String>);

impl Runner for Recorder {
    fn run(&mut self, source: String) -> Result<(), LoxError> {
        self.0.push(source);
        Ok(())
    }
}

#[test]
fn lox_prompt_drops_trailing_white_space() {
    let mut lox = new(Broken(true));
    match lox.run_prompt(String::from("exit \t\r\n")) {
        Action::Exit { output, result } => {
            assert_eq!(output, "");
            assert!(result.is_ok());
        }
        _ => panic!("exit ends the run"),
    }
    match lox.run_prompt(String::from("  exit")) {
        Action::Prompt { output, flush } => {
            assert_eq!(output, "Runtime error> ");
            assert!(flush);
        }
        _ => panic!("leading white space stays"),
    }
}

#[test]
fn lox_answer_takes_the_line_as_it_stands() {
    let mut lox = new(Broken(true));
    match lox.answer(String::from("exit\n")) {
        Action::Prompt { output, flush } => {
            assert_eq!(output, "Runtime error> ");
            assert!(flush);
        }
        _ => panic!("the line is not the word exit"),
    }
    match lox.answer(String::from("exit")) {
        Action::Exit { output, result } => {
            assert_eq!(output, "");
            assert!(result.is_ok());
        }
        _ => panic!("exit ends the run"),
    }
}

#[test]
fn lox_exec_chooses_by_the_number_of_arguments() {
    let mut lox = new(Broken(true));
    match lox.exec(vec![]) {
        Action::Prompt { output, flush } => {
            assert_eq!(output, "> ");
            assert!(flush);
        }
        _ => panic!("no argument starts the prompt"),
    }
    match lox.exec(vec![String::from("lox")]) {
        Action::Prompt { output, .. } => assert_eq!(output, "> "),
        _ => panic!("one argument starts the prompt"),
    }
    match lox.exec(vec![String::from("lox"), String::from("script.lox")]) {
        Action::ReadFile { path } => assert_eq!(path, "script.lox"),
        _ => panic!("two arguments name a script"),
    }
    match lox.exec(vec![String::from("lox"), String::from("a"), String::from("b")]) {
        Action::Exit { output, result } => {
            assert_eq!(output, "Usage: lox [script]\n");
            assert!(matches!(result, Err(LoxError::InvalidParameter)));
        }
        _ => panic!("three arguments are too many"),
    }
}

#[test]
fn lox_file_fails_on_runtime_error() {
    let mut lox = new(Broken(true));
    match lox.run_file(String::from("1 + 1")) {
        Action::Exit { output, result } => {
            assert_eq!(output, "Runtime error");
            assert!(matches!(result, Err(LoxError::RuntimeError)));
        }
        _ => panic!("a file ends the run"),
    }
}

#[test]
fn lox_passes_io_errors_on() {
    let mut lox = new(Broken(false));
    match lox.run_prompt(String::from("1 + 1")) {
        Action::Exit { output, result } => {
            assert_eq!(output, "");
            match result {
                Err(err @ LoxError::IOError(_)) => {
                    assert_eq!(err.to_string(), "IO error: broken pipe")
                }
                _ => panic!("the error is passed on"),
            }
        }
        _ => panic!("an error that is no runtime error ends the run"),
    }
    let (output, result) = lox.run(String::from("1 + 1"), true);
    assert_eq!(output, "");
    assert!(matches!(result, Err(LoxError::IOError(_))));
}

#[test]
fn lox_hands_the_trimmed_line_to_the_runner() {
    let mut lox = new(Recorder(Vec::new()));
    match lox.run_prompt(String::from("print 1;  \n")) {
        Action::Prompt { output, flush } => {
            assert_eq!(output, "> ");
            assert!(flush);
        }
        _ => panic!("a line that runs is answered with the prompt"),
    }
    let (output, result) = lox.run(String::from("second\n"), false);
    assert_eq!(output, "");
    assert!(result.is_ok());
    assert_eq!(lox.executer().0, vec![String::from("print 1;"), String::from("second\n")]);
    let (output, result) = rlox::lox::settle(Err(LoxError::RuntimeError), false);
    assert_eq!(output, "Runtime error");
    assert!(matches!(result, Err(LoxError::RuntimeError)));
    let (output, result) = rlox::lox::settle(Ok(()), false);
    assert_eq!(output, "");
    assert!(result.is_ok());
    match rlox::lox::prompt_after(Ok(()), "$ ", false) {
        Action::Prompt { output, flush } => {
            assert_eq!(output, "$ ");
            assert!(!flush);
        }
        _ => panic!("a run that succeeds is answered with the prompt"),
    }
}
