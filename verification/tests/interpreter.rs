use rlox::error::LoxError;
use rlox::executer::Executer;
use rlox::interpreter::{new, Interpreter};
use rlox::lox::Action;
use std::io::{BufRead, Read, Write};
use std::rc::Rc;
use std::sync::Mutex;

struct MockExecuter<'a>(Rc<Mutex<&'a mut dyn Write>>);

impl<'a> Executer for MockExecuter<'a> {
    fn run(&mut self, source: String) -> Result<(), LoxError> {
        self.0.lock().unwrap().write_all(source.as_bytes()).map_err(LoxError::IOError)?;
        Ok(())
    }
}

struct Failing(bool);

impl Executer for Failing {
    fn run(&mut self, _source: String) -> Result<(), LoxError> {
        if self.0 {
            Err(LoxError::RuntimeError)
        } else {
            Err(LoxError::InvalidParameter)
        }
    }
}

fn missing_file(_path: &str) -> std::io::Result<String> {
    Err(std::io::Error::new(std::io::ErrorKind::NotFound, "no file"))
}

fn drive_interpreter<'a, T: Executer>(
    interpreter: &mut Interpreter<T>,
    input: Rc<Mutex<&'a mut dyn BufRead>>,
    output: Rc<Mutex<&'a mut dyn Write>>,
    args: Vec<String>,
    read_file: &dyn Fn(&str) -> std::io::Result<String>,
) -> Result<(), LoxError> {
    let mut action = interpreter.exec(args);
    loop {
        match action {
            Action::Prompt { output: text, flush } => {
                output.lock().unwrap().write_all(text.as_bytes()).map_err(LoxError::IOError)?;
                if flush {
                    output.lock().unwrap().flush().map_err(LoxError::IOError)?;
                }
                let mut line = String::new();
                input.lock().unwrap().read_line(&mut line).map_err(LoxError::IOError)?;
                action = interpreter.run_prompt(line);
            }
            Action::ReadFile { path } => {
                let contents = read_file(&path).map_err(LoxError::IOError)?;
                action = interpreter.run_file(contents);
            }
            Action::Exit { output: text, result } => {
                output.lock().unwrap().write_all(text.as_bytes()).map_err(LoxError::IOError)?;
                return result;
            }
        }
    }
}

#[test]
fn interpreter_invalid_args() {
    let mut input = "".as_bytes();
    let mut output_buffer = Vec::new();
    {
        let output: Rc<Mutex<&mut dyn Write>> = Rc::new(Mutex::new(&mut output_buffer));
        let mut interpreter = new(MockExecuter(output.clone()));
        let err = drive_interpreter(
            &mut interpreter,
            Rc::new(Mutex::new(&mut input)),
            output.clone(),
            vec![String::from("a"), String::from("b"), String::from("c")],
            &missing_file,
        )
        .err();
        match err {
            Some(LoxError::InvalidParameter) => (),
            _ => panic!("Invalid error"),
        }
    }
    assert_eq!(output_buffer, b"Usage: rlox [script]\n");
}

#[test]
fn interpreter_run_file() {
    let mut input = "".as_bytes();
    let mut output_buffer = Vec::new();
    {
        let output: Rc<Mutex<&mut dyn Write>> = Rc::new(Mutex::new(&mut output_buffer));
        let mut tmpfile = tempfile::NamedTempFile::new().unwrap();
        tmpfile.write_all(b"hello\nworld").unwrap();
        let file_path = tmpfile.path().to_str().unwrap().to_string();
        let mut interpreter = new(MockExecuter(output.clone()));
        let err = drive_interpreter(
            &mut interpreter,
            Rc::new(Mutex::new(&mut input)),
            output.clone(),
            vec![String::from("rlox"), file_path.clone()],
            &|path: &str| {
                assert_eq!(path, file_path);
                let mut contents = String::new();
                tmpfile.reopen()?.read_to_string(&mut contents)?;
                Ok(contents)
            },
        )
        .err();
        assert_eq!(err.is_none(), true);
    }
    assert_eq!(output_buffer, b"hello\nworld");
}

#[test]
fn interpreter_run_prompt() {
    let mut input = "hello\nworld\nexit".as_bytes();
    let mut output_buffer = Vec::new();
    {
        let output: Rc<Mutex<&mut dyn Write>> = Rc::new(Mutex::new(&mut output_buffer));
        let mut interpreter = new(MockExecuter(output.clone()));
        let err = drive_interpreter(
            &mut interpreter,
            Rc::new(Mutex::new(&mut input)),
            output.clone(),
            vec![],
            &missing_file,
        )
        .err();
        assert_eq!(err.is_none(), true);
    }
    assert_eq!(output_buffer, b"> hello\n> world\n> ");
}

#[test]
fn interpreter_takes_the_line_as_it_stands() {
    let mut interpreter = new(Failing(true));
    match interpreter.run_prompt(String::from("exit\n")) {
        Action::Prompt { output, flush } => {
            assert_eq!(output, "Runtime error> ");
            assert!(!flush);
        }
        _ => panic!("the line is not the word exit"),
    }
    match interpreter.run_prompt(String::from("exit")) {
        Action::Exit { output, result } => {
            assert_eq!(output, "");
            assert!(result.is_ok());
        }
        _ => panic!("exit ends the run"),
    }
}

#[test]
fn interpreter_prompt_does_not_flush() {
    let mut interpreter = new(Failing(true));
    match interpreter.exec(vec![String::from("rlox")]) {
        Action::Prompt { output, flush } => {
            assert_eq!(output, "> ");
            assert!(!flush);
        }
        _ => panic!("one argument starts the prompt"),
    }
}

#[test]
fn interpreter_file_reports_runtime_error_and_fails() {
    let mut interpreter = new(Failing(true));
    match interpreter.run_file(String::from("1 + 1")) {
        Action::Exit { output, result } => {
            assert_eq!(output, "Runtime error");
            assert!(matches!(result, Err(LoxError::RuntimeError)));
        }
        _ => panic!("a file ends the run"),
    }
    let (output, result) = interpreter.run(String::from("1 + 1"), true);
    assert_eq!(output, "Runtime error");
    assert!(result.is_ok());
}

#[test]
fn interpreter_passes_other_errors_on() {
    let mut interpreter = new(Failing(false));
    match interpreter.run_prompt(String::from("1 + 1")) {
        Action::Exit { output, result } => {
            assert_eq!(output, "");
            assert!(matches!(result, Err(LoxError::InvalidParameter)));
        }
        _ => panic!("an error that is no runtime error ends the run"),
    }
}
