use paddle::core_version;
use paddle::cursor::{ProcessError, count_paren, is_ready_to_process, make_prompt};
use paddle::errors::{Error, EvalError};
use paddle::span::{FileId, Interner, Span, intern};
use paddle::value::Form;

#[test]
fn version_of_the_core() {
    assert_eq!(core_version(), "0.1.0");
}

#[test]
fn counting_brackets() {
    assert_eq!(count_paren("(+ 1 (* 2 3))"), 0);
    assert_eq!(count_paren("(def (f x)"), 1);
    assert_eq!(count_paren("))"), -2);
    assert_eq!(count_paren(""), 0);
}

#[test]
fn readiness() {
    assert_eq!(is_ready_to_process("(+ 1 2)"), Ok(true));
    assert_eq!(is_ready_to_process("(+ 1"), Ok(false));
    assert_eq!(is_ready_to_process("())"), Err(ProcessError::MoreClosingThanOpening));
}

#[test]
fn prompts() {
    assert_eq!(make_prompt(0), "> ");
    assert_eq!(make_prompt(1), "*   ");
    assert_eq!(make_prompt(2), "*     ");
}

#[test]
fn interning_file_names() {
    let mut table = Interner::new();
    assert_eq!(table.resolve(FileId(0)), "DEFAULT");
    let a = intern(&mut table, "a.pd".to_string());
    let b = table.intern("b.pd".to_string());
    let a2 = intern(&mut table, "a.pd".to_string());
    assert_eq!(a, FileId(1));
    assert_eq!(b, FileId(2));
    assert_eq!(a2, a);
    assert_eq!(table.resolve(a), "a.pd");
    assert_eq!(table.resolve(b), "b.pd");
}

#[test]
fn default_span() {
    let s = Span::default();
    assert_eq!((s.line, s.column, s.file_name_id), (0, 0, FileId(0)));
}

#[test]
fn special_form_names() {
    assert_eq!(Form::try_parse("if"), Some(Form::If));
    assert_eq!(Form::try_parse("'"), Some(Form::Quote));
    assert_eq!(Form::try_parse("set!"), Some(Form::SetBang));
    assert_eq!(Form::try_parse("define-macro"), None);
    assert_eq!(Form::try_parse("defm"), Some(Form::DefineMacro));
    assert_eq!(Form::try_parse("@"), Some(Form::UnQuoteSplicing));
    assert_eq!(Form::try_parse(".\\"), Some(Form::Lambda));
    assert_eq!(Form::try_parse("iff"), None);
    assert_eq!(Form::from_str("def"), Some(Form::Define));
    assert_eq!(Form::from_str("set!"), None);
    assert_eq!(Form::from_str("@"), None);
    assert_eq!(Form::from_str("define-macro"), Some(Form::DefineMacro));
    assert_eq!(Form::from_str("defmacro"), Some(Form::DefineMacro));
    assert_eq!(Form::from_str("unquotesplicing"), None);
    assert_eq!(Form::from_str("lamda"), Some(Form::Lambda));
}

#[test]
fn error_messages() {
    let e = Error::Eval(EvalError::SetUndefined("y".to_string()));
    assert_eq!(e.message(), "y isn't in scope");
    let e = Error::Eval(EvalError::SymbolUndefined("z".to_string()));
    assert_eq!(e.message(), "Symbol [z] is undefined in current env.");
}
