//! Errors of evaluation and of the built-in procedures.
use vstd::prelude::*;

use crate::render::{form_name, form_text};
use crate::text::{decimal, push_str, string_from, usize_text};
use crate::value::Form;

verus! {

/// Errors of the evaluator.
#[derive(PartialEq, Eq, Debug)]
pub enum EvalError {
    BadRequireArgCount(usize),
    BadRequireArgs,
    BadSetBangArgs,
    /// The target of a `set!` is not a symbol.
    BadSetBangHead,
    /// The target of a `set!` is not bound in any enclosing frame.
    SetUndefined(String),
    BadDefineArgs,
    BadIfArgs,
    BadLambdaArgs,
    BadLambdaArgsList,
    SymbolUndefined(String),
    BadDefineHead,
    BadLambdaArgsListType,
    /// The number of parameters of the procedure that was called with
    /// another number of arguments.
    BadFunctionArgCount(usize),
    BadDefineFunctionHead,
    BadDefineFunctionHeadTypes,
    EmptyPrognBody,
    UnquoteOutsideQuasi,
    VariadicArgsMustBeLast,
    /// A `lambda`, `define` or `defmacro` without a parameter list.
    BadCallableArgs(Form),
    /// A parameter that is not a symbol.
    BadCallableArgsListType(Form),
    /// A named procedure without a name.
    BadCallableHead(Form),
    /// A procedure without a body.
    BadCallableBodyArgs(Form),
    /// A `quote` or `quasiquote` without an operand.
    BadQuoteArgs,
    /// A spliced value is not a list.
    NotAList,
    /// The evaluation step budget is spent.
    OutOfFuel,
    /// No frame can be added to the environment.
    OutOfFrames,
    /// A `require` names a file whose contents the caller has to supply.
    NeedsFile(String),
    /// A read of the input needs bytes that have not arrived yet (the input
    /// has not ended).
    NeedsInput,
    /// A piece of a required file is not an expression.
    RequireParse(crate::parser::ParseError),
    /// A required file ends in text that forms no expression: where it
    /// starts, the length of the file, and how many expressions were run.
    RequireIncomplete(usize, usize, usize),
}

/// Errors of the built-in procedures.
#[derive(PartialEq, Eq, Debug)]
pub enum BuiltinError {
    WrongNotArgCount(usize),
    WrongConsArgCount(usize),
    WrongCarArgCount(usize),
    WrongCarArgType,
    WrongCdrArgCount(usize),
    WrongCdrArgType,
    CdrOnEmptyList,
    ExpectedNumArg,
    NoInitforMinus,
    BadLtArgTypes,
    BadLtArgCount(usize),
    NoInitforDiv,
    CarOnEmptyList,
    BadEqArgCount,
    BadModArgCount,
    BadModArgTypes,
    /// The procedure was given no argument list.
    NoArgList,
    /// The procedure takes exactly one argument.
    OnlyOneArg,
    /// The procedure needs at least two arguments.
    NeedTwoArgs,
    /// An index argument is not a number.
    IndexNotNum,
    /// The end index of `substring` is not a number.
    EndNotNum,
    /// A string argument is neither a string nor a symbol.
    NotAString,
    /// `string-ref` was given an index past the end.
    IndexOutOfRange,
    /// `substring` was given bounds that do not delimit a substring.
    BadSubstring,
    /// `char` was given something that names no byte.
    BadCharArg,
    /// `string->num` was given a text that is no number literal.
    NotANumber,
    /// A line of input is not valid UTF-8.
    InvalidInput,
}

/// What the evaluator was doing when it passed an error on.
#[derive(PartialEq, Eq, Debug)]
pub enum Context {
    /// Evaluating the head of a list.
    EvalHead,
    /// Calling the built-in procedure of this name.
    Calling(String),
    /// Running a required file.
    ProcessingFile,
    /// Setting a binding with `set!`.
    SetBang,
}

/// The model of a context.
pub enum CtxV {
    EvalHead,
    Calling(Seq<char>),
    ProcessingFile,
    SetBang,
}

impl View for Context {
    type V = CtxV;

    open spec fn view(&self) -> CtxV {
        match self {
            Context::EvalHead => CtxV::EvalHead,
            Context::Calling(n) => CtxV::Calling(n@),
            Context::ProcessingFile => CtxV::ProcessingFile,
            Context::SetBang => CtxV::SetBang,
        }
    }
}

/// An error of evaluation, possibly passed on with the context in which it
/// arose.
#[derive(PartialEq, Eq, Debug)]
pub enum Error {
    Eval(EvalError),
    Builtin(BuiltinError),
    Context(Context, Box<Error>),
}

/// The model of an error: the three errors that carry a name carry its
/// characters, a context layer is modelled layer by layer, and every other
/// error is its own model.
pub enum ErrV {
    Plain(Error),
    Undefined(Seq<char>),
    SetUndefined(Seq<char>),
    NeedsFile(Seq<char>),
    Context(CtxV, Box<ErrV>),
}

/// The model of an error.
pub open spec fn err_view(e: Error) -> ErrV
    decreases e,
{
    match e {
        Error::Context(c, inner) => ErrV::Context(c@, Box::new(err_view(*inner))),
        Error::Eval(EvalError::SymbolUndefined(s)) => ErrV::Undefined(s@),
        Error::Eval(EvalError::SetUndefined(s)) => ErrV::SetUndefined(s@),
        Error::Eval(EvalError::NeedsFile(s)) => ErrV::NeedsFile(s@),
        _ => ErrV::Plain(e),
    }
}

impl View for Error {
    type V = ErrV;

    open spec fn view(&self) -> ErrV {
        err_view(*self)
    }
}

/// An outcome whose error, if any, is passed on in the context `c`.
pub open spec fn in_context<T>(r: Result<T, ErrV>, c: CtxV) -> Result<T, ErrV> {
    match r {
        Ok(x) => Ok(x),
        Err(e) => Err(ErrV::Context(c, Box::new(e))),
    }
}

/// The error `e` passed on in the context `c`.
pub fn with_context(c: Context, e: Error) -> (r: Error)
    ensures
        r@ == ErrV::Context(c@, Box::new(e@)),
{
    Error::Context(c, Box::new(e))
}

/// The error under all context layers: the one that arose first.
pub open spec fn root_spec(e: Error) -> Error
    decreases e,
{
    match e {
        Error::Context(_, inner) => root_spec(*inner),
        _ => e,
    }
}

/// The text of a context.
pub open spec fn context_text(c: CtxV) -> Seq<char> {
    match c {
        CtxV::EvalHead => "error evaling head of list"@,
        CtxV::Calling(n) => "error calling ["@ + n + "]"@,
        CtxV::ProcessingFile => "error processing files"@,
        CtxV::SetBang => "error set!ing"@,
    }
}

impl Context {
    /// The text of the context (see `context_text`).
    pub fn text(&self) -> (t: String)
        ensures
            t@ == context_text(self@),
    {
        match self {
            Context::EvalHead => string_from("error evaling head of list"),
            Context::Calling(n) => {
                let mut t = string_from("error calling [");
                push_str(&mut t, n.as_str());
                push_str(&mut t, "]");
                t
            },
            Context::ProcessingFile => string_from("error processing files"),
            Context::SetBang => string_from("error set!ing"),
        }
    }
}

/// The model of an evaluator error without a name.
pub open spec fn eval_err(e: EvalError) -> ErrV {
    ErrV::Plain(Error::Eval(e))
}

/// The model of a built-in error.
pub open spec fn builtin_err(e: BuiltinError) -> ErrV {
    ErrV::Plain(Error::Builtin(e))
}

/// The message of an error: the kind of error, with the name or the
/// numbers that it carries.
pub open spec fn message_spec(e: Error) -> Seq<char>
    decreases e,
{
    match e {
            Error::Context(c, inner) => context_text(c@) + ": "@ + message_spec(*inner),
            Error::Eval(EvalError::BadRequireArgCount(n)) => "Require takes 2 arguments got "@ + decimal(n as nat),
            Error::Eval(EvalError::BadRequireArgs) => "Require takes strings or symbols as args"@,
            Error::Eval(EvalError::BadSetBangArgs) => "Too few arguments were provided to the set! statement"@,
            Error::Eval(EvalError::BadSetBangHead) => "Bad set! head"@,
            Error::Eval(EvalError::SetUndefined(s)) => s@ + " isn't in scope"@,
            Error::Eval(EvalError::BadDefineArgs) => "Too few arguments were provided to the define statement"@,
            Error::Eval(EvalError::BadIfArgs) => "Too few arguments were provided to the if statement"@,
            Error::Eval(EvalError::BadLambdaArgs) => "Too few arguments were provided to the lambda statement"@,
            Error::Eval(EvalError::BadLambdaArgsList) => "A list is required for lambda args"@,
            Error::Eval(EvalError::SymbolUndefined(s)) => "Symbol ["@ + s@ + "] is undefined in current env."@,
            Error::Eval(EvalError::BadDefineHead) => "Symbol or list expected."@,
            Error::Eval(EvalError::BadLambdaArgsListType) => "Lambda function args list must only be symbols"@,
            Error::Eval(EvalError::BadFunctionArgCount(expected)) => "Function expected "@ + decimal(expected as nat) + " args."@,
            Error::Eval(EvalError::BadCallableArgs(f)) => "No args provided for callable: "@ + form_name(f),
            Error::Eval(EvalError::BadCallableArgsListType(f)) => "bad types for callable: "@ + form_name(f),
            Error::Eval(EvalError::BadCallableHead(f)) => "Need name for named callable: "@ + form_name(f),
            Error::Eval(EvalError::BadCallableBodyArgs(f)) => "No body for callable: "@ + form_name(f),
            Error::Eval(EvalError::BadDefineFunctionHead) => "Function definition requires atleast a function name."@,
            Error::Eval(EvalError::BadDefineFunctionHeadTypes) => "Function definition head may only contain symbols."@,
            Error::Eval(EvalError::EmptyPrognBody) => "Progn body must have entries"@,
            Error::Eval(EvalError::UnquoteOutsideQuasi) => "Unquoute called outside of a quasiquote context"@,
            Error::Eval(EvalError::VariadicArgsMustBeLast) => "Variadic args must come last."@,
            Error::Eval(EvalError::BadQuoteArgs) => "Quote takes an operand"@,
            Error::Eval(EvalError::NotAList) => "has to be a list"@,
            Error::Eval(EvalError::OutOfFuel) => "Evaluation step budget exhausted"@,
            Error::Eval(EvalError::OutOfFrames) => "No frame can be added to the environment"@,
            Error::Eval(EvalError::NeedsFile(s)) => "Required file is not loaded: "@ + s@,
            Error::Eval(EvalError::NeedsInput) => "More input is needed"@,
            Error::Eval(EvalError::RequireParse(_)) => "A required file does not parse"@,
            Error::Eval(
                EvalError::RequireIncomplete(from, len, count),
            ) => "Full content was not parsed ("@ + decimal(from as nat) + "/"@ + decimal(len as nat)
                + "): got "@ + decimal(count as nat) + " expressions"@,
            Error::Builtin(BuiltinError::WrongNotArgCount(n)) => "Not: Expected 1 argument got "@ + decimal(n as nat) + "."@,
            Error::Builtin(BuiltinError::WrongConsArgCount(n)) => "Cons: Expected 2 arguments got "@ + decimal(n as nat) + "."@,
            Error::Builtin(BuiltinError::WrongCarArgCount(n)) => "Car: Expected 1 argument got "@ + decimal(n as nat) + "."@,
            Error::Builtin(BuiltinError::WrongCarArgType) => "Car: Must be applied to a list."@,
            Error::Builtin(BuiltinError::WrongCdrArgCount(n)) => "Cdr: Expected 1 argument got "@ + decimal(n as nat) + "."@,
            Error::Builtin(BuiltinError::WrongCdrArgType) => "Cdr: Must be applied to a list."@,
            Error::Builtin(BuiltinError::CdrOnEmptyList) => "Cdr: Cannot be applied to an empty list."@,
            Error::Builtin(BuiltinError::ExpectedNumArg) => "Expected Number for arithmetic builtin."@,
            Error::Builtin(BuiltinError::NoInitforMinus) => "Minus: initial argument required."@,
            Error::Builtin(BuiltinError::BadLtArgTypes) => "LessThan: Expected Numbers"@,
            Error::Builtin(BuiltinError::BadLtArgCount(n)) => "LessThan: Expected 1 argument got "@ + decimal(n as nat),
            Error::Builtin(BuiltinError::NoInitforDiv) => "Div: initial argument required."@,
            Error::Builtin(BuiltinError::CarOnEmptyList) => "Car: Cannot be applied to an empty list."@,
            Error::Builtin(BuiltinError::BadEqArgCount) => "Eq: Expected 2 arguments"@,
            Error::Builtin(BuiltinError::BadModArgCount) => "Mod: Expected 2 arguments"@,
            Error::Builtin(BuiltinError::BadModArgTypes) => "Mod: Expected Numbers"@,
            Error::Builtin(BuiltinError::NoArgList) => "should give me a list"@,
            Error::Builtin(BuiltinError::OnlyOneArg) => "only one arg"@,
            Error::Builtin(BuiltinError::NeedTwoArgs) => "must have 2 args"@,
            Error::Builtin(BuiltinError::IndexNotNum) => "idx should be num"@,
            Error::Builtin(BuiltinError::EndNotNum) => "to must be a num"@,
            Error::Builtin(BuiltinError::NotAString) => "only strs"@,
            Error::Builtin(BuiltinError::IndexOutOfRange) => "string-ref index out of range"@,
            Error::Builtin(BuiltinError::BadSubstring) => "invalid substring"@,
            Error::Builtin(BuiltinError::BadCharArg) => "char takes num, sym, or str"@,
            Error::Builtin(BuiltinError::NotANumber) => "not a number"@,
            Error::Builtin(BuiltinError::InvalidInput) => "input is not UTF-8 text"@,
    }
}

impl Error {
    /// The message of this error (see `message_spec`).
    pub fn message(&self) -> (m: String)
        ensures
            m@ == message_spec(*self),
        decreases self,
    {
        match self {
            Error::Context(c, inner) => {
                let mut m = c.text();
                push_str(&mut m, ": ");
                let t = inner.message();
                push_str(&mut m, t.as_str());
                m
            },
            Error::Eval(EvalError::BadRequireArgCount(n)) => {
                let mut m = string_from("Require takes 2 arguments got ");
                let t = usize_text(*n);
                push_str(&mut m, t.as_str());
                m
            },
            Error::Eval(EvalError::BadRequireArgs) => string_from("Require takes strings or symbols as args"),
            Error::Eval(EvalError::BadSetBangArgs) => string_from("Too few arguments were provided to the set! statement"),
            Error::Eval(EvalError::BadSetBangHead) => string_from("Bad set! head"),
            Error::Eval(EvalError::SetUndefined(s)) => {
                let mut m = s.clone();
                push_str(&mut m, " isn't in scope");
                m
            },
            Error::Eval(EvalError::BadDefineArgs) => string_from("Too few arguments were provided to the define statement"),
            Error::Eval(EvalError::BadIfArgs) => string_from("Too few arguments were provided to the if statement"),
            Error::Eval(EvalError::BadLambdaArgs) => string_from("Too few arguments were provided to the lambda statement"),
            Error::Eval(EvalError::BadLambdaArgsList) => string_from("A list is required for lambda args"),
            Error::Eval(EvalError::SymbolUndefined(s)) => {
                let mut m = string_from("Symbol [");
                push_str(&mut m, s.as_str());
                push_str(&mut m, "] is undefined in current env.");
                m
            },
            Error::Eval(EvalError::BadDefineHead) => string_from("Symbol or list expected."),
            Error::Eval(EvalError::BadLambdaArgsListType) => string_from("Lambda function args list must only be symbols"),
            Error::Eval(EvalError::BadFunctionArgCount(expected)) => {
                let mut m = string_from("Function expected ");
                let t = usize_text(*expected);
                push_str(&mut m, t.as_str());
                push_str(&mut m, " args.");
                m
            },
            Error::Eval(EvalError::BadCallableArgs(f)) => {
                let mut m = string_from("No args provided for callable: ");
                let t = form_text(*f);
                push_str(&mut m, t.as_str());
                m
            },
            Error::Eval(EvalError::BadCallableArgsListType(f)) => {
                let mut m = string_from("bad types for callable: ");
                let t = form_text(*f);
                push_str(&mut m, t.as_str());
                m
            },
            Error::Eval(EvalError::BadCallableHead(f)) => {
                let mut m = string_from("Need name for named callable: ");
                let t = form_text(*f);
                push_str(&mut m, t.as_str());
                m
            },
            Error::Eval(EvalError::BadCallableBodyArgs(f)) => {
                let mut m = string_from("No body for callable: ");
                let t = form_text(*f);
                push_str(&mut m, t.as_str());
                m
            },
            Error::Eval(EvalError::BadDefineFunctionHead) => string_from("Function definition requires atleast a function name."),
            Error::Eval(EvalError::BadDefineFunctionHeadTypes) => string_from("Function definition head may only contain symbols."),
            Error::Eval(EvalError::EmptyPrognBody) => string_from("Progn body must have entries"),
            Error::Eval(EvalError::UnquoteOutsideQuasi) => string_from("Unquoute called outside of a quasiquote context"),
            Error::Eval(EvalError::VariadicArgsMustBeLast) => string_from("Variadic args must come last."),
            Error::Eval(EvalError::BadQuoteArgs) => string_from("Quote takes an operand"),
            Error::Eval(EvalError::NotAList) => string_from("has to be a list"),
            Error::Eval(EvalError::OutOfFuel) => string_from("Evaluation step budget exhausted"),
            Error::Eval(EvalError::OutOfFrames) => string_from("No frame can be added to the environment"),
            Error::Eval(EvalError::RequireParse(_)) => string_from("A required file does not parse"),
            Error::Eval(EvalError::RequireIncomplete(from, len, count)) => {
                let mut m = string_from("Full content was not parsed (");
                let t = usize_text(*from);
                push_str(&mut m, t.as_str());
                push_str(&mut m, "/");
                let t = usize_text(*len);
                push_str(&mut m, t.as_str());
                push_str(&mut m, "): got ");
                let t = usize_text(*count);
                push_str(&mut m, t.as_str());
                push_str(&mut m, " expressions");
                m
            },
            Error::Eval(EvalError::NeedsInput) => string_from("More input is needed"),
            Error::Eval(EvalError::NeedsFile(s)) => {
                let mut m = string_from("Required file is not loaded: ");
                push_str(&mut m, s.as_str());
                m
            },
            Error::Builtin(BuiltinError::WrongNotArgCount(n)) => {
                let mut m = string_from("Not: Expected 1 argument got ");
                let t = usize_text(*n);
                push_str(&mut m, t.as_str());
                push_str(&mut m, ".");
                m
            },
            Error::Builtin(BuiltinError::WrongConsArgCount(n)) => {
                let mut m = string_from("Cons: Expected 2 arguments got ");
                let t = usize_text(*n);
                push_str(&mut m, t.as_str());
                push_str(&mut m, ".");
                m
            },
            Error::Builtin(BuiltinError::WrongCarArgCount(n)) => {
                let mut m = string_from("Car: Expected 1 argument got ");
                let t = usize_text(*n);
                push_str(&mut m, t.as_str());
                push_str(&mut m, ".");
                m
            },
            Error::Builtin(BuiltinError::WrongCarArgType) => string_from("Car: Must be applied to a list."),
            Error::Builtin(BuiltinError::WrongCdrArgCount(n)) => {
                let mut m = string_from("Cdr: Expected 1 argument got ");
                let t = usize_text(*n);
                push_str(&mut m, t.as_str());
                push_str(&mut m, ".");
                m
            },
            Error::Builtin(BuiltinError::WrongCdrArgType) => string_from("Cdr: Must be applied to a list."),
            Error::Builtin(BuiltinError::CdrOnEmptyList) => string_from("Cdr: Cannot be applied to an empty list."),
            Error::Builtin(BuiltinError::ExpectedNumArg) => string_from("Expected Number for arithmetic builtin."),
            Error::Builtin(BuiltinError::NoInitforMinus) => string_from("Minus: initial argument required."),
            Error::Builtin(BuiltinError::BadLtArgTypes) => string_from("LessThan: Expected Numbers"),
            Error::Builtin(BuiltinError::BadLtArgCount(n)) => {
                let mut m = string_from("LessThan: Expected 1 argument got ");
                let t = usize_text(*n);
                push_str(&mut m, t.as_str());
                m
            },
            Error::Builtin(BuiltinError::NoInitforDiv) => string_from("Div: initial argument required."),
            Error::Builtin(BuiltinError::CarOnEmptyList) => string_from("Car: Cannot be applied to an empty list."),
            Error::Builtin(BuiltinError::BadEqArgCount) => string_from("Eq: Expected 2 arguments"),
            Error::Builtin(BuiltinError::BadModArgCount) => string_from("Mod: Expected 2 arguments"),
            Error::Builtin(BuiltinError::BadModArgTypes) => string_from("Mod: Expected Numbers"),
            Error::Builtin(BuiltinError::NoArgList) => string_from("should give me a list"),
            Error::Builtin(BuiltinError::OnlyOneArg) => string_from("only one arg"),
            Error::Builtin(BuiltinError::NeedTwoArgs) => string_from("must have 2 args"),
            Error::Builtin(BuiltinError::IndexNotNum) => string_from("idx should be num"),
            Error::Builtin(BuiltinError::EndNotNum) => string_from("to must be a num"),
            Error::Builtin(BuiltinError::NotAString) => string_from("only strs"),
            Error::Builtin(BuiltinError::IndexOutOfRange) => string_from("string-ref index out of range"),
            Error::Builtin(BuiltinError::BadSubstring) => string_from("invalid substring"),
            Error::Builtin(BuiltinError::BadCharArg) => string_from("char takes num, sym, or str"),
            Error::Builtin(BuiltinError::NotANumber) => string_from("not a number"),
            Error::Builtin(BuiltinError::InvalidInput) => string_from("input is not UTF-8 text"),
        }
    }
}

impl Error {
    /// The error under all context layers (see `root_spec`).
    pub fn root(&self) -> (r: &Error)
        ensures
            *r == root_spec(*self),
            !(r is Context),
        decreases self,
    {
        match self {
            Error::Context(_, inner) => inner.root(),
            _ => self,
        }
    }
}

} // verus!
