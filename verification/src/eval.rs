//! The evaluator: what a value evaluates to in a frame of an environment.
//!
//! Every evaluation step spends one unit of the environment's budget (`fuel`),
//! so every evaluation ends; when the budget is spent the evaluation fails
//! with `OutOfFuel`.
use vstd::prelude::*;

use crate::builtins::{apply_prim, prim_spec, text_of};
use crate::cursor::{chunks_spec, split_chunks};
use crate::lexer::{lex, lex_spec};
use crate::lower::{lower, lower_spec};
use crate::parser::{parse_expr, parse_spec};
use crate::env::{Env, EnvV, define_spec, lookup, new_child_spec, set_bang_spec, wf};
use crate::errors::{Context, CtxV, ErrV, Error, EvalError, eval_err, in_context, with_context};
use crate::text::chars_of;
use crate::value::{
    Ans, Form, Number, Val, Value, clone_value, from_seq, law_splice_items, lemma_prefix_trans, list_items,
    list_to_vec, names_view, prepend_all, res_view, splice_spec, truthy_at, val_size, values_view,
};

verus! {

/// What an evaluation step leaves: a final value, or a value to evaluate
/// next in a frame (a call in tail position).
pub enum StepV<N> {
    Done(Val<N>),
    Continue(Val<N>, nat),
}

/// An evaluator error, with the environment unchanged.
pub open spec fn fail<N, T>(ev: EnvV<N>, e: EvalError) -> (EnvV<N>, Result<T, ErrV>) {
    (ev, Err(eval_err(e)))
}

/// The environment with one unit less of budget.
pub open spec fn spend<N>(ev: EnvV<N>) -> EnvV<N> {
    EnvV { fuel: (ev.fuel - 1) as nat, ..ev }
}

/// The value `v` after dropping its first `n` pairs.
pub open spec fn drop_items<N>(v: Val<N>, n: nat) -> Val<N>
    decreases n,
{
    if n == 0 {
        v
    } else {
        match v {
            Val::Cons(_, t) => drop_items(*t, (n - 1) as nat),
            _ => v,
        }
    }
}

/// Whether a parameter name ends in `...` (a rest parameter).
pub open spec fn is_rest(name: Seq<char>) -> bool {
    name.len() >= 3 && name.subrange(name.len() - 3, name.len() as int) == "..."@
}

/// The index of the first rest parameter at or after `i`, else the number
/// of parameters.
pub open spec fn rest_index(args: Seq<Seq<char>>, i: nat) -> nat
    decreases args.len() - i,
{
    if i >= args.len() {
        args.len()
    } else if is_rest(args[i as int]) {
        i
    } else {
        rest_index(args, i + 1)
    }
}

/// The names of a list of symbols; `None` when an element is not a symbol.
pub open spec fn symbols_of<N>(items: Seq<Val<N>>) -> Option<Seq<Seq<char>>>
    decreases items.len(),
{
    if items.len() == 0 {
        Some(seq![])
    } else {
        match (symbols_of(items.drop_last()), items.last()) {
            (Some(pre), Val::Symbol(s)) => Some(pre.push(s)),
            _ => None,
        }
    }
}

/// The parts of a procedure written `(head body...)` by `lambda` (head:
/// the parameters), `define` or `defmacro` (head: the name, then the
/// parameters): its name, its parameters and its body, `(progn body...)`.
pub open spec fn callable_spec<N>(form: Form, tail: Val<N>) -> Result<
    (Seq<char>, Seq<Seq<char>>, Val<N>),
    ErrV,
> {
    let lam = form == Form::Lambda;
    let items = list_items(tail);
    if items.len() == 0 || !(items[0] is Cons || items[0] is Nil) {
        Err(eval_err(EvalError::BadCallableArgs(form)))
    } else {
        match symbols_of(list_items(items[0])) {
            None => Err(eval_err(EvalError::BadCallableArgsListType(form))),
            Some(names) => if !lam && names.len() == 0 {
                Err(eval_err(EvalError::BadCallableHead(form)))
            } else if items.len() < 2 {
                Err(eval_err(EvalError::BadCallableBodyArgs(form)))
            } else {
                let body = Val::Cons(
                    Box::new(Val::Form(Form::Progn)),
                    Box::new(drop_items(tail, 1)),
                );
                if lam {
                    Ok((seq![], names, body))
                } else {
                    Ok((names[0], names.drop_first(), body))
                }
            },
        }
    }
}

/// The name in a `require` form: its one argument, a string or symbol.
pub open spec fn require_target<N>(tail: Val<N>) -> Result<Seq<char>, ErrV> {
    let items = list_items(tail);
    if items.len() == 0 {
        Err(eval_err(EvalError::BadRequireArgCount(0)))
    } else {
        match text_of(items[0]) {
            None => Err(eval_err(EvalError::BadRequireArgs)),
            Some(name) => if items.len() > 1 {
                Err(eval_err(EvalError::BadRequireArgCount(2)))
            } else {
                Ok(name)
            },
        }
    }
}

/// The contents of the first source at or after `i` named `name`.
pub open spec fn source_from(srcs: Seq<(Seq<char>, Seq<char>)>, name: Seq<char>, i: nat) -> Option<
    Seq<char>,
>
    decreases srcs.len() - i,
{
    if i >= srcs.len() {
        None
    } else if srcs[i as int].0 == name {
        Some(srcs[i as int].1)
    } else {
        source_from(srcs, name, i + 1)
    }
}

/// Evaluates `ast` in frame `f`: each step spends one unit of budget; a
/// step that continues with a value in a frame evaluates that next.
pub open spec fn eval_s<N>(l: Seq<Ans<N>>, ev: EnvV<N>, f: nat, ast: Val<N>) -> (
    EnvV<N>,
    Result<Val<N>, ErrV>,
)
    decreases ev.fuel, 0nat, 0nat,
{
    if ev.fuel == 0 {
        fail(ev, EvalError::OutOfFuel)
    } else {
        let ev1 = spend(ev);
        let r = step_s(l, ev1, f, ast);
        match r.1 {
            Err(e) => (r.0, Err(e)),
            Ok(StepV::Done(v)) => (r.0, Ok(v)),
            Ok(StepV::Continue(b, f2)) => if r.0.fuel <= ev1.fuel {
                eval_s(l, r.0, f2, b)
            } else {
                arbitrary()
            },
        }
    }
}

/// One evaluation step: a symbol denotes what it is bound to, a list whose
/// head is a special form is that form, another list is a call, and every
/// other value evaluates to itself.
pub open spec fn step_s<N>(l: Seq<Ans<N>>, ev: EnvV<N>, f: nat, ast: Val<N>) -> (
    EnvV<N>,
    Result<StepV<N>, ErrV>,
)
    decreases ev.fuel, 5nat, 0nat,
{
    match ast {
        Val::Cons(h, t) => match *h {
            Val::Nil => (ev, Ok(StepV::Done(Val::Nil))),
            Val::Form(form) => form_s(l, ev, f, form, *t),
            _ => {
                let hr = eval_s(l, ev, f, *h);
                match hr.1 {
                    Err(e) => (hr.0, Err(ErrV::Context(CtxV::EvalHead, Box::new(e)))),
                    Ok(hv) => if hr.0.fuel <= ev.fuel {
                        call_s(l, hr.0, f, hv, *t)
                    } else {
                        arbitrary()
                    },
                }
            },
        },
        Val::Symbol(s) => match lookup(ev, f, s) {
            Some(v) => (ev, Ok(StepV::Done(v))),
            None => (ev, Err(ErrV::Undefined(s))),
        },
        _ => (ev, Ok(StepV::Done(ast))),
    }
}

/// A call of the value `head` with the unevaluated arguments `tail`: a
/// built-in procedure gets the values of the arguments; a function or lambda
/// gets them bound in a new frame under its own frame and continues with its
/// body there; a macro gets them unevaluated in a new frame under the calling
/// frame, and the value of its body is evaluated next in the calling frame.
/// Any other head is the value of the call.
pub open spec fn call_s<N>(l: Seq<Ans<N>>, ev: EnvV<N>, f: nat, head: Val<N>, tail: Val<N>) -> (
    EnvV<N>,
    Result<StepV<N>, ErrV>,
)
    decreases ev.fuel, 4nat, 0nat,
{
    match head {
        Val::Builtin(p, name) => {
            let ar = eval_list_s(l, ev, f, list_items(tail), 0, seq![]);
            match ar.1 {
                Err(e) => (ar.0, Err(e)),
                Ok(vals) => {
                    let pr = prim_spec(l, ar.0, p, vals);
                    (pr.0, match pr.1 {
                        Ok(v) => Ok(StepV::Done(v)),
                        Err(e) => Err(ErrV::Context(CtxV::Calling(name), Box::new(e))),
                    })
                },
            }
        },
        Val::Func { name: _, args, body, env: fe } => {
            let sr = setup_s(l, ev, f, fe, args, tail, false);
            match sr.1 {
                Err(e) => (sr.0, Err(e)),
                Ok(nf) => (sr.0, Ok(StepV::Continue(*body, nf))),
            }
        },
        Val::Lambda { args, body, env: fe } => {
            let sr = setup_s(l, ev, f, fe, args, tail, false);
            match sr.1 {
                Err(e) => (sr.0, Err(e)),
                Ok(nf) => (sr.0, Ok(StepV::Continue(*body, nf))),
            }
        },
        Val::Macro { name: _, args, body } => {
            let sr = setup_s(l, ev, f, f, args, tail, true);
            match sr.1 {
                Err(e) => (sr.0, Err(e)),
                Ok(nf) => if sr.0.fuel <= ev.fuel {
                    let br = eval_s(l, sr.0, nf, *body);
                    match br.1 {
                        Err(e) => (br.0, Err(e)),
                        Ok(b2) => (br.0, Ok(StepV::Continue(b2, f))),
                    }
                } else {
                    arbitrary()
                },
            }
        },
        _ => (ev, Ok(StepV::Done(head))),
    }
}

/// Evaluates `items[j..]` in frame `f` from left to right, after the values
/// `acc`.
pub open spec fn eval_list_s<N>(
    l: Seq<Ans<N>>,
    ev: EnvV<N>,
    f: nat,
    items: Seq<Val<N>>,
    j: nat,
    acc: Seq<Val<N>>,
) -> (EnvV<N>, Result<Seq<Val<N>>, ErrV>)
    decreases ev.fuel, 1nat, items.len() - j,
{
    if j >= items.len() {
        (ev, Ok(acc))
    } else {
        let r = eval_s(l, ev, f, items[j as int]);
        match r.1 {
            Err(e) => (r.0, Err(e)),
            Ok(v) => if r.0.fuel <= ev.fuel {
                eval_list_s(l, r.0, f, items, j + 1, acc.push(v))
            } else {
                arbitrary()
            },
        }
    }
}

/// The frame of a call: a new frame under `parent`, with the parameters
/// `args` bound to the arguments `tail` (evaluated in frame `caller` unless
/// `is_macro`); a last parameter whose name ends in `...` is bound to the list
/// of the remaining arguments. Gives the new frame.
pub open spec fn setup_s<N>(
    l: Seq<Ans<N>>,
    ev: EnvV<N>,
    caller: nat,
    parent: nat,
    args: Seq<Seq<char>>,
    tail: Val<N>,
    is_macro: bool,
) -> (EnvV<N>, Result<nat, ErrV>)
    decreases ev.fuel, 3nat, 0nat,
{
    if ev.frames.len() >= usize::MAX {
        fail(ev, EvalError::OutOfFrames)
    } else {
        let ev1 = new_child_spec(ev, parent);
        let nf = ev.frames.len();
        let vi = rest_index(args, 0);
        let items = list_items(tail);
        if vi + 1 < args.len() {
            fail(ev1, EvalError::VariadicArgsMustBeLast)
        } else {
            let br = bind_s(l, ev1, caller, nf, args, vi, items, 0, is_macro);
            match br.1 {
                Err(e) => (br.0, Err(e)),
                Ok(()) => if br.0.fuel <= ev.fuel {
                    if vi < args.len() {
                        if is_macro {
                            (define_spec(br.0, nf, args[vi as int], drop_items(tail, vi)), Ok(nf))
                        } else {
                            let rr = eval_list_s(l, br.0, caller, items, vi, seq![]);
                            match rr.1 {
                                Err(e) => (rr.0, Err(e)),
                                Ok(vals) => (
                                    define_spec(rr.0, nf, args[vi as int], from_seq(vals, Val::Nil)),
                                    Ok(nf),
                                ),
                            }
                        }
                    } else if items.len() > vi {
                        fail(
                            br.0,
                            EvalError::BadFunctionArgCount(args.len() as usize),
                        )
                    } else {
                        (br.0, Ok(nf))
                    }
                } else {
                    arbitrary()
                },
            }
        }
    }
}

/// Binds the parameters `args[j..vi]` in frame `nf` to the arguments
/// `items[j..]`.
pub open spec fn bind_s<N>(
    l: Seq<Ans<N>>,
    ev: EnvV<N>,
    caller: nat,
    nf: nat,
    args: Seq<Seq<char>>,
    vi: nat,
    items: Seq<Val<N>>,
    j: nat,
    is_macro: bool,
) -> (EnvV<N>, Result<(), ErrV>)
    decreases ev.fuel, 2nat, vi - j,
{
    if j >= vi {
        (ev, Ok(()))
    } else if j >= items.len() {
        fail(ev, EvalError::BadFunctionArgCount(args.len() as usize))
    } else if is_macro {
        bind_s(l, define_spec(ev, nf, args[j as int], items[j as int]), caller, nf, args, vi, items, j + 1, is_macro)
    } else {
        let r = eval_s(l, ev, caller, items[j as int]);
        match r.1 {
            Err(e) => (r.0, Err(e)),
            Ok(v) => if r.0.fuel <= ev.fuel {
                bind_s(l, define_spec(r.0, nf, args[j as int], v), caller, nf, args, vi, items, j + 1, is_macro)
            } else {
                arbitrary()
            },
        }
    }
}

/// `define` and `defmacro`: `(define name value)` binds the name to the value
/// in frame `f`; `(define (name params...) body...)` binds it to a function
/// of frame `f` (a macro for `defmacro`).
pub open spec fn define_s<N>(l: Seq<Ans<N>>, ev: EnvV<N>, f: nat, form: Form, tail: Val<N>) -> (
    EnvV<N>,
    Result<(), ErrV>,
)
    decreases ev.fuel, 3nat, 0nat,
{
    let items = list_items(tail);
    if items.len() == 0 {
        fail(ev, EvalError::BadDefineArgs)
    } else {
        match items[0] {
            Val::Symbol(name) => if items.len() != 2 {
                fail(ev, EvalError::BadDefineArgs)
            } else {
                let r = eval_s(l, ev, f, items[1]);
                match r.1 {
                    Err(e) => (r.0, Err(e)),
                    Ok(v) => (define_spec(r.0, f, name, v), Ok(())),
                }
            },
            Val::Cons(_, _) => define_callable(ev, f, form, tail),
            _ => fail(ev, EvalError::BadDefineHead),
        }
    }
}

/// `(define (name params...) body...)`.
pub open spec fn define_callable<N>(ev: EnvV<N>, f: nat, form: Form, tail: Val<N>) -> (
    EnvV<N>,
    Result<(), ErrV>,
) {
    match callable_spec(form, tail) {
        Err(e) => (ev, Err(e)),
        Ok((name, args, body)) => (
            define_spec(ev, f, name, if form == Form::DefineMacro {
                Val::Macro { name, args, body: Box::new(body) }
            } else {
                Val::Func { name, args, body: Box::new(body), env: f }
            }),
            Ok(()),
        ),
    }
}

/// `progn`: evaluates `items[j..]` but the last, and continues with the last.
pub open spec fn progn_s<N>(l: Seq<Ans<N>>, ev: EnvV<N>, f: nat, items: Seq<Val<N>>, j: nat) -> (
    EnvV<N>,
    Result<StepV<N>, ErrV>,
)
    decreases ev.fuel, 2nat, items.len() - j,
{
    if items.len() == 0 {
        fail(ev, EvalError::EmptyPrognBody)
    } else if j + 1 >= items.len() {
        (ev, Ok(StepV::Continue(items.last(), f)))
    } else {
        let r = eval_s(l, ev, f, items[j as int]);
        match r.1 {
            Err(e) => (r.0, Err(e)),
            Ok(_) => if r.0.fuel <= ev.fuel {
                progn_s(l, r.0, f, items, j + 1)
            } else {
                arbitrary()
            },
        }
    }
}

/// A quasi-quoted value: a list headed by `unquote` stands for the value
/// of its tail, one headed by `unquotesplicing` too, and then its elements
/// are spliced into the enclosing list; every other value stands for itself.
/// The flag says whether to splice.
pub open spec fn qq_s<N>(l: Seq<Ans<N>>, ev: EnvV<N>, f: nat, ast: Val<N>) -> (
    EnvV<N>,
    Result<(Val<N>, bool), ErrV>,
)
    decreases ev.fuel, 3nat, val_size(ast),
{
    match ast {
        Val::Cons(h, t) => match *h {
            Val::Nil => (ev, Ok((ast, false))),
            Val::Form(Form::UnQuote) => {
                let r = eval_s(l, ev, f, *t);
                (r.0, match r.1 {
                    Ok(v) => Ok((v, false)),
                    Err(e) => Err(e),
                })
            },
            Val::Form(Form::UnQuoteSplicing) => {
                let r = eval_s(l, ev, f, *t);
                (r.0, match r.1 {
                    Ok(v) => Ok((v, true)),
                    Err(e) => Err(e),
                })
            },
            _ => {
                let hr = qq_s(l, ev, f, *h);
                match hr.1 {
                    Err(e) => (hr.0, Err(e)),
                    Ok((nh, spliced)) => if hr.0.fuel <= ev.fuel {
                        let tr = qq_s(l, hr.0, f, *t);
                        match tr.1 {
                            Err(e) => (tr.0, Err(e)),
                            Ok((nt, _)) => if !spliced {
                                (tr.0, Ok((Val::Cons(Box::new(nh), Box::new(nt)), false)))
                            } else {
                                match splice_spec(nh, nt) {
                                    Ok(v) => (tr.0, Ok((v, false))),
                                    Err(e) => (tr.0, Err(e)),
                                }
                            },
                        }
                    } else {
                        arbitrary()
                    },
                }
            },
        },
        _ => (ev, Ok((ast, false))),
    }
}

/// Runs the expression texts `chunks[j..]` of a required file in frame `f`:
/// each is lexed, parsed, lowered and evaluated. Gives how many were run.
pub open spec fn run_text_s<N>(l: Seq<Ans<N>>, ev: EnvV<N>, f: nat, chunks: Seq<Seq<char>>, j: nat) -> (
    EnvV<N>,
    Result<nat, ErrV>,
)
    decreases ev.fuel, 3nat, chunks.len() - j,
{
    if j >= chunks.len() {
        (ev, Ok(j))
    } else {
        match parse_spec(lex_spec(chunks[j as int]), 0) {
            Err(pe) => (ev, Err(eval_err(EvalError::RequireParse(pe)))),
            Ok((e, _)) => {
                let lw = lower_spec(l, ev.count, e);
                let r = eval_s(l, EnvV { count: lw.0, ..ev }, f, lw.1);
                match r.1 {
                    Err(x) => (r.0, Err(x)),
                    Ok(_) => if r.0.fuel <= ev.fuel {
                        run_text_s(l, r.0, f, chunks, j + 1)
                    } else {
                        arbitrary()
                    },
                }
            },
        }
    }
}

/// How many chunks the file `name` holds, plus one; zero when it is not
/// loaded.
pub open spec fn require_size<N>(ev: EnvV<N>, name: Seq<char>) -> nat {
    match source_from(ev.sources, name, 0) {
        Some(text) => chunks_spec(text).0.len() + 1,
        None => 0,
    }
}

/// Runs the required file `name` in frame `f`: its contents are split into
/// expressions, each is run, and text left over that forms no expression is
/// an error. A file that is not loaded is asked for.
pub open spec fn require_s<N>(l: Seq<Ans<N>>, ev: EnvV<N>, f: nat, name: Seq<char>) -> (
    EnvV<N>,
    Result<StepV<N>, ErrV>,
)
    decreases ev.fuel, 3nat, require_size(ev, name),
{
    match source_from(ev.sources, name, 0) {
        None => (ev, Err(ErrV::NeedsFile(name))),
        Some(text) => {
            let c = chunks_spec(text);
            let r = run_text_s(l, ev, f, c.0, 0);
            match r.1 {
                Err(e) => (r.0, Err(e)),
                Ok(n) => if c.1 + 1 < text.len() {
                    (
                        r.0,
                        Err(
                            eval_err(
                                EvalError::RequireIncomplete(c.1 as usize, text.len() as usize, n as usize),
                            ),
                        ),
                    )
                } else {
                    (r.0, Ok(StepV::Done(Val::NoPrint)))
                },
            }
        },
    }
}

/// A special form with the unevaluated operands `tail`.
pub open spec fn form_s<N>(l: Seq<Ans<N>>, ev: EnvV<N>, f: nat, form: Form, tail: Val<N>) -> (
    EnvV<N>,
    Result<StepV<N>, ErrV>,
)
    decreases ev.fuel, 4nat, 0nat,
{
    match form {
        Form::Quote => match tail {
            Val::Cons(x, _) => (ev, Ok(StepV::Done(*x))),
            _ => fail(ev, EvalError::BadQuoteArgs),
        },
        Form::QuasiQuote => match tail {
            Val::Cons(x, _) => {
                let q = qq_s(l, ev, f, *x);
                (q.0, match q.1 {
                    Ok((v, _)) => Ok(StepV::Done(v)),
                    Err(e) => Err(e),
                })
            },
            _ => fail(ev, EvalError::BadQuoteArgs),
        },
        Form::UnQuote => fail(ev, EvalError::UnquoteOutsideQuasi),
        Form::UnQuoteSplicing => fail(ev, EvalError::UnquoteOutsideQuasi),
        Form::Require => match require_target(tail) {
            Err(e) => (ev, Err(e)),
            Ok(name) => {
                let r = require_s(l, ev, f, name);
                (r.0, in_context(r.1, CtxV::ProcessingFile))
            },
        },
        Form::Progn => progn_s(l, ev, f, list_items(tail), 0),
        Form::Eval => {
            let r = eval_s(l, ev, f, tail);
            (r.0, match r.1 {
                Ok(v) => Ok(StepV::Continue(v, f)),
                Err(e) => Err(e),
            })
        },
        Form::Define => {
            let r = define_s(l, ev, f, form, tail);
            (r.0, match r.1 {
                Ok(_) => Ok(StepV::Done(Val::NoPrint)),
                Err(e) => Err(e),
            })
        },
        Form::DefineMacro => {
            let r = define_s(l, ev, f, form, tail);
            (r.0, match r.1 {
                Ok(_) => Ok(StepV::Done(Val::NoPrint)),
                Err(e) => Err(e),
            })
        },
        Form::SetBang => {
            let items = list_items(tail);
            if items.len() != 2 {
                fail(ev, EvalError::BadSetBangArgs)
            } else {
                match items[0] {
                    Val::Symbol(name) => {
                        let r = eval_s(l, ev, f, items[1]);
                        match r.1 {
                            Err(e) => (r.0, Err(e)),
                            Ok(v) => match set_bang_spec(r.0, f, name, v) {
                                Some(ev2) => (ev2, Ok(StepV::Done(Val::NoPrint))),
                                None => (
                                    r.0,
                                    Err(ErrV::Context(CtxV::SetBang, Box::new(ErrV::SetUndefined(name)))),
                                ),
                            },
                        }
                    },
                    _ => fail(ev, EvalError::BadSetBangHead),
                }
            }
        },
        Form::If => {
            let items = list_items(tail);
            if items.len() != 3 {
                fail(ev, EvalError::BadIfArgs)
            } else {
                let r = eval_s(l, ev, f, items[0]);
                match r.1 {
                    Err(e) => (r.0, Err(e)),
                    Ok(c) => {
                        let t = truthy_at(l, r.0.count, c);
                        (
                            EnvV { count: t.0, ..r.0 },
                            Ok(StepV::Continue(if t.1 {
                                items[1]
                            } else {
                                items[2]
                            }, f)),
                        )
                    },
                }
            }
        },
        Form::Lambda => match callable_spec(form, tail) {
            Ok((_, args, body)) => (ev, Ok(StepV::Done(Val::Lambda { args, body: Box::new(body), env: f }))),
            Err(e) => (ev, Err(e)),
        },
    }
}


/// What an evaluation step leaves (see `StepV`).
pub enum Step<N> {
    Done(Value<N>),
    Continue(Value<N>, usize),
}

/// The model of the outcome of a step.
pub open spec fn step_res<N>(r: Result<Step<N>, Error>) -> Result<StepV<N>, ErrV> {
    match r {
        Ok(Step::Done(v)) => Ok(StepV::Done(v@)),
        Ok(Step::Continue(v, f)) => Ok(StepV::Continue(v@, f as nat)),
        Err(e) => Err(e@),
    }
}

/// The model of an outcome without a value.
pub open spec fn unit_res(r: Result<(), Error>) -> Result<(), ErrV> {
    match r {
        Ok(()) => Ok(()),
        Err(e) => Err(e@),
    }
}

/// The model of an outcome that is a sequence of values.
pub open spec fn vec_res<N>(r: Result<Vec<Value<N>>, Error>) -> Result<Seq<Val<N>>, ErrV> {
    match r {
        Ok(v) => Ok(values_view(v@)),
        Err(e) => Err(e@),
    }
}

/// The model of an outcome that is a frame.
pub open spec fn frame_res(r: Result<usize, Error>) -> Result<nat, ErrV> {
    match r {
        Ok(f) => Ok(f as nat),
        Err(e) => Err(e@),
    }
}

/// The model of an outcome of quasi-quotation.
pub open spec fn qq_res<N>(r: Result<(Value<N>, bool), Error>) -> Result<(Val<N>, bool), ErrV> {
    match r {
        Ok((v, b)) => Ok((v@, b)),
        Err(e) => Err(e@),
    }
}

/// Whether the environment `after` follows from `before` by evaluation: the
/// answer log grew and the budget did not.
pub open spec fn follows<N>(before: Env<N>, after: Env<N>) -> bool {
    &&& before.answers().is_prefix_of(after.answers())
    &&& after@.fuel <= before@.fuel
}

/// The value `v` after dropping its first `n` pairs.
fn drop_items_exec<N: Number>(v: &Value<N>, n: usize) -> (r: Value<N>)
    ensures
        r@ == drop_items(v@, n as nat),
{
    let mut cur: &Value<N> = v;
    let mut i: usize = 0;
    while i < n
        invariant
            i <= n,
            drop_items(v@, n as nat) == drop_items(cur@, (n - i) as nat),
        decreases n - i,
    {
        match cur {
            Value::Cons(_, t) => {
                cur = &**t;
            },
            _ => {
                return clone_value(cur);
            },
        }
        i += 1;
    }
    clone_value(cur)
}

/// Whether a parameter name ends in `...`.
fn ends_with_dots(s: &String) -> (b: bool)
    ensures
        b == is_rest(s@),
{
    let c = chars_of(s.as_str());
    let n = c.len();
    if n < 3 {
        return false;
    }
    let b = c[n - 3] == '.' && c[n - 2] == '.' && c[n - 1] == '.';
    proof {
        reveal_strlit("...");
        if b {
            assert(s@.subrange(n - 3, n as int) =~= "..."@);
        } else {
            assert(s@.subrange(n - 3, n as int) != "..."@) by {
                if s@.subrange(n - 3, n as int) == "..."@ {
                    assert(s@.subrange(n - 3, n as int)[0] == '.');
                    assert(s@.subrange(n - 3, n as int)[1] == '.');
                    assert(s@.subrange(n - 3, n as int)[2] == '.');
                }
            }
        }
    }
    b
}

/// The index of the first rest parameter (see `rest_index`).
fn rest_index_exec(args: &Vec<String>) -> (r: usize)
    ensures
        r == rest_index(names_view(args@), 0),
        r <= args.len(),
{
    let ghost names = names_view(args@);
    let mut i: usize = 0;
    while i < args.len()
        invariant
            i <= args.len(),
            names == names_view(args@),
            rest_index(names, 0) == rest_index(names, i as nat),
        decreases args.len() - i,
    {
        assert(names[i as int] == args@[i as int]@);
        if ends_with_dots(&args[i]) {
            return i;
        }
        i += 1;
    }
    i
}

/// A name-less prefix stays name-less.
proof fn lemma_symbols_none<N>(s: Seq<Val<N>>, k: int)
    requires
        0 <= k <= s.len(),
        symbols_of(s.take(k)) is None,
    ensures
        symbols_of(s) is None,
    decreases s.len() - k,
{
    if k < s.len() {
        assert(s.take(k + 1).drop_last() =~= s.take(k));
        lemma_symbols_none(s, k + 1);
    } else {
        assert(s.take(k) =~= s);
    }
}

/// The names of a list of symbols (see `symbols_of`).
fn symbols<N: Number>(items: &Vec<Value<N>>) -> (r: Option<Vec<String>>)
    ensures
        match r {
            Some(v) => symbols_of(values_view(items@)) == Some(names_view(v@)),
            None => symbols_of(values_view(items@)) is None,
        },
{
    let ghost vv = values_view(items@);
    let mut out: Vec<String> = Vec::new();
    let mut i: usize = 0;
    assert(vv.take(0) =~= seq![]);
    assert(names_view(out@) =~= seq![]);
    while i < items.len()
        invariant
            i <= items.len(),
            vv == values_view(items@),
            symbols_of(vv.take(i as int)) == Some(names_view(out@)),
        decreases items.len() - i,
    {
        assert(vv.take(i as int + 1).drop_last() =~= vv.take(i as int));
        assert(vv[i as int] == items@[i as int]@);
        match &items[i] {
            Value::Symbol(s) => {
                let ghost o = out@;
                out.push(s.clone());
                assert(names_view(out@) =~= names_view(o).push(s@));
            },
            _ => {
                proof {
                    lemma_symbols_none(vv, i as int + 1);
                }
                return None;
            },
        }
        i += 1;
    }
    assert(vv.take(items.len() as int) =~= vv);
    Some(out)
}

/// The name in a `require` form (see `require_target`).
fn require_name<N: Number>(tail: &Value<N>) -> (r: Result<String, Error>)
    ensures
        match r {
            Ok(name) => require_target(tail@) == Ok::<Seq<char>, ErrV>(name@),
            Err(e) => require_target(tail@) == Err::<Seq<char>, ErrV>(e@),
        },
{
    let items = list_to_vec(tail);
    if items.len() == 0 {
        return Err(Error::Eval(EvalError::BadRequireArgCount(0)));
    }
    assert(values_view(items@)[0] == items@[0]@);
    let name = match &items[0] {
        Value::Str(s) => s.clone(),
        Value::Symbol(s) => s.clone(),
        _ => {
            return Err(Error::Eval(EvalError::BadRequireArgs));
        },
    };
    if items.len() > 1 {
        return Err(Error::Eval(EvalError::BadRequireArgCount(2)));
    }
    Ok(name)
}

/// The contents of the source named `name` (see `source_from`).
fn find_source(srcs: &Vec<(String, String)>, name: &String) -> (r: Option<String>)
    ensures
        match r {
            Some(t) => source_from(srcs@.map_values(|p: (String, String)| (p.0@, p.1@)), name@, 0)
                == Some(t@),
            None => source_from(srcs@.map_values(|p: (String, String)| (p.0@, p.1@)), name@, 0) is None,
        },
{
    let ghost sv = srcs@.map_values(|p: (String, String)| (p.0@, p.1@));
    let mut i: usize = 0;
    while i < srcs.len()
        invariant
            i <= srcs.len(),
            sv == srcs@.map_values(|p: (String, String)| (p.0@, p.1@)),
            source_from(sv, name@, 0) == source_from(sv, name@, i as nat),
        decreases srcs.len() - i,
    {
        assert(sv[i as int] == (srcs@[i as int].0@, srcs@[i as int].1@));
        if srcs[i].0 == *name {
            return Some(srcs[i].1.clone());
        }
        i += 1;
    }
    None
}

/// `require` (see the `Require` case of `form_s`): errors of running the
/// file are passed on in the context `ProcessingFile`.
fn require_form<N: Number>(f: usize, tail: &Value<N>, env: &mut Env<N>) -> (r: Result<Step<N>, Error>)
    ensures
        follows(*old(env), *final(env)),
        forall|l: Seq<Ans<N>>|
            final(env).answers().is_prefix_of(l) ==> form_s(
                l,
                old(env)@,
                f as nat,
                Form::Require,
                tail@,
            ) == (final(env)@, step_res(r)),
    decreases old(env)@.fuel, 3nat, 1nat,
{
    let name = match require_name(tail) {
        Err(e) => {
            return Err(e);
        },
        Ok(n) => n,
    };
    match require_file(f, name, env) {
        Ok(s) => Ok(s),
        Err(e) => Err(with_context(Context::ProcessingFile, e)),
    }
}

/// Runs the required file `name` (see `require_s`).
fn require_file<N: Number>(f: usize, name: String, env: &mut Env<N>) -> (r: Result<Step<N>, Error>)
    ensures
        follows(*old(env), *final(env)),
        forall|l: Seq<Ans<N>>|
            final(env).answers().is_prefix_of(l) ==> require_s(l, old(env)@, f as nat, name@) == (
                final(env)@,
                step_res(r),
            ),
    decreases old(env)@.fuel, 3nat, 0nat,
{
    let text = match find_source(&env.sources, &name) {
        None => {
            return Err(Error::Eval(EvalError::NeedsFile(name)));
        },
        Some(t) => t,
    };
    let (chunks, from) = split_chunks(text.as_str());
    let n = chars_of(text.as_str()).len();
    let ghost cs = names_view(chunks@);
    let ghost ev0 = env@;
    let ghost log0 = env.answers();
    let mut j: usize = 0;
    while j < chunks.len()
        invariant
            j <= chunks.len(),
            cs == names_view(chunks@),
            source_from(ev0.sources, name@, 0) == Some(text@),
            cs == chunks_spec(text@).0,
            from == chunks_spec(text@).1,
            n == text@.len(),
            ev0 == old(env)@,
            log0 == old(env).answers(),
            log0.is_prefix_of(env.answers()),
            env@.fuel <= ev0.fuel,
            forall|l: Seq<Ans<N>>|
                env.answers().is_prefix_of(l) ==> run_text_s(l, ev0, f as nat, cs, 0) == run_text_s(
                    l,
                    env@,
                    f as nat,
                    cs,
                    j as nat,
                ),
        decreases chunks.len() - j,
    {
        let ghost logc = env.answers();
        let ghost evc = env@;
        assert(cs[j as int] == chunks@[j as int]@);
        let tokens = lex(chunks[j].as_str());
        let e = match parse_expr(&tokens) {
            Err(pe) => {
                proof {
                    assert forall|l: Seq<Ans<N>>| env.answers().is_prefix_of(l) implies require_s(
                        l,
                        ev0,
                        f as nat,
                        name@,
                    ) == (env@, step_res(Err::<Step<N>, Error>(Error::Eval(EvalError::RequireParse(pe))))) by {
                        assert(run_text_s(l, env@, f as nat, cs, j as nat) == (
                            env@,
                            Err::<nat, ErrV>(eval_err(EvalError::RequireParse(pe))),
                        ));
                    }
                }
                return Err(Error::Eval(EvalError::RequireParse(pe)));
            },
            Ok((e, _)) => e,
        };
        let v = lower(&e, &mut env.log);
        let ghost log1 = env.answers();
        assert(env@ == EnvV { count: log1.len(), ..evc });
        let r = eval(&v, f, env);
        proof {
            lemma_prefix_trans(log0, logc, log1);
            lemma_prefix_trans(log0, log1, env.answers());
        }
        match r {
            Err(x) => {
                proof {
                    assert forall|l: Seq<Ans<N>>| env.answers().is_prefix_of(l) implies require_s(
                        l,
                        ev0,
                        f as nat,
                        name@,
                    ) == (env@, step_res(Err::<Step<N>, Error>(x))) by {
                        lemma_prefix_trans(log1, env.answers(), l);
                        lemma_prefix_trans(logc, log1, l);
                        assert(run_text_s(l, evc, f as nat, cs, j as nat) == (env@, Err::<nat, ErrV>(x@)));
                    }
                }
                return Err(x);
            },
            Ok(_) => {
                proof {
                    assert forall|l: Seq<Ans<N>>| env.answers().is_prefix_of(l) implies run_text_s(
                        l,
                        ev0,
                        f as nat,
                        cs,
                        0,
                    ) == run_text_s(l, env@, f as nat, cs, (j + 1) as nat) by {
                        lemma_prefix_trans(log1, env.answers(), l);
                        lemma_prefix_trans(logc, log1, l);
                    }
                }
            },
        }
        j += 1;
    }
    if n > 0 && from < n - 1 {
        return Err(Error::Eval(EvalError::RequireIncomplete(from, n, chunks.len())));
    }
    Ok(Step::Done(Value::NoPrint))
}

/// The parts of a procedure (see `callable_spec`).
fn callable<N: Number>(form: Form, tail: &Value<N>) -> (r: Result<(String, Vec<String>, Value<N>), Error>)
    ensures
        match r {
            Ok((n, a, b)) => callable_spec(form, tail@) == Ok::<_, ErrV>((n@, names_view(a@), b@)),
            Err(e) => callable_spec(form, tail@) == Err::<(Seq<char>, Seq<Seq<char>>, Val<N>), _>(e@),
        },
{
    let lam = form == Form::Lambda;
    let items = list_to_vec(tail);
    if items.len() == 0 {
        return Err(Error::Eval(EvalError::BadCallableArgs(form)));
    }
    assert(values_view(items@)[0] == items@[0]@);
    let is_list = match &items[0] {
        Value::Cons(_, _) => true,
        Value::Nil => true,
        _ => false,
    };
    if !is_list {
        return Err(Error::Eval(EvalError::BadCallableArgs(form)));
    }
    let head_items = list_to_vec(&items[0]);
    let names = match symbols(&head_items) {
        Some(n) => n,
        None => {
            return Err(Error::Eval(EvalError::BadCallableArgsListType(form)));
        },
    };
    if !lam && names.len() == 0 {
        return Err(Error::Eval(EvalError::BadCallableHead(form)));
    }
    if items.len() < 2 {
        return Err(Error::Eval(EvalError::BadCallableBodyArgs(form)));
    }
    let body = Value::Cons(Box::new(Value::Form(Form::Progn)), Box::new(drop_items_exec(tail, 1)));
    proof {
        reveal_with_fuel(crate::value::value_view, 2);
    }
    if lam {
        Ok((String::new(), names, body))
    } else {
        let mut rest = names;
        let ghost all = rest@;
        let name = rest.remove(0);
        assert(names_view(rest@) =~= names_view(all).drop_first());
        Ok((name, rest, body))
    }
}


/// Evaluates `ast` in frame `f` of `env` (see `eval_s`).
pub fn eval<N: Number>(ast: &Value<N>, f: usize, env: &mut Env<N>) -> (r: Result<Value<N>, Error>)
    ensures
        follows(*old(env), *final(env)),
        forall|l: Seq<Ans<N>>|
            final(env).answers().is_prefix_of(l) ==> eval_s(l, old(env)@, f as nat, ast@) == (
                final(env)@,
                res_view(r),
            ),
    decreases old(env)@.fuel, 0nat, 0nat,
{
    let ghost ev0 = env@;
    let ghost log0 = env.answers();
    let mut cur = clone_value(ast);
    let mut cf = f;
    loop
        invariant
            log0.is_prefix_of(env.answers()),
            env@.fuel <= ev0.fuel,
            ev0 == old(env)@,
            log0 == old(env).answers(),
            forall|l: Seq<Ans<N>>|
                env.answers().is_prefix_of(l) ==> eval_s(l, ev0, f as nat, ast@) == eval_s(
                    l,
                    env@,
                    cf as nat,
                    cur@,
                ),
        decreases env@.fuel,
    {
        if env.fuel == 0 {
            return Err(Error::Eval(EvalError::OutOfFuel));
        }
        let ghost evc = env@;
        let ghost logc = env.answers();
        env.fuel = env.fuel - 1;
        assert(env@ == spend(evc));
        let s = step(&cur, cf, env);
        proof {
            lemma_prefix_trans(log0, logc, env.answers());
        }
        match s {
            Err(e) => {
                proof {
                    assert forall|l: Seq<Ans<N>>| env.answers().is_prefix_of(l) implies eval_s(
                        l,
                        ev0,
                        f as nat,
                        ast@,
                    ) == (env@, res_view(Err::<Value<N>, Error>(e))) by {
                        lemma_prefix_trans(logc, env.answers(), l);
                    }
                }
                return Err(e);
            },
            Ok(Step::Done(v)) => {
                proof {
                    assert forall|l: Seq<Ans<N>>| env.answers().is_prefix_of(l) implies eval_s(
                        l,
                        ev0,
                        f as nat,
                        ast@,
                    ) == (env@, res_view(Ok::<Value<N>, Error>(v))) by {
                        lemma_prefix_trans(logc, env.answers(), l);
                    }
                }
                return Ok(v);
            },
            Ok(Step::Continue(b, f2)) => {
                proof {
                    assert forall|l: Seq<Ans<N>>| env.answers().is_prefix_of(l) implies eval_s(
                        l,
                        ev0,
                        f as nat,
                        ast@,
                    ) == eval_s(l, env@, f2 as nat, b@) by {
                        lemma_prefix_trans(logc, env.answers(), l);
                    }
                }
                cur = b;
                cf = f2;
            },
        }
    }
}

/// One evaluation step (see `step_s`).
fn step<N: Number>(ast: &Value<N>, f: usize, env: &mut Env<N>) -> (r: Result<Step<N>, Error>)
    ensures
        follows(*old(env), *final(env)),
        forall|l: Seq<Ans<N>>|
            final(env).answers().is_prefix_of(l) ==> step_s(l, old(env)@, f as nat, ast@) == (
                final(env)@,
                step_res(r),
            ),
    decreases old(env)@.fuel, 5nat, 0nat,
{
    match ast {
        Value::Cons(h, t) => match &**h {
            Value::Nil => Ok(Step::Done(Value::Nil)),
            Value::Form(form) => form_exec(*form, &**t, f, env),
            _ => {
                let ghost log0 = env.answers();
                let hv = eval(&**h, f, env);
                let ghost log1 = env.answers();
                match hv {
                    Err(e) => Err(with_context(Context::EvalHead, e)),
                    Ok(hv) => {
                        let r = call(hv, &**t, f, env);
                        proof {
                            assert forall|l: Seq<Ans<N>>| env.answers().is_prefix_of(l) implies step_s(
                                l,
                                old(env)@,
                                f as nat,
                                ast@,
                            ) == (env@, step_res(r)) by {
                                lemma_prefix_trans(log1, env.answers(), l);
                            }
                            lemma_prefix_trans(log0, log1, env.answers());
                        }
                        r
                    },
                }
            },
        },
        Value::Symbol(s) => match env.resolve(f, s) {
            Some(v) => Ok(Step::Done(v)),
            None => Err(Error::Eval(EvalError::SymbolUndefined(s.clone()))),
        },
        _ => Ok(Step::Done(clone_value(ast))),
    }
}

/// A call of the value `head` with the unevaluated arguments `tail` (see
/// `call_s`).
fn call<N: Number>(head: Value<N>, tail: &Value<N>, f: usize, env: &mut Env<N>) -> (r: Result<
    Step<N>,
    Error,
>)
    ensures
        follows(*old(env), *final(env)),
        forall|l: Seq<Ans<N>>|
            final(env).answers().is_prefix_of(l) ==> call_s(l, old(env)@, f as nat, head@, tail@) == (
                final(env)@,
                step_res(r),
            ),
    decreases old(env)@.fuel, 4nat, 0nat,
{
    let ghost log0 = env.answers();
    let ghost hv = head@;
    match head {
        Value::Builtin(p, name) => {
            let items = list_to_vec(tail);
            let acc: Vec<Value<N>> = Vec::new();
            assert(values_view(acc@) =~= seq![]);
            let ar = eval_list(f, &items, 0, acc, env);
            let ghost log1 = env.answers();
            match ar {
                Err(e) => Err(e),
                Ok(vals) => {
                    let pr = apply_prim(p, &vals, env);
                    let r = match pr {
                        Ok(v) => Ok(Step::Done(v)),
                        Err(e) => Err(with_context(Context::Calling(name), e)),
                    };
                    proof {
                        assert(env.answers().is_prefix_of(env.answers()));
                        assert forall|l: Seq<Ans<N>>| env.answers().is_prefix_of(l) implies call_s(
                            l,
                            old(env)@,
                            f as nat,
                            hv,
                            tail@,
                        ) == (env@, step_res(r)) by {
                            lemma_prefix_trans(log1, env.answers(), l);
                        }
                        lemma_prefix_trans(log0, log1, env.answers());
                    }
                    r
                },
            }
        },
        Value::Func { name: _, args, body, env: fe } => {
            match setup(f, fe, &args, tail, false, env) {
                Ok(nf) => Ok(Step::Continue(*body, nf)),
                Err(e) => Err(e),
            }
        },
        Value::Lambda { args, body, env: fe } => {
            match setup(f, fe, &args, tail, false, env) {
                Ok(nf) => Ok(Step::Continue(*body, nf)),
                Err(e) => Err(e),
            }
        },
        Value::Macro { name: _, args, body } => {
            let sr = setup(f, f, &args, tail, true, env);
            let ghost log1 = env.answers();
            match sr {
                Err(e) => Err(e),
                Ok(nf) => {
                    let br = eval(&*body, nf, env);
                    let r = match br {
                        Ok(b2) => Ok(Step::Continue(b2, f)),
                        Err(e) => Err(e),
                    };
                    proof {
                        assert forall|l: Seq<Ans<N>>| env.answers().is_prefix_of(l) implies call_s(
                            l,
                            old(env)@,
                            f as nat,
                            head@,
                            tail@,
                        ) == (env@, step_res(r)) by {
                            lemma_prefix_trans(log1, env.answers(), l);
                        }
                        lemma_prefix_trans(log0, log1, env.answers());
                    }
                    r
                },
            }
        },
        other => Ok(Step::Done(other)),
    }
}

/// Evaluates `items[j..]` in frame `f`, after the values `acc` (see
/// `eval_list_s`).
fn eval_list<N: Number>(
    f: usize,
    items: &Vec<Value<N>>,
    j: usize,
    acc: Vec<Value<N>>,
    env: &mut Env<N>,
) -> (r: Result<Vec<Value<N>>, Error>)
    ensures
        follows(*old(env), *final(env)),
        forall|l: Seq<Ans<N>>|
            final(env).answers().is_prefix_of(l) ==> eval_list_s(
                l,
                old(env)@,
                f as nat,
                values_view(items@),
                j as nat,
                values_view(acc@),
            ) == (final(env)@, vec_res(r)),
    decreases old(env)@.fuel, 1nat, items.len() - j,
{
    if j >= items.len() {
        return Ok(acc);
    }
    let ghost log0 = env.answers();
    assert(values_view(items@)[j as int] == items@[j as int]@);
    let r0 = eval(&items[j], f, env);
    let ghost log1 = env.answers();
    match r0 {
        Err(e) => Err(e),
        Ok(v) => {
            let mut acc = acc;
            let ghost a0 = acc@;
            acc.push(v);
            assert(values_view(acc@) =~= values_view(a0).push(v@));
            let r = eval_list(f, items, j + 1, acc, env);
            proof {
                assert forall|l: Seq<Ans<N>>| env.answers().is_prefix_of(l) implies eval_list_s(
                    l,
                    old(env)@,
                    f as nat,
                    values_view(items@),
                    j as nat,
                    values_view(a0),
                ) == (env@, vec_res(r)) by {
                    lemma_prefix_trans(log1, env.answers(), l);
                }
                lemma_prefix_trans(log0, log1, env.answers());
            }
            r
        },
    }
}

/// The frame of a call (see `setup_s`).
fn setup<N: Number>(
    caller: usize,
    parent: usize,
    args: &Vec<String>,
    tail: &Value<N>,
    is_macro: bool,
    env: &mut Env<N>,
) -> (r: Result<usize, Error>)
    ensures
        follows(*old(env), *final(env)),
        forall|l: Seq<Ans<N>>|
            final(env).answers().is_prefix_of(l) ==> setup_s(
                l,
                old(env)@,
                caller as nat,
                parent as nat,
                names_view(args@),
                tail@,
                is_macro,
            ) == (final(env)@, frame_res(r)),
    decreases old(env)@.fuel, 3nat, 0nat,
{
    let ghost log0 = env.answers();
    if env.frames.len() >= usize::MAX {
        return Err(Error::Eval(EvalError::OutOfFrames));
    }
    let nf = env.new_child(parent);
    let vi = rest_index_exec(args);
    let items = list_to_vec(tail);
    if vi < args.len() && vi < args.len() - 1 {
        return Err(Error::Eval(EvalError::VariadicArgsMustBeLast));
    }
    let br = bind(caller, nf, args, vi, &items, 0, is_macro, env);
    let ghost log1 = env.answers();
    match br {
        Err(e) => {
            return Err(e);
        },
        Ok(()) => {},
    }
    if vi < args.len() {
        assert(names_view(args@)[vi as int] == args@[vi as int]@);
        if is_macro {
            env.define(nf, args[vi].clone(), drop_items_exec(tail, vi));
            Ok(nf)
        } else {
            let acc: Vec<Value<N>> = Vec::new();
            assert(values_view(acc@) =~= seq![]);
            let rr = eval_list(caller, &items, vi, acc, env);
            let ghost log2 = env.answers();
            let r = match rr {
                Err(e) => Err(e),
                Ok(vals) => {
                    env.define(nf, args[vi].clone(), prepend_all(vals, Value::Nil));
                    Ok(nf)
                },
            };
            proof {
                assert forall|l: Seq<Ans<N>>| env.answers().is_prefix_of(l) implies setup_s(
                    l,
                    old(env)@,
                    caller as nat,
                    parent as nat,
                    names_view(args@),
                    tail@,
                    is_macro,
                ) == (env@, frame_res(r)) by {
                    lemma_prefix_trans(log2, env.answers(), l);
                    lemma_prefix_trans(log1, log2, l);
                }
                lemma_prefix_trans(log0, log1, log2);
            }
            r
        }
    } else if items.len() > vi {
        Err(Error::Eval(EvalError::BadFunctionArgCount(args.len())))
    } else {
        Ok(nf)
    }
}

/// Binds the parameters `args[j..vi]` in frame `nf` (see `bind_s`).
fn bind<N: Number>(
    caller: usize,
    nf: usize,
    args: &Vec<String>,
    vi: usize,
    items: &Vec<Value<N>>,
    j: usize,
    is_macro: bool,
    env: &mut Env<N>,
) -> (r: Result<(), Error>)
    requires
        vi <= args.len(),
    ensures
        follows(*old(env), *final(env)),
        forall|l: Seq<Ans<N>>|
            final(env).answers().is_prefix_of(l) ==> bind_s(
                l,
                old(env)@,
                caller as nat,
                nf as nat,
                names_view(args@),
                vi as nat,
                values_view(items@),
                j as nat,
                is_macro,
            ) == (final(env)@, unit_res(r)),
    decreases old(env)@.fuel, 2nat, vi - j,
{
    if j >= vi {
        return Ok(());
    }
    if j >= items.len() {
        return Err(Error::Eval(EvalError::BadFunctionArgCount(args.len())));
    }
    assert(names_view(args@)[j as int] == args@[j as int]@);
    assert(values_view(items@)[j as int] == items@[j as int]@);
    let ghost log0 = env.answers();
    if is_macro {
        env.define(nf, args[j].clone(), clone_value(&items[j]));
        return bind(caller, nf, args, vi, items, j + 1, is_macro, env);
    }
    let r0 = eval(&items[j], caller, env);
    let ghost log1 = env.answers();
    match r0 {
        Err(e) => Err(e),
        Ok(v) => {
            env.define(nf, args[j].clone(), v);
            let r = bind(caller, nf, args, vi, items, j + 1, is_macro, env);
            proof {
                assert forall|l: Seq<Ans<N>>| env.answers().is_prefix_of(l) implies bind_s(
                    l,
                    old(env)@,
                    caller as nat,
                    nf as nat,
                    names_view(args@),
                    vi as nat,
                    values_view(items@),
                    j as nat,
                    is_macro,
                ) == (env@, unit_res(r)) by {
                    lemma_prefix_trans(log1, env.answers(), l);
                }
                lemma_prefix_trans(log0, log1, env.answers());
            }
            r
        },
    }
}

/// `define` and `defmacro` (see `define_s`).
fn define_form<N: Number>(f: usize, form: Form, tail: &Value<N>, env: &mut Env<N>) -> (r: Result<
    (),
    Error,
>)
    ensures
        follows(*old(env), *final(env)),
        forall|l: Seq<Ans<N>>|
            final(env).answers().is_prefix_of(l) ==> define_s(l, old(env)@, f as nat, form, tail@)
                == (final(env)@, unit_res(r)),
    decreases old(env)@.fuel, 3nat, 0nat,
{
    let items = list_to_vec(tail);
    if items.len() == 0 {
        return Err(Error::Eval(EvalError::BadDefineArgs));
    }
    assert(values_view(items@)[0] == items@[0]@);
    match &items[0] {
        Value::Symbol(name) => {
            if items.len() != 2 {
                return Err(Error::Eval(EvalError::BadDefineArgs));
            }
            assert(values_view(items@)[1] == items@[1]@);
            match eval(&items[1], f, env) {
                Err(e) => Err(e),
                Ok(v) => {
                    env.define(f, name.clone(), v);
                    Ok(())
                },
            }
        },
        Value::Cons(_, _) => define_callable_exec(f, form, tail, env),
        _ => Err(Error::Eval(EvalError::BadDefineHead)),
    }
}

/// `(define (name params...) body...)` (see `define_callable`).
fn define_callable_exec<N: Number>(f: usize, form: Form, tail: &Value<N>, env: &mut Env<N>) -> (r:
    Result<(), Error>)
    ensures
        final(env).answers() == old(env).answers(),
        (final(env)@, unit_res(r)) == define_callable(old(env)@, f as nat, form, tail@),
{
    match callable(form, tail) {
        Err(e) => Err(e),
        Ok((name, args, body)) => {
            let v = if form == Form::DefineMacro {
                Value::Macro { name: name.clone(), args, body: Box::new(body) }
            } else {
                Value::Func { name: name.clone(), args, body: Box::new(body), env: f }
            };
            env.define(f, name, v);
            Ok(())
        },
    }
}

/// `progn` (see `progn_s`).
fn progn<N: Number>(f: usize, items: &Vec<Value<N>>, j: usize, env: &mut Env<N>) -> (r: Result<
    Step<N>,
    Error,
>)
    ensures
        follows(*old(env), *final(env)),
        forall|l: Seq<Ans<N>>|
            final(env).answers().is_prefix_of(l) ==> progn_s(
                l,
                old(env)@,
                f as nat,
                values_view(items@),
                j as nat,
            ) == (final(env)@, step_res(r)),
    decreases old(env)@.fuel, 2nat, items.len() - j,
{
    if items.len() == 0 {
        return Err(Error::Eval(EvalError::EmptyPrognBody));
    }
    if j >= items.len() - 1 {
        assert(values_view(items@).last() == items@[items.len() - 1]@);
        return Ok(Step::Continue(clone_value(&items[items.len() - 1]), f));
    }
    let ghost log0 = env.answers();
    assert(values_view(items@)[j as int] == items@[j as int]@);
    let r0 = eval(&items[j], f, env);
    let ghost log1 = env.answers();
    match r0 {
        Err(e) => Err(e),
        Ok(_) => {
            let r = progn(f, items, j + 1, env);
            proof {
                assert forall|l: Seq<Ans<N>>| env.answers().is_prefix_of(l) implies progn_s(
                    l,
                    old(env)@,
                    f as nat,
                    values_view(items@),
                    j as nat,
                ) == (env@, step_res(r)) by {
                    lemma_prefix_trans(log1, env.answers(), l);
                }
                lemma_prefix_trans(log0, log1, env.answers());
            }
            r
        },
    }
}

/// Quasi-quotation (see `qq_s`).
#[verifier::spinoff_prover]
fn quasi<N: Number>(ast: &Value<N>, f: usize, env: &mut Env<N>) -> (r: Result<(Value<N>, bool), Error>)
    ensures
        follows(*old(env), *final(env)),
        forall|l: Seq<Ans<N>>|
            final(env).answers().is_prefix_of(l) ==> qq_s(l, old(env)@, f as nat, ast@) == (
                final(env)@,
                qq_res(r),
            ),
    decreases old(env)@.fuel, 3nat, val_size(ast@),
{
    proof {
        reveal_with_fuel(crate::value::value_view, 2);
    }
    match ast {
        Value::Cons(h, t) => match &**h {
            Value::Nil => Ok((clone_value(ast), false)),
            Value::Form(Form::UnQuote) => match eval(&**t, f, env) {
                Ok(v) => Ok((v, false)),
                Err(e) => Err(e),
            },
            Value::Form(Form::UnQuoteSplicing) => match eval(&**t, f, env) {
                Ok(v) => Ok((v, true)),
                Err(e) => Err(e),
            },
            _ => {
                let ghost log0 = env.answers();
                let hr = quasi(&**h, f, env);
                let ghost log1 = env.answers();
                match hr {
                    Err(e) => Err(e),
                    Ok((nh, spliced)) => {
                        let tr = quasi(&**t, f, env);
                        let r = match tr {
                            Err(e) => Err(e),
                            Ok((nt, _)) => if !spliced {
                                Ok((Value::Cons(Box::new(nh), Box::new(nt)), false))
                            } else {
                                match nh.splice(nt) {
                                    Ok(v) => Ok((v, false)),
                                    Err(e) => Err(e),
                                }
                            },
                        };
                        proof {
                            assert forall|l: Seq<Ans<N>>| env.answers().is_prefix_of(l) implies qq_s(
                                l,
                                old(env)@,
                                f as nat,
                                ast@,
                            ) == (env@, qq_res(r)) by {
                                lemma_prefix_trans(log1, env.answers(), l);
                            }
                            lemma_prefix_trans(log0, log1, env.answers());
                        }
                        r
                    },
                }
            },
        },
        _ => Ok((clone_value(ast), false)),
    }
}

/// A special form with the unevaluated operands `tail` (see `form_s`).
fn form_exec<N: Number>(form: Form, tail: &Value<N>, f: usize, env: &mut Env<N>) -> (r: Result<
    Step<N>,
    Error,
>)
    ensures
        follows(*old(env), *final(env)),
        forall|l: Seq<Ans<N>>|
            final(env).answers().is_prefix_of(l) ==> form_s(l, old(env)@, f as nat, form, tail@) == (
                final(env)@,
                step_res(r),
            ),
    decreases old(env)@.fuel, 4nat, 0nat,
{
    match form {
        Form::Quote => match tail {
            Value::Cons(x, _) => Ok(Step::Done(clone_value(&**x))),
            _ => Err(Error::Eval(EvalError::BadQuoteArgs)),
        },
        Form::QuasiQuote => match tail {
            Value::Cons(x, _) => match quasi(&**x, f, env) {
                Ok((v, _)) => Ok(Step::Done(v)),
                Err(e) => Err(e),
            },
            _ => Err(Error::Eval(EvalError::BadQuoteArgs)),
        },
        Form::UnQuote => Err(Error::Eval(EvalError::UnquoteOutsideQuasi)),
        Form::UnQuoteSplicing => Err(Error::Eval(EvalError::UnquoteOutsideQuasi)),
        Form::Require => require_form(f, tail, env),
        Form::Progn => {
            let items = list_to_vec(tail);
            progn(f, &items, 0, env)
        },
        Form::Eval => match eval(tail, f, env) {
            Ok(v) => Ok(Step::Continue(v, f)),
            Err(e) => Err(e),
        },
        Form::Define => match define_form(f, form, tail, env) {
            Ok(()) => Ok(Step::Done(Value::NoPrint)),
            Err(e) => Err(e),
        },
        Form::DefineMacro => match define_form(f, form, tail, env) {
            Ok(()) => Ok(Step::Done(Value::NoPrint)),
            Err(e) => Err(e),
        },
        Form::SetBang => {
            let items = list_to_vec(tail);
            if items.len() != 2 {
                return Err(Error::Eval(EvalError::BadSetBangArgs));
            }
            assert(values_view(items@)[0] == items@[0]@);
            assert(values_view(items@)[1] == items@[1]@);
            match &items[0] {
                Value::Symbol(name) => match eval(&items[1], f, env) {
                    Err(e) => Err(e),
                    Ok(v) => match env.set_bang(f, name.clone(), v) {
                        Ok(()) => Ok(Step::Done(Value::NoPrint)),
                        Err(e) => Err(with_context(Context::SetBang, e)),
                    },
                },
                _ => Err(Error::Eval(EvalError::BadSetBangHead)),
            }
        },
        Form::If => {
            let items = list_to_vec(tail);
            if items.len() != 3 {
                return Err(Error::Eval(EvalError::BadIfArgs));
            }
            assert(values_view(items@)[0] == items@[0]@);
            assert(values_view(items@)[1] == items@[1]@);
            assert(values_view(items@)[2] == items@[2]@);
            let ghost log0 = env.answers();
            match eval(&items[0], f, env) {
                Err(e) => Err(e),
                Ok(c) => {
                    let ghost log1 = env.answers();
                    let ghost ev1 = env@;
                    let t = c.truthy(&mut env.log);
                    let next = if t {
                        clone_value(&items[1])
                    } else {
                        clone_value(&items[2])
                    };
                    let r = Ok(Step::Continue(next, f));
                    proof {
                        assert(env@ == EnvV { count: env.answers().len(), ..ev1 });
                        assert forall|l: Seq<Ans<N>>| env.answers().is_prefix_of(l) implies form_s(
                            l,
                            old(env)@,
                            f as nat,
                            form,
                            tail@,
                        ) == (env@, step_res(r)) by {
                            lemma_prefix_trans(log1, env.answers(), l);
                        }
                        lemma_prefix_trans(log0, log1, env.answers());
                    }
                    r
                },
            }
        },
        Form::Lambda => match callable(form, tail) {
            Ok((_, args, body)) => Ok(Step::Done(Value::Lambda { args, body: Box::new(body), env: f })),
            Err(e) => Err(e),
        },
    }
}


/// The list of the values `items`.
pub open spec fn list_of<N>(items: Seq<Val<N>>) -> Val<N> {
    from_seq(items, Val::Nil)
}

/// Law: a value that is neither a list nor a symbol evaluates to itself, in
/// one step and with no other effect.
pub proof fn law_self_evaluating<N>(l: Seq<Ans<N>>, ev: EnvV<N>, f: nat, v: Val<N>)
    requires
        ev.fuel > 0,
        !(v is Cons),
        !(v is Symbol),
    ensures
        eval_s(l, ev, f, v) == (spend(ev), Ok::<Val<N>, ErrV>(v)),
{
    reveal_with_fuel(eval_s, 2);
    reveal_with_fuel(step_s, 2);
    reveal_with_fuel(form_s, 2);
}

/// Law: a symbol evaluates to what it denotes in the frame, and is an
/// error naming it when it denotes nothing.
pub proof fn law_symbol<N>(l: Seq<Ans<N>>, ev: EnvV<N>, f: nat, name: Seq<char>)
    requires
        ev.fuel > 0,
    ensures
        eval_s(l, ev, f, Val::Symbol(name)) == (spend(ev), match lookup(ev, f, name) {
            Some(v) => Ok::<Val<N>, ErrV>(v),
            None => Err(ErrV::Undefined(name)),
        }),
{
    crate::env::lemma_lookup_same_frames(ev, spend(ev), f, name);
    reveal_with_fuel(eval_s, 2);
    reveal_with_fuel(step_s, 2);
    reveal_with_fuel(form_s, 2);
}

/// Law: `(quote x)` evaluates to `x` itself, unevaluated.
pub proof fn law_quote<N>(l: Seq<Ans<N>>, ev: EnvV<N>, f: nat, x: Val<N>)
    requires
        ev.fuel > 0,
    ensures
        eval_s(l, ev, f, list_of(seq![Val::Form(Form::Quote), x])) == (spend(ev), Ok::<
            Val<N>,
            ErrV,
        >(x)),
{
    reveal_with_fuel(eval_s, 2);
    reveal_with_fuel(step_s, 2);
    reveal_with_fuel(form_s, 2);
    let q = list_of(seq![Val::Form(Form::Quote), x]);
    assert(seq![Val::<N>::Form(Form::Quote), x].drop_first() =~= seq![x]);
    assert(seq![x].drop_first() =~= Seq::<Val<N>>::empty());
    assert(from_seq(Seq::<Val<N>>::empty(), Val::Nil) == Val::<N>::Nil);
    assert(from_seq(seq![x], Val::Nil) == Val::Cons(Box::new(x), Box::new(Val::<N>::Nil)));
    assert(q == Val::Cons(
        Box::new(Val::Form(Form::Quote)),
        Box::new(Val::Cons(Box::new(x), Box::new(Val::<N>::Nil))),
    ));
    assert(step_s(l, spend(ev), f, q) == (spend(ev), Ok::<StepV<N>, ErrV>(StepV::Done(x))));
}

/// Law: `(lambda (params...) body...)` evaluates to a closure of the current
/// frame whose body is `(progn body...)`.
pub proof fn law_lambda<N>(
    l: Seq<Ans<N>>,
    ev: EnvV<N>,
    f: nat,
    params: Seq<Seq<char>>,
    body: Seq<Val<N>>,
)
    requires
        ev.fuel > 0,
        body.len() > 0,
    ensures
        eval_s(
            l,
            ev,
            f,
            list_of(seq![Val::Form(Form::Lambda), list_of(params.map_values(|p: Seq<char>| Val::<N>::Symbol(p)))] + body),
        ) == (
            spend(ev),
            Ok::<Val<N>, ErrV>(
                (Val::Lambda {
                    args: params,
                    body: Box::new(list_of(seq![Val::Form(Form::Progn)] + body)),
                    env: f,
                }),
            ),
        ),
{
    reveal_with_fuel(eval_s, 2);
    reveal_with_fuel(step_s, 2);
    reveal_with_fuel(form_s, 2);
    let ps = params.map_values(|p: Seq<char>| Val::<N>::Symbol(p));
    let all = seq![Val::Form(Form::Lambda), list_of(ps)] + body;
    let rest = all.drop_first();
    let tail = list_of(rest);
    assert(all[0] == Val::<N>::Form(Form::Lambda));
    assert(list_of(all) == Val::Cons(Box::new(Val::<N>::Form(Form::Lambda)), Box::new(tail)));
    lemma_list_items_of(rest);
    lemma_list_items_of(ps);
    lemma_symbols_of_names::<N>(params);
    lemma_drop_items_of(rest, 1);
    assert(rest.skip(1) =~= body);
    assert(rest[0] == list_of::<N>(ps));
    crate::value::lemma_items_from_seq(ps, Val::Nil);
    if ps.len() == 0 {
        assert(list_of::<N>(ps) == Val::<N>::Nil);
    }
    let pbody = Val::Cons(Box::new(Val::<N>::Form(Form::Progn)), Box::new(list_of(body)));
    assert(list_of(seq![Val::Form(Form::Progn)] + body) == pbody) by {
        assert((seq![Val::<N>::Form(Form::Progn)] + body).drop_first() =~= body);
    }
    assert(callable_spec(Form::Lambda, tail) == Ok::<_, ErrV>((Seq::<char>::empty(), params, pbody)));
    assert(step_s(l, spend(ev), f, list_of(all)) == (
        spend(ev),
        Ok::<StepV<N>, ErrV>(StepV::Done(Val::Lambda { args: params, body: Box::new(pbody), env: f })),
    ));
}

/// The elements of a list built from a sequence are that sequence.
pub proof fn lemma_list_items_of<N>(s: Seq<Val<N>>)
    ensures
        list_items(list_of(s)) == s,
{
    crate::value::lemma_items_from_seq(s, Val::Nil);
}

/// Dropping `n` pairs of a list built from a sequence leaves the list of the rest.
pub proof fn lemma_drop_items_of<N>(s: Seq<Val<N>>, n: nat)
    requires
        n <= s.len(),
    ensures
        drop_items(list_of(s), n) == list_of(s.skip(n as int)),
    decreases n,
{
    if n > 0 {
        assert(s.skip(1) =~= s.drop_first());
        lemma_drop_items_of(s.drop_first(), (n - 1) as nat);
        assert(s.drop_first().skip((n - 1) as int) =~= s.skip(n as int));
    } else {
        assert(s.skip(0) =~= s);
    }
}

/// The names of a list of symbols are those symbols' names.
pub proof fn lemma_symbols_of_names<N>(names: Seq<Seq<char>>)
    ensures
        symbols_of(names.map_values(|p: Seq<char>| Val::<N>::Symbol(p))) == Some(names),
    decreases names.len(),
{
    let ps = names.map_values(|p: Seq<char>| Val::<N>::Symbol(p));
    if names.len() > 0 {
        lemma_symbols_of_names::<N>(names.drop_last());
        assert(ps.drop_last() =~= names.drop_last().map_values(|p: Seq<char>| Val::<N>::Symbol(p)));
        assert(names.drop_last().push(names.last()) =~= names);
    } else {
        assert(ps =~= seq![]);
        assert(names =~= seq![]);
    }
}


/// Whether `b` keeps what evaluation keeps of `a`: the budget does not grow,
/// no frame disappears, and every parent stays before its child.
pub open spec fn keeps<N>(a: EnvV<N>, b: EnvV<N>) -> bool {
    &&& b.fuel <= a.fuel
    &&& b.frames.len() >= a.frames.len()
    &&& wf(a) ==> wf(b)
    &&& forall|i: int| 0 <= i < a.frames.len() ==> #[trigger] b.frames[i].parent == a.frames[i].parent
}

/// Binding keeps what evaluation keeps.
proof fn lemma_define_wf<N>(ev: EnvV<N>, f: nat, x: Seq<char>, v: Val<N>)
    ensures
        keeps(ev, define_spec(ev, f, x, v)),
        set_bang_spec(ev, f, x, v) matches Some(ev2) ==> keeps(ev, ev2),
{
    if wf(ev) {
        crate::env::law_wf_preserved(ev, f, x, v, 0);
    }
    let ev2 = define_spec(ev, f, x, v);
    assert forall|i: int| 0 <= i < ev.frames.len() implies #[trigger] ev2.frames[i].parent
        == ev.frames[i].parent by {
        if i == f {
        }
    }
}

/// Law: evaluation never raises the budget, never removes a frame, and
/// keeps every parent before its child.
pub proof fn law_eval_keeps<N>(l: Seq<Ans<N>>, ev: EnvV<N>, f: nat, ast: Val<N>)
    ensures
        keeps(ev, eval_s(l, ev, f, ast).0),
    decreases ev.fuel, 0nat, 0nat,
{
    if ev.fuel > 0 {
        let ev1 = spend(ev);
        lemma_step_keeps(l, ev1, f, ast);
        let r = step_s(l, ev1, f, ast);
        if let Ok(StepV::Continue(b, f2)) = r.1 {
            law_eval_keeps(l, r.0, f2, b);
        }
    }
}

proof fn lemma_step_keeps<N>(l: Seq<Ans<N>>, ev: EnvV<N>, f: nat, ast: Val<N>)
    ensures
        keeps(ev, step_s(l, ev, f, ast).0),
    decreases ev.fuel, 5nat, 0nat,
{
    if let Val::Cons(h, t) = ast {
        match *h {
            Val::Nil => {},
            Val::Form(form) => lemma_form_keeps(l, ev, f, form, *t),
            _ => {
                law_eval_keeps(l, ev, f, *h);
                let hr = eval_s(l, ev, f, *h);
                if let Ok(hv) = hr.1 {
                    lemma_call_keeps(l, hr.0, f, hv, *t);
                }
            },
        }
    }
}

proof fn lemma_call_keeps<N>(l: Seq<Ans<N>>, ev: EnvV<N>, f: nat, head: Val<N>, tail: Val<N>)
    ensures
        keeps(ev, call_s(l, ev, f, head, tail).0),
    decreases ev.fuel, 4nat, 0nat,
{
    match head {
        Val::Builtin(p, _) => {
            lemma_list_keeps(l, ev, f, list_items(tail), 0, seq![]);
        },
        Val::Func { name: _, args, body: _, env: fe } => {
            lemma_setup_keeps(l, ev, f, fe, args, tail, false);
        },
        Val::Lambda { args, body: _, env: fe } => {
            lemma_setup_keeps(l, ev, f, fe, args, tail, false);
        },
        Val::Macro { name: _, args, body } => {
            lemma_setup_keeps(l, ev, f, f, args, tail, true);
            let sr = setup_s(l, ev, f, f, args, tail, true);
            if let Ok(nf) = sr.1 {
                law_eval_keeps(l, sr.0, nf, *body);
            }
        },
        _ => {},
    }
}

proof fn lemma_list_keeps<N>(
    l: Seq<Ans<N>>,
    ev: EnvV<N>,
    f: nat,
    items: Seq<Val<N>>,
    j: nat,
    acc: Seq<Val<N>>,
)
    ensures
        keeps(ev, eval_list_s(l, ev, f, items, j, acc).0),
    decreases ev.fuel, 1nat, items.len() - j,
{
    if j < items.len() {
        law_eval_keeps(l, ev, f, items[j as int]);
        let r = eval_s(l, ev, f, items[j as int]);
        if let Ok(v) = r.1 {
            lemma_list_keeps(l, r.0, f, items, j + 1, acc.push(v));
        }
    }
}

proof fn lemma_setup_keeps<N>(
    l: Seq<Ans<N>>,
    ev: EnvV<N>,
    caller: nat,
    parent: nat,
    args: Seq<Seq<char>>,
    tail: Val<N>,
    is_macro: bool,
)
    ensures
        keeps(ev, setup_s(l, ev, caller, parent, args, tail, is_macro).0),
    decreases ev.fuel, 3nat, 0nat,
{
    if ev.frames.len() < usize::MAX {
        let ev1 = new_child_spec(ev, parent);
        let nf = ev.frames.len();
        let vi = rest_index(args, 0);
        let items = list_items(tail);
        if wf(ev) {
            crate::env::law_wf_preserved(ev, 0, seq![], Val::Nil, parent);
        }
        if !(vi + 1 < args.len()) {
            lemma_bind_keeps(l, ev1, caller, nf, args, vi, items, 0, is_macro);
            let br = bind_s(l, ev1, caller, nf, args, vi, items, 0, is_macro);
            if br.1 is Ok && vi < args.len() {
                if is_macro {
                    lemma_define_wf(br.0, nf, args[vi as int], drop_items(tail, vi));
                } else {
                    lemma_list_keeps(l, br.0, caller, items, vi, seq![]);
                    let rr = eval_list_s(l, br.0, caller, items, vi, seq![]);
                    if let Ok(vals) = rr.1 {
                        lemma_define_wf(rr.0, nf, args[vi as int], from_seq(vals, Val::Nil));
                    }
                }
            }
        }
    }
}

proof fn lemma_bind_keeps<N>(
    l: Seq<Ans<N>>,
    ev: EnvV<N>,
    caller: nat,
    nf: nat,
    args: Seq<Seq<char>>,
    vi: nat,
    items: Seq<Val<N>>,
    j: nat,
    is_macro: bool,
)
    ensures
        keeps(ev, bind_s(l, ev, caller, nf, args, vi, items, j, is_macro).0),
    decreases ev.fuel, 2nat, vi - j,
{
    if j < vi && j < items.len() {
        if is_macro {
            lemma_define_wf(ev, nf, args[j as int], items[j as int]);
            lemma_bind_keeps(
                l,
                define_spec(ev, nf, args[j as int], items[j as int]),
                caller,
                nf,
                args,
                vi,
                items,
                j + 1,
                is_macro,
            );
        } else {
            law_eval_keeps(l, ev, caller, items[j as int]);
            let r = eval_s(l, ev, caller, items[j as int]);
            if let Ok(v) = r.1 {
                lemma_define_wf(r.0, nf, args[j as int], v);
                lemma_bind_keeps(
                    l,
                    define_spec(r.0, nf, args[j as int], v),
                    caller,
                    nf,
                    args,
                    vi,
                    items,
                    j + 1,
                    is_macro,
                );
            }
        }
    }
}

proof fn lemma_define_keeps<N>(l: Seq<Ans<N>>, ev: EnvV<N>, f: nat, form: Form, tail: Val<N>)
    ensures
        keeps(ev, define_s(l, ev, f, form, tail).0),
    decreases ev.fuel, 3nat, 0nat,
{
    let items = list_items(tail);
    if items.len() == 2 && items[0] is Symbol {
        law_eval_keeps(l, ev, f, items[1]);
        let r = eval_s(l, ev, f, items[1]);
        if let Ok(v) = r.1 {
            lemma_define_wf(r.0, f, items[0]->Symbol_0, v);
        }
    }
    if items.len() > 0 && (items[0] is Cons || items[0] is Nil) {
        if let Ok((name, args, body)) = callable_spec(form, tail) {
            lemma_define_wf(ev, f, name, if form == Form::DefineMacro {
                Val::Macro { name, args, body: Box::new(body) }
            } else {
                Val::Func { name, args, body: Box::new(body), env: f }
            });
        }
    }
}

proof fn lemma_progn_keeps<N>(l: Seq<Ans<N>>, ev: EnvV<N>, f: nat, items: Seq<Val<N>>, j: nat)
    ensures
        keeps(ev, progn_s(l, ev, f, items, j).0),
    decreases ev.fuel, 2nat, items.len() - j,
{
    if items.len() > 0 && j + 1 < items.len() {
        law_eval_keeps(l, ev, f, items[j as int]);
        let r = eval_s(l, ev, f, items[j as int]);
        if r.1 is Ok {
            lemma_progn_keeps(l, r.0, f, items, j + 1);
        }
    }
}

proof fn lemma_qq_keeps<N>(l: Seq<Ans<N>>, ev: EnvV<N>, f: nat, ast: Val<N>)
    ensures
        keeps(ev, qq_s(l, ev, f, ast).0),
    decreases ev.fuel, 3nat, val_size(ast),
{
    if let Val::Cons(h, t) = ast {
        match *h {
            Val::Nil => {},
            Val::Form(Form::UnQuote) => law_eval_keeps(l, ev, f, *t),
            Val::Form(Form::UnQuoteSplicing) => law_eval_keeps(l, ev, f, *t),
            _ => {
                lemma_qq_keeps(l, ev, f, *h);
                let hr = qq_s(l, ev, f, *h);
                if hr.1 is Ok {
                    lemma_qq_keeps(l, hr.0, f, *t);
                }
            },
        }
    }
}

proof fn lemma_form_keeps<N>(l: Seq<Ans<N>>, ev: EnvV<N>, f: nat, form: Form, tail: Val<N>)
    ensures
        keeps(ev, form_s(l, ev, f, form, tail).0),
    decreases ev.fuel, 4nat, 0nat,
{
    let items = list_items(tail);
    match form {
        Form::QuasiQuote => {
            if let Val::Cons(x, _) = tail {
                lemma_qq_keeps(l, ev, f, *x);
            }
        },
        Form::Progn => lemma_progn_keeps(l, ev, f, items, 0),
        Form::Eval => law_eval_keeps(l, ev, f, tail),
        Form::Define => lemma_define_keeps(l, ev, f, form, tail),
        Form::DefineMacro => lemma_define_keeps(l, ev, f, form, tail),
        Form::SetBang => {
            if items.len() == 2 && items[0] is Symbol {
                law_eval_keeps(l, ev, f, items[1]);
                let r = eval_s(l, ev, f, items[1]);
                if let Ok(v) = r.1 {
                    lemma_define_wf(r.0, f, items[0]->Symbol_0, v);
                }
            }
        },
        Form::If => {
            if items.len() == 3 {
                law_eval_keeps(l, ev, f, items[0]);
            }
        },
        Form::Require => {
            if let Ok(name) = require_target(tail) {
                if let Some(text) = source_from(ev.sources, name, 0) {
                    lemma_run_text_keeps(l, ev, f, chunks_spec(text).0, 0);
                }
            }
        },
        _ => {},
    }
}

proof fn lemma_run_text_keeps<N>(l: Seq<Ans<N>>, ev: EnvV<N>, f: nat, chunks: Seq<Seq<char>>, j: nat)
    ensures
        keeps(ev, run_text_s(l, ev, f, chunks, j).0),
    decreases ev.fuel, 3nat, chunks.len() - j,
{
    if j < chunks.len() {
        if let Ok((e, _)) = parse_spec(lex_spec(chunks[j as int]), 0) {
            let lw = lower_spec(l, ev.count, e);
            let ev1 = EnvV { count: lw.0, ..ev };
            law_eval_keeps(l, ev1, f, lw.1);
            let r = eval_s(l, ev1, f, lw.1);
            if r.1 is Ok {
                lemma_run_text_keeps(l, r.0, f, chunks, j + 1);
            }
        }
    }
}


/// A nonempty list built from a sequence is a pair of its first element
/// and the list of the rest.
pub proof fn lemma_list_shape<N>(s: Seq<Val<N>>)
    requires
        s.len() > 0,
    ensures
        list_of(s) == Val::Cons(Box::new(s[0]), Box::new(list_of(s.drop_first()))),
        list_items(list_of(s.drop_first())) == s.drop_first(),
{
    lemma_list_items_of(s.drop_first());
}

/// Law: `(define x e)` evaluates `e` and binds `x` to its value in the
/// current frame, where `x` then denotes that value; it evaluates to no
/// printable value. An error of `e` is the error of the definition.
pub proof fn law_define<N>(l: Seq<Ans<N>>, ev: EnvV<N>, f: nat, x: Seq<char>, e: Val<N>)
    requires
        ev.fuel > 0,
    ensures
        ({
            let r = eval_s(l, spend(ev), f, e);
            let d = eval_s(l, ev, f, list_of(seq![Val::Form(Form::Define), Val::Symbol(x), e]));
            &&& d == match r.1 {
                Ok(v) => (define_spec(r.0, f, x, v), Ok::<Val<N>, ErrV>(Val::NoPrint)),
                Err(err) => (r.0, Err(err)),
            }
            &&& match r.1 {
                Ok(v) => f < ev.frames.len() ==> lookup(d.0, f, x) == Some(v),
                Err(_) => true,
            }
        }),
{
    reveal_with_fuel(eval_s, 2);
    reveal_with_fuel(step_s, 2);
    reveal_with_fuel(form_s, 2);
    let s = seq![Val::Form(Form::Define), Val::Symbol(x), e];
    lemma_list_shape(s);
    assert(s.drop_first() =~= seq![Val::Symbol(x), e]);
    let tail = list_of(s.drop_first());
    let items = list_items(tail);
    assert(items[0] == Val::<N>::Symbol(x));
    assert(items[1] == e);
    let r = eval_s(l, spend(ev), f, e);
    law_eval_keeps(l, spend(ev), f, e);
    let dd = define_s(l, spend(ev), f, Form::Define, tail);
    assert(dd == match r.1 {
        Ok(v) => (define_spec(r.0, f, x, v), Ok::<(), ErrV>(())),
        Err(err) => (r.0, Err(err)),
    });
    assert(step_s(l, spend(ev), f, list_of(s)) == form_s(l, spend(ev), f, Form::Define, tail));
    assert(form_s(l, spend(ev), f, Form::Define, tail) == (dd.0, match dd.1 {
        Ok(_) => Ok::<StepV<N>, ErrV>(StepV::Done(Val::NoPrint)),
        Err(err) => Err(err),
    }));
    if let Ok(v) = r.1 {
        if f < ev.frames.len() {
            crate::env::law_define_then_lookup(r.0, f, x, v);
        }
    }
}

/// Law: `(if c a b)` evaluates `c`; when its value is true it continues
/// with `a`, else with `b`, in the same frame. An error of `c` is the error
/// of the whole.
pub proof fn law_if<N>(l: Seq<Ans<N>>, ev: EnvV<N>, f: nat, c: Val<N>, a: Val<N>, b: Val<N>)
    requires
        ev.fuel > 0,
    ensures
        ({
            let r = eval_s(l, spend(ev), f, c);
            eval_s(l, ev, f, list_of(seq![Val::Form(Form::If), c, a, b])) == match r.1 {
                Err(err) => (r.0, Err(err)),
                Ok(cv) => {
                    let t = truthy_at(l, r.0.count, cv);
                    eval_s(l, EnvV { count: t.0, ..r.0 }, f, if t.1 {
                        a
                    } else {
                        b
                    })
                },
            }
        }),
{
    reveal_with_fuel(eval_s, 2);
    reveal_with_fuel(step_s, 2);
    reveal_with_fuel(form_s, 2);
    let s = seq![Val::Form(Form::If), c, a, b];
    lemma_list_shape(s);
    assert(s.drop_first() =~= seq![c, a, b]);
    let tail = list_of(s.drop_first());
    let items = list_items(tail);
    assert(items.len() == 3 && items[0] == c && items[1] == a && items[2] == b);
    law_eval_keeps(l, spend(ev), f, c);
    assert(step_s(l, spend(ev), f, list_of(s)) == form_s(l, spend(ev), f, Form::If, tail));
}

/// Law: `(set! x e)` evaluates `e` and sets the binding of `x` that the
/// current frame sees; `x` then denotes the new value. When no frame binds
/// `x` (built-in procedures included) it fails naming `x`, in the context of
/// a `set!`; an error of evaluating `e` is passed on as it is.
pub proof fn law_set_bang<N>(l: Seq<Ans<N>>, ev: EnvV<N>, f: nat, x: Seq<char>, e: Val<N>)
    requires
        ev.fuel > 0,
    ensures
        ({
            let r = eval_s(l, spend(ev), f, e);
            let d = eval_s(l, ev, f, list_of(seq![Val::Form(Form::SetBang), Val::Symbol(x), e]));
            &&& d == match r.1 {
                Err(err) => (r.0, Err(err)),
                Ok(v) => match set_bang_spec(r.0, f, x, v) {
                    Some(ev2) => (ev2, Ok::<Val<N>, ErrV>(Val::NoPrint)),
                    None => (r.0, Err(ErrV::Context(CtxV::SetBang, Box::new(ErrV::SetUndefined(x))))),
                },
            }
            &&& match r.1 {
                Ok(v) => set_bang_spec(r.0, f, x, v) is Some ==> lookup(d.0, f, x) == Some(v),
                Err(_) => true,
            }
        }),
{
    reveal_with_fuel(eval_s, 2);
    reveal_with_fuel(step_s, 2);
    reveal_with_fuel(form_s, 2);
    let s = seq![Val::Form(Form::SetBang), Val::Symbol(x), e];
    lemma_list_shape(s);
    assert(s.drop_first() =~= seq![Val::Symbol(x), e]);
    let tail = list_of(s.drop_first());
    let items = list_items(tail);
    assert(items.len() == 2 && items[0] == Val::<N>::Symbol(x) && items[1] == e);
    assert(step_s(l, spend(ev), f, list_of(s)) == form_s(l, spend(ev), f, Form::SetBang, tail));
    let r = eval_s(l, spend(ev), f, e);
    if let Ok(v) = r.1 {
        if set_bang_spec(r.0, f, x, v) is Some {
            crate::env::law_set_bang_then_lookup(r.0, f, x, v);
        }
    }
}


/// Whether `b` differs from `a` in its frames at most.
pub open spec fn only_frames<N>(a: EnvV<N>, b: EnvV<N>) -> bool {
    &&& b.fuel == a.fuel
    &&& b.count == a.count
    &&& b.output == a.output
    &&& b.input == a.input
    &&& b.builtins == a.builtins
}

proof fn lemma_macro_bind<N>(
    l: Seq<Ans<N>>,
    ev: EnvV<N>,
    caller: nat,
    nf: nat,
    args: Seq<Seq<char>>,
    vi: nat,
    items: Seq<Val<N>>,
    j: nat,
)
    ensures
        only_frames(ev, bind_s(l, ev, caller, nf, args, vi, items, j, true).0),
    decreases vi - j,
{
    if j < vi && j < items.len() {
        lemma_macro_bind(
            l,
            define_spec(ev, nf, args[j as int], items[j as int]),
            caller,
            nf,
            args,
            vi,
            items,
            j + 1,
        );
    }
}

/// Law: the frame of a macro call binds its parameters without evaluating
/// anything: no budget is spent, no question is put to the number domain,
/// and neither input nor output changes.
pub proof fn law_macro_args_unevaluated<N>(
    l: Seq<Ans<N>>,
    ev: EnvV<N>,
    caller: nat,
    args: Seq<Seq<char>>,
    tail: Val<N>,
)
    ensures
        only_frames(ev, setup_s(l, ev, caller, caller, args, tail, true).0),
{
    if ev.frames.len() < usize::MAX {
        let ev1 = new_child_spec(ev, caller);
        let vi = rest_index(args, 0);
        if !(vi + 1 < args.len()) {
            lemma_macro_bind(l, ev1, caller, ev.frames.len(), args, vi, list_items(tail), 0);
        }
    }
}


/// Law: a call that gets its frame gets a new one, the last, whose parent is
/// the frame of the procedure (`parent`): its body sees the bindings of the
/// place where it was made, not of the place where it is called.
pub proof fn law_call_frame<N>(
    l: Seq<Ans<N>>,
    ev: EnvV<N>,
    caller: nat,
    parent: nat,
    args: Seq<Seq<char>>,
    tail: Val<N>,
    is_macro: bool,
)
    ensures
        ({
            let r = setup_s(l, ev, caller, parent, args, tail, is_macro);
            r.1 matches Ok(nf) ==> {
                &&& nf == ev.frames.len()
                &&& nf < r.0.frames.len()
                &&& r.0.frames[nf as int].parent == if parent < ev.frames.len() {
                    Some(parent)
                } else {
                    None
                }
            }
        }),
{
    if ev.frames.len() < usize::MAX {
        let ev1 = new_child_spec(ev, parent);
        let nf = ev.frames.len();
        let vi = rest_index(args, 0);
        let items = list_items(tail);
        if !(vi + 1 < args.len()) {
            lemma_bind_keeps(l, ev1, caller, nf, args, vi, items, 0, is_macro);
            let br = bind_s(l, ev1, caller, nf, args, vi, items, 0, is_macro);
            assert(br.0.frames[nf as int].parent == ev1.frames[nf as int].parent);
            if br.1 is Ok && vi < args.len() {
                if is_macro {
                    lemma_define_wf(br.0, nf, args[vi as int], drop_items(tail, vi));
                    assert(define_spec(br.0, nf, args[vi as int], drop_items(tail, vi)).frames[nf as int].parent
                        == br.0.frames[nf as int].parent);
                } else {
                    lemma_list_keeps(l, br.0, caller, items, vi, seq![]);
                    let rr = eval_list_s(l, br.0, caller, items, vi, seq![]);
                    assert(rr.0.frames[nf as int].parent == br.0.frames[nf as int].parent);
                    if let Ok(vals) = rr.1 {
                        lemma_define_wf(rr.0, nf, args[vi as int], from_seq(vals, Val::Nil));
                        assert(define_spec(rr.0, nf, args[vi as int], from_seq(vals, Val::Nil)).frames[nf as int].parent
                            == rr.0.frames[nf as int].parent);
                    }
                }
            }
        }
    }
}

/// Whether no list inside `v` is headed by `unquote` or `unquotesplicing`.
pub open spec fn unquote_free<N>(v: Val<N>) -> bool
    decreases v,
{
    match v {
        Val::Cons(h, t) => match *h {
            Val::Form(Form::UnQuote) => false,
            Val::Form(Form::UnQuoteSplicing) => false,
            _ => unquote_free(*h) && unquote_free(*t),
        },
        _ => true,
    }
}

/// Law: quasi-quoting a structure without unquote forms gives that very
/// structure, and changes nothing.
pub proof fn law_qq_plain<N>(l: Seq<Ans<N>>, ev: EnvV<N>, f: nat, v: Val<N>)
    requires
        unquote_free(v),
    ensures
        qq_s(l, ev, f, v) == (ev, Ok::<(Val<N>, bool), ErrV>((v, false))),
    decreases v,
{
    if let Val::Cons(h, t) = v {
        match *h {
            Val::Nil => {},
            _ => {
                law_qq_plain(l, ev, f, *h);
                law_qq_plain(l, ev, f, *t);
            },
        }
    }
}

/// Whether `v` can head a quoted list that quasi-quotation walks into: it
/// holds no unquote form, and is neither `nil` nor an unquote form itself.
pub open spec fn plain_head<N>(v: Val<N>) -> bool {
    &&& unquote_free(v)
    &&& !(v is Nil)
    &&& v != Val::<N>::Form(Form::UnQuote)
    &&& v != Val::<N>::Form(Form::UnQuoteSplicing)
}

/// `x` nested in lists, one level for each element of `pre`: at each level
/// the list holds `pre[i]` and then the next level.
pub open spec fn nest<N>(x: Val<N>, pre: Seq<Val<N>>) -> Val<N>
    decreases pre.len(),
{
    if pre.len() == 0 {
        x
    } else {
        Val::Cons(Box::new(pre[0]), Box::new(Val::Cons(Box::new(nest(x, pre.drop_first())), Box::new(Val::Nil))))
    }
}

/// Law: an unquote form at any depth of a quasi-quoted structure is replaced
/// by the value of its operand, evaluated in the current frame, and the rest
/// of the structure is kept: quasi-quoting `(p0 (p1 ... (unquote e)))` gives
/// `(p0 (p1 ... v))` where `v` is the value of `e`, with the effects of
/// evaluating `e`; an error of `e` is the error of the whole.
pub proof fn law_qq_unquote_at_depth<N>(
    l: Seq<Ans<N>>,
    ev: EnvV<N>,
    f: nat,
    e: Val<N>,
    pre: Seq<Val<N>>,
)
    requires
        forall|i: int| 0 <= i < pre.len() ==> plain_head(#[trigger] pre[i]),
    ensures
        ({
            let r = eval_s(l, ev, f, e);
            qq_s(l, ev, f, nest(Val::Cons(Box::new(Val::Form(Form::UnQuote)), Box::new(e)), pre)) == (
                r.0,
                match r.1 {
                    Ok(v) => Ok::<(Val<N>, bool), ErrV>((nest(v, pre), false)),
                    Err(x) => Err(x),
                },
            )
        }),
    decreases pre.len(),
{
    let u = Val::Cons(Box::new(Val::Form(Form::UnQuote)), Box::new(e));
    let r = eval_s(l, ev, f, e);
    law_eval_keeps(l, ev, f, e);
    if pre.len() > 0 {
        let rest = pre.drop_first();
        assert forall|i: int| 0 <= i < rest.len() implies plain_head(#[trigger] rest[i]) by {
            assert(rest[i] == pre[i + 1]);
        }
        law_qq_unquote_at_depth(l, ev, f, e, rest);
        assert(plain_head(pre[0]));
        law_qq_plain(l, ev, f, pre[0]);
        let inner = nest(u, rest);
        assert(inner is Cons);
        let tail = Val::Cons(Box::new(inner), Box::new(Val::<N>::Nil));
        let tr = qq_s(l, ev, f, tail);
        assert(r.0.fuel <= ev.fuel);
        assert(qq_s(l, r.0, f, Val::<N>::Nil) == (r.0, Ok::<(Val<N>, bool), ErrV>((Val::<N>::Nil, false))));
        assert(qq_s(l, ev, f, inner) == (r.0, match r.1 {
            Ok(v) => Ok::<(Val<N>, bool), ErrV>((nest(v, rest), false)),
            Err(x) => Err(x),
        }));
        assert(tr == (r.0, match r.1 {
            Ok(v) => Ok::<(Val<N>, bool), ErrV>((Val::Cons(Box::new(nest(v, rest)), Box::new(Val::Nil)), false)),
            Err(x) => Err(x),
        }));
    }
}

/// Law: a spliced unquote at the head of a quasi-quoted list puts the
/// elements of its operand's value in front of the (unquote-free) rest of
/// the list: the result's elements are the value's elements followed by the
/// rest's; a value that is not a list is an error, and so is an error of
/// the operand.
pub proof fn law_qq_splice<N>(l: Seq<Ans<N>>, ev: EnvV<N>, f: nat, e: Val<N>, rest: Val<N>)
    requires
        unquote_free(rest),
    ensures
        ({
            let r = eval_s(l, ev, f, e);
            let q = qq_s(
                l,
                ev,
                f,
                Val::Cons(
                    Box::new(Val::Cons(Box::new(Val::Form(Form::UnQuoteSplicing)), Box::new(e))),
                    Box::new(rest),
                ),
            );
            &&& q.0 == r.0
            &&& r.1 matches Err(x) ==> q.1 == Err::<(Val<N>, bool), ErrV>(x)
            &&& r.1 matches Ok(v) ==> (q.1 is Ok <==> (v is Nil || v is Cons))
            &&& r.1 matches Ok(v) ==> (q.1 matches Ok((w, spliced)) ==> !spliced && list_items(w)
                == list_items(v) + list_items(rest))
        }),
{
    let r = eval_s(l, ev, f, e);
    law_eval_keeps(l, ev, f, e);
    law_qq_plain(l, r.0, f, rest);
    let h = Val::Cons(Box::new(Val::Form(Form::UnQuoteSplicing)), Box::new(e));
    assert(qq_s(l, ev, f, h) == (r.0, match r.1 {
        Ok(v) => Ok::<(Val<N>, bool), ErrV>((v, true)),
        Err(x) => Err(x),
    }));
    if let Ok(v) = r.1 {
        law_splice_items(v, rest);
    }
}

/// Law: `(progn a b)` evaluates `a`, then continues with `b` in the same
/// frame; the value of `a` is dropped, and an error of `a` is the error of
/// the whole.
pub proof fn law_progn<N>(l: Seq<Ans<N>>, ev: EnvV<N>, f: nat, a: Val<N>, b: Val<N>)
    requires
        ev.fuel > 0,
    ensures
        ({
            let r = eval_s(l, spend(ev), f, a);
            eval_s(l, ev, f, list_of(seq![Val::Form(Form::Progn), a, b])) == match r.1 {
                Err(err) => (r.0, Err(err)),
                Ok(_) => eval_s(l, r.0, f, b),
            }
        }),
{
    reveal_with_fuel(eval_s, 2);
    reveal_with_fuel(step_s, 2);
    reveal_with_fuel(form_s, 2);
    reveal_with_fuel(progn_s, 3);
    let s = seq![Val::Form(Form::Progn), a, b];
    lemma_list_shape(s);
    assert(s.drop_first() =~= seq![a, b]);
    let tail = list_of(s.drop_first());
    let items = list_items(tail);
    assert(items.len() == 2 && items[0] == a && items[1] == b);
    law_eval_keeps(l, spend(ev), f, a);
    assert(step_s(l, spend(ev), f, list_of(s)) == form_s(l, spend(ev), f, Form::Progn, tail));
}

/// Law: `(quasiquote x)` is the quasi-quotation of `x` (see `law_qq_plain`,
/// `law_qq_unquote_at_depth` and `law_qq_splice`), in one step.
pub proof fn law_quasiquote<N>(l: Seq<Ans<N>>, ev: EnvV<N>, f: nat, x: Val<N>)
    requires
        ev.fuel > 0,
    ensures
        ({
            let q = qq_s(l, spend(ev), f, x);
            eval_s(l, ev, f, list_of(seq![Val::Form(Form::QuasiQuote), x])) == (
                q.0,
                match q.1 {
                    Ok((v, _)) => Ok::<Val<N>, ErrV>(v),
                    Err(err) => Err(err),
                },
            )
        }),
{
    reveal_with_fuel(eval_s, 2);
    reveal_with_fuel(step_s, 2);
    let s = seq![Val::Form(Form::QuasiQuote), x];
    lemma_list_shape(s);
    assert(s.drop_first() =~= seq![x]);
    let tail = list_of(s.drop_first());
    assert(seq![x].drop_first() =~= Seq::<Val<N>>::empty());
    assert(from_seq(Seq::<Val<N>>::empty(), Val::Nil) == Val::<N>::Nil);
    assert(tail == Val::Cons(Box::new(x), Box::new(Val::<N>::Nil)));
    assert(step_s(l, spend(ev), f, list_of(s)) == form_s(l, spend(ev), f, Form::QuasiQuote, tail));
}

} // verus!
