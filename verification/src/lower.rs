//! Lowering: expression trees to values, and the reading of atoms.
use vstd::prelude::*;

use crate::parser::{Expr, ExprV, exprs_view};
use crate::text::string_from;
use crate::value::{
    Ans, Form, NumLog, Number, Val, Value, from_seq, lemma_log_push, lemma_prefix_trans,
    parsed_ans, prepend_all, values_view,
};

verus! {

/// The special form that a word names.
pub open spec fn form_of(s: Seq<char>) -> Option<Form> {
    if s == "if"@ {
        Some(Form::If)
    } else if s == "require"@ {
        Some(Form::Require)
    } else if s == "eval"@ {
        Some(Form::Eval)
    } else if s == "progn"@ {
        Some(Form::Progn)
    } else if s == "set!"@ {
        Some(Form::SetBang)
    } else if s == "quote"@ || s == "'"@ {
        Some(Form::Quote)
    } else if s == "quasiquote"@ || s == "`"@ {
        Some(Form::QuasiQuote)
    } else if s == "unquotesplicing"@ || s == "@"@ {
        Some(Form::UnQuoteSplicing)
    } else if s == "unquote"@ || s == ","@ {
        Some(Form::UnQuote)
    } else if s == "define"@ || s == "def"@ {
        Some(Form::Define)
    } else if s == "defmacro"@ || s == "defm"@ {
        Some(Form::DefineMacro)
    } else if s == "lambda"@ || s == "lamda"@ || s == ".\\"@ {
        Some(Form::Lambda)
    } else {
        None
    }
}

/// The keyword table of `Form::from_str`: the words of `form_of` without
/// `set!` and the splicing unquote (`unquotesplicing`, `@`), with
/// `define-macro` as one more spelling of `defmacro`.
pub open spec fn keyword_form_of(s: Seq<char>) -> Option<Form> {
    if s == "define-macro"@ {
        Some(Form::DefineMacro)
    } else {
        match form_of(s) {
            Some(f) => if f == Form::SetBang || f == Form::UnQuoteSplicing {
                None
            } else {
                Some(f)
            },
            None => None,
        }
    }
}

/// Whether two texts are equal.
fn same_text(a: &str, b: &str) -> (r: bool)
    ensures
        r == (a@ == b@),
{
    string_from(a) == string_from(b)
}

impl Form {
    /// The special form that the word `s` names, if any.
    pub fn try_parse(s: &str) -> (r: Option<Form>)
        ensures
            r == form_of(s@),
    {
        if same_text(s, "if") {
            Some(Form::If)
        } else if same_text(s, "require") {
            Some(Form::Require)
        } else if same_text(s, "eval") {
            Some(Form::Eval)
        } else if same_text(s, "progn") {
            Some(Form::Progn)
        } else if same_text(s, "set!") {
            Some(Form::SetBang)
        } else if same_text(s, "quote") || same_text(s, "'") {
            Some(Form::Quote)
        } else if same_text(s, "quasiquote") || same_text(s, "`") {
            Some(Form::QuasiQuote)
        } else if same_text(s, "unquotesplicing") || same_text(s, "@") {
            Some(Form::UnQuoteSplicing)
        } else if same_text(s, "unquote") || same_text(s, ",") {
            Some(Form::UnQuote)
        } else if same_text(s, "define") || same_text(s, "def") {
            Some(Form::Define)
        } else if same_text(s, "defmacro") || same_text(s, "defm") {
            Some(Form::DefineMacro)
        } else if same_text(s, "lambda") || same_text(s, "lamda") || same_text(s, ".\\") {
            Some(Form::Lambda)
        } else {
            None
        }
    }

    /// The special form that the word `s` names in the keyword table of
    /// `keyword_form_of`, if any.
    pub fn from_str(s: &str) -> (r: Option<Form>)
        ensures
            r == keyword_form_of(s@),
    {
        if same_text(s, "define-macro") {
            return Some(Form::DefineMacro);
        }
        match Form::try_parse(s) {
            Some(f) => {
                if f == Form::SetBang || f == Form::UnQuoteSplicing {
                    None
                } else {
                    Some(f)
                }
            },
            None => None,
        }
    }
}

/// The special form that a word of a program names: a word of `form_of`,
/// or `define-macro`, one more spelling of `defmacro` in programs.
pub open spec fn program_form_of(s: Seq<char>) -> Option<Form> {
    if s == "define-macro"@ {
        Some(Form::DefineMacro)
    } else {
        form_of(s)
    }
}

/// The value that a word stands for when it is not a number literal: a
/// special form (see `program_form_of`), `nil`, `#t`, `#f`, a string literal
/// between double quotes, else a symbol. A lone double quote is a symbol.
pub open spec fn word_value<N>(atom: Seq<char>) -> Val<N> {
    match program_form_of(atom) {
        Some(f) => Val::Form(f),
        None => if atom == "nil"@ {
            Val::Nil
        } else if atom == "#t"@ {
            Val::Bool(true)
        } else if atom == "#f"@ {
            Val::Bool(false)
        } else if atom.len() >= 2 && atom[0] == '"' && atom.last() == '"' {
            Val::Str(atom.subrange(1, atom.len() - 1))
        } else {
            Val::Symbol(atom)
        },
    }
}

/// The value of an atom, reading at position `k` the answer to whether it
/// is a number literal.
pub open spec fn classify_spec<N>(l: Seq<Ans<N>>, k: nat, atom: Seq<char>) -> (nat, Val<N>) {
    match parsed_ans(l, k, atom) {
        Some(n) => (k + 1, Val::Num(n)),
        None => (k + 1, word_value(atom)),
    }
}

/// The value of an expression tree: an atom by `classify_spec`, a list as the
/// chain of pairs of the values of its elements, lowered from left to right.
pub open spec fn lower_spec<N>(l: Seq<Ans<N>>, k: nat, e: ExprV) -> (nat, Val<N>)
    decreases e, 0nat,
{
    match e {
        ExprV::Atom(a) => classify_spec(l, k, a),
        ExprV::List(items) => {
            let r = lower_upto(l, k, items, items.len());
            (r.0, from_seq(r.1, Val::Nil))
        },
    }
}

/// The values of `items[..n]`.
pub open spec fn lower_upto<N>(l: Seq<Ans<N>>, k: nat, items: Seq<ExprV>, n: nat) -> (nat, Seq<Val<N>>)
    decreases items, n,
{
    if n == 0 || n > items.len() {
        (k, seq![])
    } else {
        let pre = lower_upto(l, k, items, (n - 1) as nat);
        let r = lower_spec(l, pre.0, items[n - 1]);
        (r.0, pre.1.push(r.1))
    }
}

/// The text of a string literal: `atom` without its first and last character.
fn literal_text(atom: &str) -> (r: String)
    requires
        atom@.len() >= 2,
    ensures
        r@ == atom@.subrange(1, atom@.len() - 1),
{
    let chars = crate::text::chars_of(atom);
    crate::text::string_of(&chars, 1, chars.len() - 1)
}

/// The value of an atom (see `classify_spec`).
pub fn classify<N: Number>(atom: &str, log: &mut NumLog<N>) -> (v: Value<N>)
    ensures
        old(log).entries().is_prefix_of(final(log).entries()),
        forall|l: Seq<Ans<N>>|
            final(log).entries().is_prefix_of(l) ==> classify_spec(l, old(log).entries().len(), atom@)
                == (final(log).entries().len(), v@),
{
    let ghost before = log.entries();
    let p = log.parse_num(atom);
    proof {
        assert forall|l: Seq<Ans<N>>| log.entries().is_prefix_of(l) implies parsed_ans(
            l,
            before.len(),
            atom@,
        ) == p by {
            lemma_log_push(before, Ans::Parsed(atom@, p), l);
        }
    }
    match p {
        Some(n) => Value::Num(n),
        None => word_value_exec(atom),
    }
}

/// The value of a word that is not a number literal (see `word_value`).
fn word_value_exec<N: Number>(atom: &str) -> (v: Value<N>)
    ensures
        v@ == word_value::<N>(atom@),
{
    let form = if same_text(atom, "define-macro") {
        Some(Form::DefineMacro)
    } else {
        Form::try_parse(atom)
    };
    match form {
        Some(f) => Value::Form(f),
        None => {
            if same_text(atom, "nil") {
                Value::Nil
            } else if same_text(atom, "#t") {
                Value::Bool(true)
            } else if same_text(atom, "#f") {
                Value::Bool(false)
            } else {
                let chars = crate::text::chars_of(atom);
                let n = chars.len();
                if n >= 2 && chars[0] == '"' && chars[n - 1] == '"' {
                    Value::Str(literal_text(atom))
                } else {
                    Value::Symbol(string_from(atom))
                }
            }
        },
    }
}

/// The value of an expression tree (see `lower_spec`).
pub fn lower<N: Number>(ast: &Expr, log: &mut NumLog<N>) -> (v: Value<N>)
    ensures
        old(log).entries().is_prefix_of(final(log).entries()),
        forall|l: Seq<Ans<N>>|
            final(log).entries().is_prefix_of(l) ==> lower_spec(l, old(log).entries().len(), ast@) == (
                final(log).entries().len(),
                v@,
            ),
    decreases ast@,
{
    let ghost before = log.entries();
    match ast {
        Expr::Atom(a) => classify(a.as_str(), log),
        Expr::List(items) => {
            proof {
                crate::parser::lemma_list_view(*items);
            }
            let ghost iv = exprs_view(items@);
            let mut vals: Vec<Value<N>> = Vec::new();
            let mut i: usize = 0;
            while i < items.len()
                invariant
                    i <= items.len(),
                    ast@ == ExprV::List(iv),
                    iv == exprs_view(items@),
                    before.is_prefix_of(log.entries()),
                    forall|l: Seq<Ans<N>>|
                        log.entries().is_prefix_of(l) ==> lower_upto(l, before.len(), iv, i as nat)
                            == (log.entries().len(), values_view(vals@)),
                decreases items.len() - i,
            {
                let ghost mid = log.entries();
                let ghost vs = vals@;
                proof {
                    assert(0 <= i < items@.len());
                    assert(exprs_view(items@)[i as int] == crate::parser::expr_view(items@[i as int]));
                    assert(iv[i as int] == items@[i as int]@);
                    let e = ast@;
                    assert(decreases_to!(e => e->List_0));
                    assert(e->List_0 == iv);
                    assert(decreases_to!(iv => iv[i as int]));
                    assert(decreases_to!(ast@ => items@[i as int]@));
                }
                let v = lower(&items[i], log);
                vals.push(v);
                proof {
                    assert(iv[i as int] == items@[i as int]@);
                    assert(values_view(vals@) =~= values_view(vs).push(v@));
                    assert forall|l: Seq<Ans<N>>| log.entries().is_prefix_of(l) implies lower_upto(
                        l,
                        before.len(),
                        iv,
                        (i + 1) as nat,
                    ) == (log.entries().len(), values_view(vals@)) by {
                        lemma_prefix_trans(mid, log.entries(), l);
                    }
                    lemma_prefix_trans(before, mid, log.entries());
                }
                i += 1;
            }
            prepend_all(vals, Value::Nil)
        },
    }
}

} // verus!
