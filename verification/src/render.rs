//! The printed form of values.
use vstd::prelude::*;

use crate::text::{push_char, push_str, string_from};
use crate::value::{
    Ans, Form, NumLog, Number, Val, Value, lemma_log_push, lemma_prefix_trans, names_view,
    text_ans,
};

verus! {

/// The name of a special form, as it is printed.
pub open spec fn form_name(f: Form) -> Seq<char> {
    match f {
        Form::If => "If"@,
        Form::Eval => "Eval"@,
        Form::Require => "Require"@,
        Form::Quote => "Quote"@,
        Form::QuasiQuote => "QuasiQuote"@,
        Form::UnQuote => "UnQuote"@,
        Form::UnQuoteSplicing => "UnQuoteSplicing"@,
        Form::Define => "Define"@,
        Form::DefineMacro => "DefineMacro"@,
        Form::Lambda => "Lambda"@,
        Form::Progn => "Progn"@,
        Form::SetBang => "SetBang"@,
    }
}

/// The names `s` separated by single spaces.
pub open spec fn join_names(s: Seq<Seq<char>>) -> Seq<char>
    decreases s.len(),
{
    if s.len() == 0 {
        seq![]
    } else if s.len() == 1 {
        s[0]
    } else {
        join_names(s.drop_last()) + " "@ + s.last()
    }
}

/// The printed form of `v`, reading the printed forms of numbers from the
/// answers at position `k` on; gives the next position too.
///
/// `nil` prints as `nil`, booleans as `#t` and `#f`, a byte between single
/// quotes, a symbol after a colon, a string as itself, a list as `'(` and its
/// elements separated by spaces and `)` (an improper end is printed as one
/// more element), and procedures by their kind, name and parameters.
pub open spec fn render_at<N>(l: Seq<Ans<N>>, k: nat, v: Val<N>) -> (nat, Seq<char>)
    decreases v, 0nat,
{
    match v {
        Val::NoPrint => (k, seq![]),
        Val::Nil => (k, "nil"@),
        Val::Bool(b) => (k, if b {
            "#t"@
        } else {
            "#f"@
        }),
        Val::Num(n) => (k + 1, text_ans(l, k, n)),
        Val::Char(c) => (k, seq!['\'', c as char, '\'']),
        Val::Symbol(s) => (k, ":"@ + s),
        Val::Form(f) => (k, form_name(f)),
        Val::Str(s) => (k, s),
        Val::Cons(h, t) => {
            let r1 = render_at(l, k, *h);
            let r2 = render_tail(l, r1.0, *t);
            (r2.0, "'("@ + r1.1 + r2.1 + ")"@)
        },
        Val::Builtin(_, name) => (k, "built-in: "@ + name + " (...) {...}"@),
        Val::Macro { name, args, body: _ } => (
            k,
            "macro: "@ + name + " ("@ + join_names(args) + ") {...}"@,
        ),
        Val::Func { name, args, body: _, env: _ } => (
            k,
            "func: "@ + name + " ("@ + join_names(args) + ") {...}"@,
        ),
        Val::Lambda { args, body: _, env: _ } => (k, "lambda: ("@ + join_names(args) + ") {...}"@),
    }
}

/// The printed form of the rest of a list after its first element: each
/// further element after a space.
pub open spec fn render_tail<N>(l: Seq<Ans<N>>, k: nat, v: Val<N>) -> (nat, Seq<char>)
    decreases v, 1nat,
{
    match v {
        Val::Nil => (k, seq![]),
        Val::Cons(h, t) => {
            let r1 = render_at(l, k, *h);
            let r2 = render_tail(l, r1.0, *t);
            (r2.0, " "@ + r1.1 + r2.1)
        },
        _ => {
            let r = render_at(l, k, v);
            (r.0, " "@ + r.1)
        },
    }
}

/// The printed forms of `items` separated by single spaces.
pub open spec fn render_all<N>(l: Seq<Ans<N>>, k: nat, items: Seq<Val<N>>) -> (nat, Seq<char>)
    decreases items.len(),
{
    if items.len() == 0 {
        (k, seq![])
    } else {
        let pre = render_all(l, k, items.drop_last());
        let r = render_at(l, pre.0, items.last());
        (r.0, if items.len() == 1 {
            r.1
        } else {
            pre.1 + " "@ + r.1
        })
    }
}

/// The names separated by single spaces.
pub fn join(names: &Vec<String>) -> (s: String)
    ensures
        s@ == join_names(names_view(names@)),
{
    let ghost all = names_view(names@);
    let mut s = String::new();
    let mut i: usize = 0;
    while i < names.len()
        invariant
            0 <= i <= names.len(),
            all == names_view(names@),
            s@ == join_names(all.take(i as int)),
        decreases names.len() - i,
    {
        assert(all.take(i as int + 1).drop_last() =~= all.take(i as int));
        if i > 0 {
            push_str(&mut s, " ");
        }
        push_str(&mut s, names[i].as_str());
        proof {
            if i == 0 {
                assert(s@ =~= all.take(1)[0]);
            }
        }
        i += 1;
    }
    assert(all.take(names.len() as int) =~= all);
    s
}

/// The printed form of a special form.
pub fn form_text(f: Form) -> (s: String)
    ensures
        s@ == form_name(f),
{
    match f {
        Form::If => string_from("If"),
        Form::Eval => string_from("Eval"),
        Form::Require => string_from("Require"),
        Form::Quote => string_from("Quote"),
        Form::QuasiQuote => string_from("QuasiQuote"),
        Form::UnQuote => string_from("UnQuote"),
        Form::UnQuoteSplicing => string_from("UnQuoteSplicing"),
        Form::Define => string_from("Define"),
        Form::DefineMacro => string_from("DefineMacro"),
        Form::Lambda => string_from("Lambda"),
        Form::Progn => string_from("Progn"),
        Form::SetBang => string_from("SetBang"),
    }
}

/// The character whose code is the byte `b`.
pub fn byte_char(b: u8) -> (c: char)
    ensures
        c == b as char,
{
    b as char
}

/// The printed form of `v` (see `render_at`).
pub fn render<N: Number>(v: &Value<N>, log: &mut NumLog<N>) -> (s: String)
    ensures
        old(log).entries().is_prefix_of(final(log).entries()),
        forall|l: Seq<Ans<N>>|
            final(log).entries().is_prefix_of(l) ==> render_at(l, old(log).entries().len(), v@) == (
                final(log).entries().len(),
                s@,
            ),
    decreases v, 0nat,
{
    let ghost before = log.entries();
    match v {
        Value::NoPrint => String::new(),
        Value::Nil => string_from("nil"),
        Value::Bool(b) => if *b {
            string_from("#t")
        } else {
            string_from("#f")
        },
        Value::Num(n) => {
            let t = log.render(n);
            proof {
                assert forall|l: Seq<Ans<N>>| log.entries().is_prefix_of(l) implies render_at(
                    l,
                    before.len(),
                    v@,
                ) == (log.entries().len(), t@) by {
                    lemma_log_push(before, Ans::Text(*n, t@), l);
                }
            }
            t
        },
        Value::Char(c) => {
            let mut s = String::new();
            push_char(&mut s, '\'');
            push_char(&mut s, byte_char(*c));
            push_char(&mut s, '\'');
            assert(s@ =~= seq!['\'', *c as char, '\'']);
            s
        },
        Value::Symbol(name) => {
            let mut s = string_from(":");
            push_str(&mut s, name.as_str());
            s
        },
        Value::Form(f) => form_text(*f),
        Value::Str(text) => text.clone(),
        Value::Cons(h, t) => {
            let mut s = string_from("'(");
            let hs = render(&**h, log);
            let ghost mid = log.entries();
            push_str(&mut s, hs.as_str());
            let ghost s1 = s@;
            let tref: &Value<N> = &**t;
            render_tail_into(tref, log, &mut s);
            let ghost s2 = s@;
            push_str(&mut s, ")");
            proof {
                assert forall|l: Seq<Ans<N>>| log.entries().is_prefix_of(l) implies render_at(
                    l,
                    before.len(),
                    v@,
                ) == (log.entries().len(), s@) by {
                    lemma_prefix_trans(mid, log.entries(), l);
                    let rt = render_tail(l, mid.len(), tref@);
                    assert(rt == (log.entries().len(), s2.subrange(s1.len() as int, s2.len() as int)));
                    assert(s@ =~= "'("@ + hs@ + rt.1 + ")"@) by {
                        assert(s1 =~= "'("@ + hs@);
                        assert(s2 =~= s2.subrange(0, s1.len() as int) + s2.subrange(s1.len() as int, s2.len() as int));
                    }
                }
                lemma_prefix_trans(before, mid, log.entries());
            }
            s
        },
        Value::Builtin(_, name) => {
            let mut s = string_from("built-in: ");
            push_str(&mut s, name.as_str());
            push_str(&mut s, " (...) {...}");
            s
        },
        Value::Macro { name, args, body: _ } => {
            let mut s = string_from("macro: ");
            push_str(&mut s, name.as_str());
            push_str(&mut s, " (");
            let j = join(args);
            push_str(&mut s, j.as_str());
            push_str(&mut s, ") {...}");
            s
        },
        Value::Func { name, args, body: _, env: _ } => {
            let mut s = string_from("func: ");
            push_str(&mut s, name.as_str());
            push_str(&mut s, " (");
            let j = join(args);
            push_str(&mut s, j.as_str());
            push_str(&mut s, ") {...}");
            s
        },
        Value::Lambda { args, body: _, env: _ } => {
            let mut s = string_from("lambda: (");
            let j = join(args);
            push_str(&mut s, j.as_str());
            push_str(&mut s, ") {...}");
            s
        },
    }
}

/// Appends the printed form of the rest of a list (see `render_tail`).
fn render_tail_into<N: Number>(v: &Value<N>, log: &mut NumLog<N>, out: &mut String)
    ensures
        old(log).entries().is_prefix_of(final(log).entries()),
        forall|l: Seq<Ans<N>>|
            final(log).entries().is_prefix_of(l) ==> #[trigger] render_tail(
                l,
                old(log).entries().len(),
                v@,
            ) == (final(log).entries().len(), final(out)@.subrange(
                old(out)@.len() as int,
                final(out)@.len() as int,
            )),
        final(out)@.subrange(0, old(out)@.len() as int) == old(out)@,
        final(out)@.len() >= old(out)@.len(),
    decreases v, 1nat,
{
    let ghost before = log.entries();
    let ghost o = out@;
    match v {
        Value::Nil => {
            assert(out@.subrange(o.len() as int, out@.len() as int) =~= seq![]);
            assert(out@.subrange(0, o.len() as int) =~= o);
        },
        Value::Cons(h, t) => {
            push_str(out, " ");
            let hs = render(&**h, log);
            let ghost mid = log.entries();
            push_str(out, hs.as_str());
            let ghost o2 = out@;
            let tref: &Value<N> = &**t;
            render_tail_into(tref, log, out);
            proof {
                assert forall|l: Seq<Ans<N>>| log.entries().is_prefix_of(l) implies #[trigger] render_tail(
                    l,
                    before.len(),
                    v@,
                ) == (log.entries().len(), out@.subrange(o.len() as int, out@.len() as int)) by {
                    lemma_prefix_trans(mid, log.entries(), l);
                    assert(render_tail(l, mid.len(), tref@) == (log.entries().len(), out@.subrange(
                        o2.len() as int,
                        out@.len() as int,
                    )));
                    assert(out@.subrange(o.len() as int, out@.len() as int) =~= " "@ + hs@
                        + out@.subrange(o2.len() as int, out@.len() as int)) by {
                        let rest = out@.subrange(o2.len() as int, out@.len() as int);
                        assert(o2 =~= o + " "@ + hs@);
                        assert(out@.subrange(0, o2.len() as int) == o2);
                        assert(out@ =~= o2 + rest);
                        assert(out@ =~= o + (" "@ + hs@ + rest));
                    }
                }
                lemma_prefix_trans(before, mid, log.entries());
                assert(out@.subrange(0, o.len() as int) =~= o) by {
                    let rest = out@.subrange(o2.len() as int, out@.len() as int);
                    assert(out@.subrange(0, o2.len() as int) == o2);
                    assert(o2 =~= o + " "@ + hs@);
                    assert(out@ =~= o2 + rest);
                    assert(out@ =~= o + (" "@ + hs@ + rest));
                }
            }
        },
        _ => {
            push_str(out, " ");
            let s = render(v, log);
            push_str(out, s.as_str());
            proof {
                assert(out@ =~= o + " "@ + s@);
                assert(out@.subrange(o.len() as int, out@.len() as int) =~= " "@ + s@);
                assert(out@.subrange(0, o.len() as int) =~= o);
            }
        },
    }
}

/// The printed forms of `items` separated by single spaces (see `render_all`).
pub fn render_list<N: Number>(items: &Vec<Value<N>>, log: &mut NumLog<N>) -> (s: String)
    ensures
        old(log).entries().is_prefix_of(final(log).entries()),
        forall|l: Seq<Ans<N>>|
            final(log).entries().is_prefix_of(l) ==> render_all(
                l,
                old(log).entries().len(),
                crate::value::values_view(items@),
            ) == (final(log).entries().len(), s@),
{
    let ghost all = crate::value::values_view(items@);
    let ghost before = log.entries();
    let mut s = String::new();
    let mut i: usize = 0;
    while i < items.len()
        invariant
            0 <= i <= items.len(),
            all == crate::value::values_view(items@),
            before.is_prefix_of(log.entries()),
            forall|l: Seq<Ans<N>>|
                log.entries().is_prefix_of(l) ==> render_all(l, before.len(), all.take(i as int))
                    == (log.entries().len(), s@),
        decreases items.len() - i,
    {
        let ghost mid = log.entries();
        let ghost s0 = s@;
        if i > 0 {
            push_str(&mut s, " ");
        }
        let r = render(&items[i], log);
        push_str(&mut s, r.as_str());
        proof {
            assert(all.take(i as int + 1).drop_last() =~= all.take(i as int));
            assert(all.take(i as int + 1).last() == items@[i as int]@);
            assert forall|l: Seq<Ans<N>>| log.entries().is_prefix_of(l) implies render_all(
                l,
                before.len(),
                all.take(i as int + 1),
            ) == (log.entries().len(), s@) by {
                lemma_prefix_trans(mid, log.entries(), l);
                if i == 0 {
                    assert(s@ =~= r@);
                } else {
                    assert(s@ =~= s0 + " "@ + r@);
                }
            }
            lemma_prefix_trans(before, mid, log.entries());
        }
        i += 1;
    }
    assert(all.take(items.len() as int) =~= all);
    s
}

} // verus!
