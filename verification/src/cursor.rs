//! Running source text: cutting it into top-level expressions and
//! evaluating them in the global frame, and the bracket counting that tells
//! an interactive reader when an input is complete.
use vstd::prelude::*;

use crate::builtins::{trim, trim_spec};
use crate::env::{Env, EnvV};
use crate::errors::{ErrV, Error};
use crate::eval::{eval, eval_s};
use crate::lexer::{is_space, is_whitespace, lex, lex_spec};
use crate::lower::{lower, lower_spec};
use crate::parser::{ParseError, parse_expr, parse_spec};
use crate::text::{chars_of, push_str, string_from, string_of};
use crate::value::{Ans, Number, Val, Value, lemma_prefix_trans, names_view, values_view};

verus! {

/// Why source text could not be run.
#[derive(PartialEq, Eq, Debug)]
pub enum ProcessError {
    /// A piece of the text is not an expression.
    Parse(ParseError),
    /// Evaluating an expression failed.
    Eval(Error),
    /// Text is left over that forms no complete expression: where it starts,
    /// the length of the text, and how many expressions were run.
    Incomplete(usize, usize, usize),
    /// The text closes more brackets than it opens.
    MoreClosingThanOpening,
}

/// The model of a process error.
pub enum ProcessErrV {
    Parse(ParseError),
    Eval(ErrV),
    Incomplete(nat, nat, nat),
    MoreClosingThanOpening,
}

/// The model of a process error.
pub open spec fn perr_view(e: ProcessError) -> ProcessErrV {
    match e {
        ProcessError::Parse(p) => ProcessErrV::Parse(p),
        ProcessError::Eval(x) => ProcessErrV::Eval(x@),
        ProcessError::Incomplete(a, b, c) => ProcessErrV::Incomplete(a as nat, b as nat, c as nat),
        ProcessError::MoreClosingThanOpening => ProcessErrV::MoreClosingThanOpening,
    }
}

/// How a character changes the bracket depth.
pub open spec fn paren_step(c: char) -> int {
    if c == '(' {
        1
    } else if c == ')' {
        -1
    } else {
        0
    }
}

/// The bracket depth after the characters `s`: opening brackets less
/// closing ones.
pub open spec fn paren_count(s: Seq<char>) -> int
    decreases s.len(),
{
    if s.len() == 0 {
        0
    } else {
        paren_count(s.drop_last()) + paren_step(s.last())
    }
}

/// Whether the bracket depth stays within `i32` at every point of `s`.
pub open spec fn depth_fits(s: Seq<char>) -> bool {
    forall|i: int| 0 <= i <= s.len() ==> i32::MIN <= #[trigger] paren_count(s.take(i)) <= i32::MAX
}

/// Bracket depth adds up over concatenation, and the empty text has depth
/// zero: counting a text in two pieces gives the count of the whole.
pub proof fn law_paren_concat(a: Seq<char>, b: Seq<char>)
    ensures
        paren_count(a + b) == paren_count(a) + paren_count(b),
        paren_count(Seq::<char>::empty()) == 0,
    decreases b.len(),
{
    if b.len() == 0 {
        assert(a + b =~= a);
    } else {
        assert((a + b).drop_last() =~= a + b.drop_last());
        assert((a + b).last() == b.last());
        law_paren_concat(a, b.drop_last());
    }
}

/// Whether a text is only white space.
pub open spec fn is_blank(s: Seq<char>) -> bool {
    trim_spec(s).len() == 0
}

/// The outcome of running one expression's text: lexed, parsed (the first
/// expression; tokens after it are ignored), lowered and evaluated in the
/// global frame.
pub open spec fn run_chunk_s<N>(l: Seq<Ans<N>>, ev: EnvV<N>, text: Seq<char>) -> (
    EnvV<N>,
    Result<Val<N>, ProcessErrV>,
) {
    match parse_spec(lex_spec(text), 0) {
        Err(pe) => (ev, Err(ProcessErrV::Parse(pe))),
        Ok((e, _)) => {
            let lw = lower_spec(l, ev.count, e);
            let r = eval_s(l, EnvV { count: lw.0, ..ev }, 0, lw.1);
            (r.0, match r.1 {
                Ok(v) => Ok(v),
                Err(x) => Err(ProcessErrV::Eval(x)),
            })
        },
    }
}

/// The texts of the top-level expressions of `s` from character `i` on,
/// after those in `acc`, and where the text not yet taken starts. `from` is
/// where the current expression's text starts and `p` the bracket depth.
///
/// At depth zero an expression ends at white space, at an opening bracket
/// (before it) or at the last character; inside brackets it ends where the
/// depth returns to zero. Pieces that are only white space are skipped.
pub open spec fn scan(s: Seq<char>, i: nat, from: nat, p: int, acc: Seq<Seq<char>>) -> (
    Seq<Seq<char>>,
    nat,
)
    decreases s.len() - i,
{
    if i >= s.len() {
        (acc, from)
    } else {
        let c = s[i as int];
        let no_p = p == 0;
        let p2 = p + paren_step(c);
        let naked = no_p && (is_space(c) || c == '(' || i + 1 == s.len());
        let good = p2 == 0 && !no_p;
        let hi: nat = if naked && c == '(' {
            i
        } else {
            i + 1
        };
        if is_blank(s.subrange(from as int, hi as int)) || (!naked && !good) {
            scan(s, i + 1, from, p2, acc)
        } else {
            scan(s, i + 1, hi, p2, acc.push(s.subrange(from as int, hi as int)))
        }
    }
}

/// The texts of the top-level expressions of `s`, and where the text that
/// forms no expression starts.
pub open spec fn chunks_spec(s: Seq<char>) -> (Seq<Seq<char>>, nat) {
    scan(s, 0, 0, 0, seq![])
}

/// Runs the expression texts `chunks[j..]`, after the values `vals`.
pub open spec fn run_all_s<N>(
    l: Seq<Ans<N>>,
    ev: EnvV<N>,
    chunks: Seq<Seq<char>>,
    j: nat,
    vals: Seq<Val<N>>,
) -> (EnvV<N>, Result<Seq<Val<N>>, ProcessErrV>)
    decreases chunks.len() - j,
{
    if j >= chunks.len() {
        (ev, Ok(vals))
    } else {
        let r = run_chunk_s(l, ev, chunks[j as int]);
        match r.1 {
            Err(e) => (r.0, Err(e)),
            Ok(v) => run_all_s(l, r.0, chunks, j + 1, vals.push(v)),
        }
    }
}

/// Runs the text `s`: each of its top-level expressions in turn; text left
/// over that forms no expression is an error after them.
pub open spec fn process_spec<N>(l: Seq<Ans<N>>, ev: EnvV<N>, s: Seq<char>) -> (
    EnvV<N>,
    Result<Seq<Val<N>>, ProcessErrV>,
) {
    let c = chunks_spec(s);
    let r = run_all_s(l, ev, c.0, 0, seq![]);
    match r.1 {
        Err(e) => (r.0, Err(e)),
        Ok(vals) => if c.1 + 1 < s.len() {
            (r.0, Err(ProcessErrV::Incomplete(c.1, s.len(), vals.len())))
        } else {
            (r.0, Ok(vals))
        },
    }
}

/// Runs one expression's text (see `run_chunk_s`).
pub fn run_chunk<N: Number>(text: &str, env: &mut Env<N>) -> (r: Result<Value<N>, ProcessError>)
    ensures
        env_follows(*old(env), *final(env)),
        forall|l: Seq<Ans<N>>|
            final(env).answers().is_prefix_of(l) ==> run_chunk_s(l, old(env)@, text@) == (
                final(env)@,
                match r {
                    Ok(v) => Ok(v@),
                    Err(e) => Err(perr_view(e)),
                },
            ),
{
    let tokens = lex(text);
    match parse_expr(&tokens) {
        Err(pe) => Err(ProcessError::Parse(pe)),
        Ok((e, _)) => {
            let ghost log0 = env.answers();
            let ghost ev0 = env@;
            let v = lower(&e, &mut env.log);
            let ghost log1 = env.answers();
            assert(env@ == EnvV { count: log1.len(), ..ev0 });
            let r = eval(&v, 0, env);
            let r2 = match r {
                Ok(x) => Ok(x),
                Err(x) => Err(ProcessError::Eval(x)),
            };
            proof {
                assert forall|l: Seq<Ans<N>>| env.answers().is_prefix_of(l) implies run_chunk_s(
                    l,
                    ev0,
                    text@,
                ) == (
                    env@,
                    match r2 {
                        Ok(v) => Ok(v@),
                        Err(e) => Err(perr_view(e)),
                    },
                ) by {
                    lemma_prefix_trans(log1, env.answers(), l);
                }
                lemma_prefix_trans(log0, log1, env.answers());
            }
            r2
        },
    }
}

/// Whether `after` follows from `before` by running text: the answer log
/// grew.
pub open spec fn env_follows<N>(before: Env<N>, after: Env<N>) -> bool {
    before.answers().is_prefix_of(after.answers())
}

/// Whether a text is only white space (see `is_blank`).
fn blank(s: &str) -> (b: bool)
    ensures
        b == is_blank(s@),
{
    let t = trim(s);
    t.as_str().is_empty()
}

/// The texts of the top-level expressions of `contents`, and where the
/// text that forms no expression starts (see `chunks_spec`).
pub fn split_chunks(contents: &str) -> (r: (Vec<String>, usize))
    ensures
        names_view(r.0@) == chunks_spec(contents@).0,
        r.1 == chunks_spec(contents@).1,
        r.1 <= contents@.len(),
{
    let chars = chars_of(contents);
    let n = chars.len();
    let ghost s = contents@;
    let mut out: Vec<String> = Vec::new();
    let mut from: usize = 0;
    let mut p: i128 = 0;
    let mut i: usize = 0;
    assert(names_view(out@) =~= seq![]);
    while i < n
        invariant
            n == chars@.len(),
            chars@ == s,
            s == contents@,
            i <= n,
            from <= i,
            -(i as int) <= p <= i as int,
            chunks_spec(s) == scan(s, i as nat, from as nat, p as int, names_view(out@)),
        decreases n - i,
    {
        let c = chars[i];
        let no_p = p == 0;
        let is_ws = is_whitespace(c);
        let eof = i + 1 == n;
        if c == '(' {
            p = p + 1;
        } else if c == ')' {
            p = p - 1;
        }
        let naked = no_p && (is_ws || c == '(' || eof);
        let good = p == 0 && !no_p;
        let hi = if naked && c == '(' {
            i
        } else {
            i + 1
        };
        let chunk = string_of(&chars, from, hi);
        if !(blank(chunk.as_str()) || (!naked && !good)) {
            let ghost o = out@;
            out.push(chunk);
            assert(names_view(out@) =~= names_view(o).push(s.subrange(from as int, hi as int)));
            from = hi;
        }
        i += 1;
    }
    (out, from)
}

/// Runs the source text `contents` in the global frame of `env`: evaluates
/// each top-level expression in turn and gives their values (see
/// `process_spec`). The text must not be empty.
pub fn process<N: Number>(contents: &str, env: &mut Env<N>) -> (r: Result<Vec<Value<N>>, ProcessError>)
    requires
        contents@.len() > 0,
    ensures
        env_follows(*old(env), *final(env)),
        forall|l: Seq<Ans<N>>|
            final(env).answers().is_prefix_of(l) ==> process_spec(l, old(env)@, contents@) == (
                final(env)@,
                match r {
                    Ok(v) => Ok(values_view(v@)),
                    Err(e) => Err(perr_view(e)),
                },
            ),
{
    let (chunks, from) = split_chunks(contents);
    let n = chars_of(contents).len();
    let ghost cs = names_view(chunks@);
    let ghost ev0 = env@;
    let ghost log0 = env.answers();
    let mut rv: Vec<Value<N>> = Vec::new();
    let mut j: usize = 0;
    assert(values_view(rv@) =~= seq![]);
    while j < chunks.len()
        invariant
            j <= chunks.len(),
            cs == names_view(chunks@),
            cs == chunks_spec(contents@).0,
            ev0 == old(env)@,
            log0 == old(env).answers(),
            log0.is_prefix_of(env.answers()),
            forall|l: Seq<Ans<N>>|
                env.answers().is_prefix_of(l) ==> run_all_s(l, ev0, cs, 0, seq![]) == run_all_s(
                    l,
                    env@,
                    cs,
                    j as nat,
                    values_view(rv@),
                ),
        decreases chunks.len() - j,
    {
        let ghost logc = env.answers();
        assert(cs[j as int] == chunks@[j as int]@);
        let r = run_chunk(chunks[j].as_str(), env);
        proof {
            lemma_prefix_trans(log0, logc, env.answers());
        }
        match r {
            Err(e) => {
                proof {
                    assert forall|l: Seq<Ans<N>>| env.answers().is_prefix_of(l) implies process_spec(
                        l,
                        ev0,
                        contents@,
                    ) == (env@, Err::<Seq<Val<N>>, ProcessErrV>(perr_view(e))) by {
                        lemma_prefix_trans(logc, env.answers(), l);
                    }
                }
                return Err(e);
            },
            Ok(v) => {
                let ghost r0 = rv@;
                rv.push(v);
                proof {
                    assert(values_view(rv@) =~= values_view(r0).push(v@));
                    assert forall|l: Seq<Ans<N>>| env.answers().is_prefix_of(l) implies run_all_s(
                        l,
                        ev0,
                        cs,
                        0,
                        seq![],
                    ) == run_all_s(l, env@, cs, (j + 1) as nat, values_view(rv@)) by {
                        lemma_prefix_trans(logc, env.answers(), l);
                    }
                }
            },
        }
        j += 1;
    }
    match check_complete(contents, from, rv.len()) {
        Err(e) => Err(e),
        Ok(()) => Ok(rv),
    }
}

/// The last step of running a text whose last expression ended before
/// position `from`, after `count` expressions were run: more than one
/// character left over that forms no expression is an error.
pub fn check_complete(text: &str, from: usize, count: usize) -> (r: Result<(), ProcessError>)
    ensures
        from + 1 < text@.len() ==> r == Err::<(), ProcessError>(
            ProcessError::Incomplete(from, text@.len() as usize, count),
        ),
        from + 1 >= text@.len() ==> r is Ok,
{
    let n = chars_of(text).len();
    if n > 0 && from < n - 1 {
        Err(ProcessError::Incomplete(from, n, count))
    } else {
        Ok(())
    }
}

/// The bracket depth after a line: opening brackets less closing ones.
pub fn count_paren(line: &str) -> (r: i32)
    requires
        depth_fits(line@),
    ensures
        r == paren_count(line@),
{
    let chars = chars_of(line);
    let mut total: i32 = 0;
    let mut i: usize = 0;
    while i < chars.len()
        invariant
            i <= chars.len(),
            chars@ == line@,
            depth_fits(chars@),
            total == paren_count(chars@.take(i as int)),
        decreases chars.len() - i,
    {
        assert(chars@.take(i as int + 1).drop_last() =~= chars@.take(i as int));
        assert(i32::MIN <= paren_count(chars@.take(i as int + 1)) <= i32::MAX);
        if chars[i] == '(' {
            total = total + 1;
        } else if chars[i] == ')' {
            total = total - 1;
        }
        i += 1;
    }
    assert(chars@.take(chars.len() as int) =~= chars@);
    total
}

/// Whether an input is ready to be run: its brackets balance. More closing
/// than opening brackets is an error; fewer means that more input is needed.
pub fn is_ready_to_process(contents: &str) -> (r: Result<bool, ProcessError>)
    requires
        depth_fits(contents@),
    ensures
        match r {
            Ok(b) => paren_count(contents@) >= 0 && b == (paren_count(contents@) == 0),
            Err(e) => paren_count(contents@) < 0 && e == ProcessError::MoreClosingThanOpening,
        },
{
    let p = count_paren(contents);
    if p < 0 {
        Err(ProcessError::MoreClosingThanOpening)
    } else if p > 0 {
        Ok(false)
    } else {
        Ok(true)
    }
}

/// The text `t` repeated `n` times.
pub open spec fn repeat(t: Seq<char>, n: nat) -> Seq<char>
    decreases n,
{
    if n == 0 {
        seq![]
    } else {
        repeat(t, (n - 1) as nat) + t
    }
}

/// The prompt of an interactive reader: `> ` for a new expression, else `* `
/// followed by two spaces for each bracket still open.
pub fn make_prompt(indent: usize) -> (s: String)
    ensures
        s@ == if indent == 0 {
            "> "@
        } else {
            "* "@ + repeat("  "@, indent as nat)
        },
{
    if indent == 0 {
        return string_from("> ");
    }
    let mut s = string_from("* ");
    let ghost start = s@;
    let mut i: usize = 0;
    while i < indent
        invariant
            i <= indent,
            start == "* "@,
            s@ == start + repeat("  "@, i as nat),
        decreases indent - i,
    {
        push_str(&mut s, "  ");
        assert(s@ =~= start + repeat("  "@, (i + 1) as nat));
        i += 1;
    }
    s
}

} // verus!
