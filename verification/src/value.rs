//! Runtime values of the interpreter and their mathematical model.
use vstd::prelude::*;

use crate::errors::{Error, ErrV, EvalError, eval_err};
pub use crate::numlog::NumLog;

verus! {

/// The number domain of the interpreter.
///
/// The interpreter moves numbers around but never inspects them itself: every
/// arithmetic question is put to this trait. The methods carry no contract, so
/// everything proved about the interpreter holds whatever answers they give;
/// the answers that an evaluation received are recorded in its answer log
/// (see `NumLog`), and the evaluator's contracts are stated over that log.
pub trait Number: Copy + Sized {
    /// Reads a number literal, if the text is one.
    fn parse_num(text: &str) -> Option<Self>;

    /// The printed form of the number.
    fn render(&self) -> String;

    /// Whether the number is zero (zero is the only false number).
    fn is_zero(&self) -> bool;

    /// The additive unit.
    fn zero() -> Self;

    /// The multiplicative unit.
    fn one() -> Self;

    /// Sum.
    fn plus(&self, other: &Self) -> Self;

    /// Difference.
    fn minus(&self, other: &Self) -> Self;

    /// Product.
    fn times(&self, other: &Self) -> Self;

    /// Quotient.
    fn divided(&self, other: &Self) -> Self;

    /// Euclidean quotient.
    fn div_euclid(&self, other: &Self) -> Self;

    /// Remainder.
    fn remainder(&self, other: &Self) -> Self;

    /// Strict order.
    fn less(&self, other: &Self) -> bool;

    /// Numeric equality.
    fn same(&self, other: &Self) -> bool;

    /// The number of a count (a length).
    fn from_count(n: usize) -> Self;

    /// The index that the number denotes (saturating at the ends of `usize`).
    fn to_index(&self) -> usize;

    /// The byte whose code the number is, when it lies in `0..256`.
    fn to_byte(&self) -> Option<u8>;
}

/// The special forms.
#[derive(PartialEq, Eq, Structural, Debug, Clone, Copy)]
pub enum Form {
    If,
    Eval,
    Require,
    Quote,
    QuasiQuote,
    UnQuote,
    UnQuoteSplicing,
    Define,
    DefineMacro,
    Lambda,
    Progn,
    SetBang,
}

/// The built-in procedures.
#[derive(PartialEq, Eq, Structural, Debug, Clone, Copy)]
pub enum Prim {
    Add,
    Sub,
    Mul,
    Div,
    IntDiv,
    Lt,
    Mod,
    And,
    Or,
    Eq,
    Not,
    Cons,
    Car,
    Cdr,
    List,
    Append,
    IsNumber,
    IsBool,
    IsSymbol,
    IsChar,
    IsString,
    IsAtom,
    IsNull,
    IsPair,
    StringLength,
    StringRef,
    Substring,
    StringAppend,
    StringList,
    StringNum,
    ListString,
    MakeChar,
    Print,
    GetChar,
    GetLine,
}

/// A runtime value.
///
/// Closures (`Func`, `Lambda`) refer to the frame of the environment arena in
/// which they were created.
#[derive(PartialEq, Debug)]
pub enum Value<N> {
    NoPrint,
    Nil,
    Bool(bool),
    Char(u8),
    Num(N),
    Symbol(String),
    Form(Form),
    Str(String),
    Cons(Box<Value<N>>, Box<Value<N>>),
    Builtin(Prim, String),
    Macro { name: String, args: Vec<String>, body: Box<Value<N>> },
    Func { name: String, args: Vec<String>, body: Box<Value<N>>, env: usize },
    Lambda { args: Vec<String>, body: Box<Value<N>>, env: usize },
}

/// The mathematical model of a value: strings are sequences of characters.
pub enum Val<N> {
    NoPrint,
    Nil,
    Bool(bool),
    Char(u8),
    Num(N),
    Symbol(Seq<char>),
    Form(Form),
    Str(Seq<char>),
    Cons(Box<Val<N>>, Box<Val<N>>),
    Builtin(Prim, Seq<char>),
    Macro { name: Seq<char>, args: Seq<Seq<char>>, body: Box<Val<N>> },
    Func { name: Seq<char>, args: Seq<Seq<char>>, body: Box<Val<N>>, env: nat },
    Lambda { args: Seq<Seq<char>>, body: Box<Val<N>>, env: nat },
}

/// The model of a list of names.
pub open spec fn names_view(names: Seq<String>) -> Seq<Seq<char>> {
    names.map_values(|s: String| s@)
}

/// The model of a value.
pub open spec fn value_view<N>(v: Value<N>) -> Val<N>
    decreases v,
{
    match v {
        Value::NoPrint => Val::NoPrint,
        Value::Nil => Val::Nil,
        Value::Bool(b) => Val::Bool(b),
        Value::Char(c) => Val::Char(c),
        Value::Num(n) => Val::Num(n),
        Value::Symbol(s) => Val::Symbol(s@),
        Value::Form(f) => Val::Form(f),
        Value::Str(s) => Val::Str(s@),
        Value::Cons(h, t) => Val::Cons(Box::new(value_view(*h)), Box::new(value_view(*t))),
        Value::Builtin(p, name) => Val::Builtin(p, name@),
        Value::Macro { name, args, body } => Val::Macro {
            name: name@,
            args: names_view(args@),
            body: Box::new(value_view(*body)),
        },
        Value::Func { name, args, body, env } => Val::Func {
            name: name@,
            args: names_view(args@),
            body: Box::new(value_view(*body)),
            env: env as nat,
        },
        Value::Lambda { args, body, env } => Val::Lambda {
            args: names_view(args@),
            body: Box::new(value_view(*body)),
            env: env as nat,
        },
    }
}

impl<N> View for Value<N> {
    type V = Val<N>;

    open spec fn view(&self) -> Val<N> {
        value_view(*self)
    }
}

/// An arithmetic operation of the number domain.
#[derive(PartialEq, Eq, Structural, Debug, Clone, Copy)]
pub enum Op {
    Plus,
    Minus,
    Times,
    Divided,
    DivEuclid,
    Remainder,
}

/// A question put to the number domain, with the answer it gave.
pub enum Ans<N> {
    /// `a op b` gave `r`.
    Arith(Op, N, N, N),
    /// The additive (`false`) or multiplicative (`true`) unit.
    Unit(bool, N),
    /// Whether `a < b`.
    Less(N, N, bool),
    /// Whether `a` equals `b`.
    Same(N, N, bool),
    /// Whether `a` is zero.
    IsZero(N, bool),
    /// The number of a count.
    Count(usize, N),
    /// The index that `a` denotes.
    Index(N, usize),
    /// The byte that `a` denotes.
    Byte(N, Option<u8>),
    /// The printed form of `a`.
    Text(N, Seq<char>),
    /// The number that a text is a literal of.
    Parsed(Seq<char>, Option<N>),
}

/// The entry at position `k` of the log `l`.
pub open spec fn ans_at<N>(l: Seq<Ans<N>>, k: nat) -> Ans<N> {
    if k < l.len() {
        l[k as int]
    } else {
        arbitrary()
    }
}

/// The answer at position `k` to `a op b`; unspecified when the entry there
/// is another question.
pub open spec fn arith_ans<N>(l: Seq<Ans<N>>, k: nat, op: Op, a: N, b: N) -> N {
    match ans_at(l, k) {
        Ans::Arith(o, x, y, r) => if o == op && x == a && y == b {
            r
        } else {
            arbitrary()
        },
        _ => arbitrary(),
    }
}

/// The answer at position `k` to the question for a unit.
pub open spec fn unit_ans<N>(l: Seq<Ans<N>>, k: nat, one: bool) -> N {
    match ans_at(l, k) {
        Ans::Unit(o, r) => if o == one {
            r
        } else {
            arbitrary()
        },
        _ => arbitrary(),
    }
}

/// The answer at position `k` to whether `a < b`.
pub open spec fn less_ans<N>(l: Seq<Ans<N>>, k: nat, a: N, b: N) -> bool {
    match ans_at(l, k) {
        Ans::Less(x, y, r) => if x == a && y == b {
            r
        } else {
            arbitrary()
        },
        _ => arbitrary(),
    }
}

/// The answer at position `k` to whether `a` equals `b`.
pub open spec fn same_ans<N>(l: Seq<Ans<N>>, k: nat, a: N, b: N) -> bool {
    match ans_at(l, k) {
        Ans::Same(x, y, r) => if x == a && y == b {
            r
        } else {
            arbitrary()
        },
        _ => arbitrary(),
    }
}

/// The answer at position `k` to whether `a` is zero.
pub open spec fn zero_ans<N>(l: Seq<Ans<N>>, k: nat, a: N) -> bool {
    match ans_at(l, k) {
        Ans::IsZero(x, r) => if x == a {
            r
        } else {
            arbitrary()
        },
        _ => arbitrary(),
    }
}

/// The answer at position `k` to the number of the count `n`.
pub open spec fn count_ans<N>(l: Seq<Ans<N>>, k: nat, n: usize) -> N {
    match ans_at(l, k) {
        Ans::Count(x, r) => if x == n {
            r
        } else {
            arbitrary()
        },
        _ => arbitrary(),
    }
}

/// The answer at position `k` to the index that `a` denotes.
pub open spec fn index_ans<N>(l: Seq<Ans<N>>, k: nat, a: N) -> usize {
    match ans_at(l, k) {
        Ans::Index(x, r) => if x == a {
            r
        } else {
            arbitrary()
        },
        _ => arbitrary(),
    }
}

/// The answer at position `k` to the byte that `a` denotes.
pub open spec fn byte_ans<N>(l: Seq<Ans<N>>, k: nat, a: N) -> Option<u8> {
    match ans_at(l, k) {
        Ans::Byte(x, r) => if x == a {
            r
        } else {
            arbitrary()
        },
        _ => arbitrary(),
    }
}

/// The answer at position `k` to the printed form of `a`.
pub open spec fn text_ans<N>(l: Seq<Ans<N>>, k: nat, a: N) -> Seq<char> {
    match ans_at(l, k) {
        Ans::Text(x, r) => if x == a {
            r
        } else {
            arbitrary()
        },
        _ => arbitrary(),
    }
}

/// The answer at position `k` to the number that `t` is a literal of.
pub open spec fn parsed_ans<N>(l: Seq<Ans<N>>, k: nat, t: Seq<char>) -> Option<N> {
    match ans_at(l, k) {
        Ans::Parsed(x, r) => if x == t {
            r
        } else {
            arbitrary()
        },
        _ => arbitrary(),
    }
}

/// After an entry `a` is logged, any log that extends the new log extends the
/// old one and holds `a` at the old length.
pub proof fn lemma_log_push<N>(old_log: Seq<Ans<N>>, a: Ans<N>, l: Seq<Ans<N>>)
    requires
        old_log.push(a).is_prefix_of(l),
    ensures
        old_log.is_prefix_of(l),
        ans_at(l, old_log.len()) == a,
{
    assert(old_log.push(a)[old_log.len() as int] == a);
    assert(l.subrange(0, old_log.len() as int) =~= old_log.push(a).subrange(0, old_log.len() as int));
    assert(old_log.push(a).subrange(0, old_log.len() as int) =~= old_log);
}

/// Prefixes of prefixes are prefixes.
pub proof fn lemma_prefix_trans<A>(a: Seq<A>, b: Seq<A>, c: Seq<A>)
    requires
        a.is_prefix_of(b),
        b.is_prefix_of(c),
    ensures
        a.is_prefix_of(c),
{
    assert(c.subrange(0, a.len() as int) =~= c.subrange(0, b.len() as int).subrange(0, a.len() as int));
}

/// The model of the outcome of an evaluation step.
pub open spec fn res_view<N>(r: Result<Value<N>, Error>) -> Result<Val<N>, ErrV> {
    match r {
        Ok(v) => Ok(v@),
        Err(e) => Err(e@),
    }
}

/// The size of a value, counting its pairs.
pub open spec fn val_size<N>(v: Val<N>) -> nat
    decreases v,
{
    match v {
        Val::Cons(h, t) => 1 + val_size(*h) + val_size(*t),
        _ => 0,
    }
}

/// The elements of a list: the heads of its chain of pairs.
pub open spec fn list_items<N>(v: Val<N>) -> Seq<Val<N>>
    decreases v,
{
    match v {
        Val::Cons(h, t) => seq![*h] + list_items(*t),
        _ => seq![],
    }
}

/// The list whose elements are `s`, ending in `end`.
pub open spec fn from_seq<N>(s: Seq<Val<N>>, end: Val<N>) -> Val<N>
    decreases s.len(),
{
    if s.len() == 0 {
        end
    } else {
        Val::Cons(Box::new(s[0]), Box::new(from_seq(s.drop_first(), end)))
    }
}

/// The number of elements of a list, saturated at the largest `usize`.
pub open spec fn list_count<N>(v: Val<N>) -> usize {
    let n = list_items(v).len();
    if n > usize::MAX {
        usize::MAX
    } else {
        n as usize
    }
}

/// Appending the elements of `a` to the list `b`: `a` must be `nil` or a pair.
pub open spec fn splice_spec<N>(a: Val<N>, b: Val<N>) -> Result<Val<N>, ErrV> {
    match a {
        Val::Nil => Ok(b),
        Val::Cons(_, _) => Ok(from_seq(list_items(a), b)),
        _ => Err(eval_err(EvalError::NotAList)),
    }
}

/// Whether a value is true, reading at position `k` the answer to whether a
/// number is zero: `nil`, `NoPrint`, `#f`, zero, the byte 0 and the empty
/// string are false, every other value is true. Gives the next position too.
pub open spec fn truthy_at<N>(l: Seq<Ans<N>>, k: nat, v: Val<N>) -> (nat, bool) {
    match v {
        Val::Num(n) => (k + 1, !zero_ans(l, k, n)),
        Val::NoPrint => (k, false),
        Val::Nil => (k, false),
        Val::Bool(b) => (k, b),
        Val::Char(c) => (k, c != 0),
        Val::Str(s) => (k, s.len() != 0),
        _ => (k, true),
    }
}

impl<N: Number> Value<N> {
    /// Whether this value is true (see `truthy_at`).
    pub fn truthy(&self, log: &mut NumLog<N>) -> (b: bool)
        ensures
            old(log).entries().is_prefix_of(final(log).entries()),
            forall|l: Seq<Ans<N>>|
                final(log).entries().is_prefix_of(l) ==> truthy_at(l, old(log).entries().len(), self@)
                    == (final(log).entries().len(), b),
    {
        match self {
            Value::Num(n) => {
                let ghost before = log.entries();
                let z = log.is_zero(n);
                proof {
                    assert forall|l: Seq<Ans<N>>| log.entries().is_prefix_of(l) implies truthy_at(
                        l,
                        before.len(),
                        self@,
                    ) == (log.entries().len(), !z) by {
                        lemma_log_push(before, Ans::IsZero(*n, z), l);
                    }
                    assert(before.is_prefix_of(log.entries()));
                }
                !z
            },
            Value::NoPrint => false,
            Value::Nil => false,
            Value::Bool(b) => *b,
            Value::Char(c) => *c != 0,
            Value::Str(s) => !s.as_str().is_empty(),
            _ => true,
        }
    }
}

pub proof fn lemma_items_from_seq<N>(s: Seq<Val<N>>, end: Val<N>)
    ensures
        !(end is Cons) ==> list_items(from_seq(s, end)) == s,
        from_seq(s, end) is Cons <==> (s.len() > 0 || end is Cons),
    decreases s.len(),
{
    if s.len() > 0 {
        lemma_items_from_seq(s.drop_first(), end);
        assert(seq![s[0]] + s.drop_first() =~= s);
    }
}

impl<N: Number> Clone for Value<N> {
    fn clone(&self) -> (r: Self)
        ensures
            r@ == self@,
    {
        clone_value(self)
    }
}

/// A copy of a value.
pub fn clone_value<N: Number>(v: &Value<N>) -> (r: Value<N>)
    ensures
        r@ == v@,
    decreases v,
{
    match v {
        Value::NoPrint => Value::NoPrint,
        Value::Nil => Value::Nil,
        Value::Bool(b) => Value::Bool(*b),
        Value::Char(c) => Value::Char(*c),
        Value::Num(n) => Value::Num(*n),
        Value::Symbol(s) => Value::Symbol(s.clone()),
        Value::Form(f) => Value::Form(*f),
        Value::Str(s) => Value::Str(s.clone()),
        Value::Cons(h, t) => Value::Cons(
            Box::new(clone_value(&**h)),
            Box::new(clone_value(&**t)),
        ),
        Value::Builtin(p, name) => Value::Builtin(*p, name.clone()),
        Value::Macro { name, args, body } => {
            let a = args.clone();
            assert(a@ =~= args@);
            Value::Macro { name: name.clone(), args: a, body: Box::new(clone_value(&**body)) }
        },
        Value::Func { name, args, body, env } => {
            let a = args.clone();
            assert(a@ =~= args@);
            Value::Func {
                name: name.clone(),
                args: a,
                body: Box::new(clone_value(&**body)),
                env: *env,
            }
        },
        Value::Lambda { args, body, env } => {
            let a = args.clone();
            assert(a@ =~= args@);
            Value::Lambda { args: a, body: Box::new(clone_value(&**body)), env: *env }
        },
    }
}

/// The models of a sequence of values.
pub open spec fn values_view<N>(s: Seq<Value<N>>) -> Seq<Val<N>> {
    s.map_values(|v: Value<N>| v@)
}

/// The list whose elements are `list`, ending in `end`.
pub fn prepend_all<N: Number>(list: Vec<Value<N>>, end: Value<N>) -> (r: Value<N>)
    ensures
        r@ == from_seq(values_view(list@), end@),
{
    let mut list = list;
    let mut rv = end;
    let ghost all = values_view(list@);
    let ghost e = end@;
    while list.len() > 0
        invariant
            values_view(list@) == all.subrange(0, list@.len() as int),
            rv@ == from_seq(all.subrange(list@.len() as int, all.len() as int), e),
            all.len() == values_view(list@).len() + all.subrange(list@.len() as int, all.len() as int).len(),
        decreases list.len(),
    {
        let ghost n = list@.len() as int;
        let ghost old_list = list@;
        let val = list.pop().unwrap();
        let ghost rest = all.subrange(n, all.len() as int);
        assert(all.subrange(n - 1, all.len() as int).drop_first() =~= rest);
        assert(values_view(old_list)[n - 1] == old_list[n - 1]@);
        assert(all.subrange(n - 1, all.len() as int)[0] == val@);
        rv = Value::Cons(Box::new(val), Box::new(rv));
        assert(values_view(list@) =~= all.subrange(0, list@.len() as int)) by {
            assert(list@ =~= old_list.drop_last());
        }
    }
    assert(all.subrange(0, all.len() as int) =~= all);
    rv
}

/// Copies of the elements of a list.
pub fn list_to_vec<N: Number>(v: &Value<N>) -> (r: Vec<Value<N>>)
    ensures
        values_view(r@) == list_items(v@),
{
    let mut out: Vec<Value<N>> = Vec::new();
    let mut cur: &Value<N> = v;
    loop
        invariant
            values_view(out@) + list_items(cur@) == list_items(v@),
        decreases val_size(cur@),
    {
        match cur {
            Value::Cons(h, t) => {
                let ghost before = out@;
                out.push(clone_value(&**h));
                assert(values_view(out@) =~= values_view(before) + seq![h@]);
                assert(values_view(out@) + list_items(t@) =~= values_view(before) + list_items(cur@));
                cur = &**t;
            },
            _ => {
                assert(values_view(out@) =~= list_items(v@));
                return out;
            },
        }
    }
}

impl<N: Number> Value<N> {
    /// The list whose elements are `list`, ending in `nil`.
    pub fn to_cons_list(list: Vec<Value<N>>) -> (r: Value<N>)
        ensures
            r@ == from_seq(values_view(list@), Val::Nil),
    {
        prepend_all(list, Value::Nil)
    }

    /// The elements of this list followed by the list `other`; this value must
    /// be `nil` or a pair.
    pub fn splice(&self, other: Value<N>) -> (r: Result<Value<N>, Error>)
        ensures
            match r {
                Ok(v) => splice_spec(self@, other@) == Ok::<_, ErrV>(v@),
                Err(e) => splice_spec(self@, other@) == Err::<Val<N>, _>(e@),
            },
    {
        match self {
            Value::Nil => Ok(other),
            Value::Cons(_, _) => {
                let items = list_to_vec(self);
                Ok(prepend_all(items, other))
            },
            _ => Err(Error::Eval(EvalError::NotAList)),
        }
    }
}


/// The elements of a list built from `s` and ending in the list `end` are
/// `s` followed by the elements of `end`.
pub proof fn lemma_items_from_seq_end<N>(s: Seq<Val<N>>, end: Val<N>)
    ensures
        list_items(from_seq(s, end)) == s + list_items(end),
    decreases s.len(),
{
    if s.len() > 0 {
        lemma_items_from_seq_end(s.drop_first(), end);
        assert(seq![s[0]] + (s.drop_first() + list_items(end)) =~= s + list_items(end));
    } else {
        assert(s + list_items(end) =~= list_items(end));
    }
}

/// Law: splicing a list `a` in front of `b` gives a list whose elements are
/// those of `a` followed by those of `b`; it fails exactly when `a` is
/// neither `nil` nor a pair.
pub proof fn law_splice_items<N>(a: Val<N>, b: Val<N>)
    ensures
        splice_spec(a, b) is Err <==> !(a is Nil || a is Cons),
        splice_spec(a, b) matches Ok(v) ==> list_items(v) == list_items(a) + list_items(b),
{
    if a is Cons {
        lemma_items_from_seq_end(list_items(a), b);
    }
    if a is Nil {
        assert(list_items(a) + list_items(b) =~= list_items(b));
    }
}

/// A marker for anonymous procedures.
#[derive(Clone, Copy, PartialEq, Eq, Structural)]
pub struct Lambda {}


/// A walk along the pairs of a list: each step gives the head of the
/// current pair and moves to its tail.
pub struct ConsIter<'a, N> {
    pub current: Option<&'a Value<N>>,
}

/// The model of the position of a walk.
pub open spec fn iter_view<N>(c: Option<&Value<N>>) -> Option<Val<N>> {
    match c {
        Some(v) => Some(v@),
        None => None,
    }
}

impl<'a, N: Number> ConsIter<'a, N> {
    /// A walk from the start of `current`.
    pub fn new(current: &'a Value<N>) -> (r: Self)
        ensures
            iter_view(r.current) == Some(current@),
    {
        ConsIter { current: Some(current) }
    }

    /// The head of the current pair, moving to its tail; `None`, without
    /// moving, when the walk is not at a pair.
    pub fn next(&mut self) -> (r: Option<&'a Value<N>>)
        ensures
            match iter_view(old(self).current) {
                Some(Val::Cons(h, t)) => iter_view(final(self).current) == Some(*t) && (match r {
                    Some(v) => v@ == *h,
                    None => false,
                }),
                _ => r is None && iter_view(final(self).current) == iter_view(old(self).current),
            },
    {
        match self.current {
            Some(Value::Cons(h, t)) => {
                let tail: &'a Value<N> = &**t;
                self.current = Some(tail);
                Some(&**h)
            },
            _ => None,
        }
    }

    /// What is left of the walk, as a value (`nil` once it was taken); the
    /// walk ends.
    pub fn into_cons_list(&mut self) -> (r: Value<N>)
        ensures
            iter_view(final(self).current) is None,
            r@ == match iter_view(old(self).current) {
                Some(v) => v,
                None => Val::Nil,
            },
    {
        match self.current {
            Some(v) => {
                self.current = None;
                clone_value(v)
            },
            None => Value::Nil,
        }
    }

    /// Whether the walk is at no pair.
    pub fn is_empty(&self) -> (b: bool)
        ensures
            b == !(iter_view(self.current) matches Some(Val::Cons(_, _))),
    {
        match self.current {
            Some(Value::Cons(_, _)) => false,
            _ => true,
        }
    }
}

impl<N: Number> Value<N> {
    /// A walk along the pairs of this value.
    pub fn to_cons_iter(&self) -> (r: ConsIter<'_, N>)
        ensures
            iter_view(r.current) == Some(self@),
    {
        ConsIter::new(self)
    }
}

} // verus!
