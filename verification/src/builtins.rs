//! The built-in procedures. Each takes the values of its arguments.
use vstd::prelude::*;

use vstd::utf8::{decode_utf8, is_ascii_chars, is_ascii_chars_encode_utf8, is_ascii_chars_nat_bound, valid_utf8};

use crate::env::{Env, EnvV};
use crate::errors::{BuiltinError, ErrV, Error, EvalError, builtin_err, eval_err};
use crate::lexer::{is_space, is_whitespace};
use crate::render::{byte_char, render, render_all, render_at, render_list};
use crate::text::{chars_of, push_char, push_str, string_from, string_of};
use crate::value::{
    Ans, NumLog, Number, Op, Prim, Val, Value, arith_ans, byte_ans, clone_value, count_ans, from_seq,
    index_ans, lemma_items_from_seq, lemma_log_push, lemma_prefix_trans, less_ans, list_items,
    list_to_vec, parsed_ans, prepend_all, res_view, same_ans, splice_spec, truthy_at, unit_ans,
    values_view, zero_ans,
};

verus! {

/// The outcome of a built-in procedure that may put questions to the number
/// domain: the next position in the answer log, and the result.
pub type Outcome<N> = (nat, Result<Val<N>, ErrV>);

/// An error of a built-in procedure, at position `k`.
pub open spec fn fail<N>(k: nat, e: BuiltinError) -> Outcome<N> {
    (k, Err(builtin_err(e)))
}

/// Folds the numbers `items[i..]` into `acc` with `op`, reading the answers
/// from position `k` on. A `nil` argument ends the fold; any other argument
/// that is not a number is an error.
pub open spec fn fold_spec<N>(
    l: Seq<Ans<N>>,
    k: nat,
    op: Op,
    acc: N,
    items: Seq<Val<N>>,
    i: nat,
) -> Outcome<N>
    decreases items.len() - i,
{
    if i >= items.len() {
        (k, Ok(Val::Num(acc)))
    } else {
        match items[i as int] {
            Val::Num(x) => fold_spec(l, k + 1, op, arith_ans(l, k, op, acc, x), items, i + 1),
            Val::Nil => (k, Ok(Val::Num(acc))),
            _ => fail(k, BuiltinError::ExpectedNumArg),
        }
    }
}

/// `+`: the sum of the arguments, from zero.
pub open spec fn add_spec<N>(l: Seq<Ans<N>>, k: nat, items: Seq<Val<N>>) -> Outcome<N> {
    fold_spec(l, k + 1, Op::Plus, unit_ans(l, k, false), items, 0)
}

/// `*`: the product of the arguments, from one.
pub open spec fn mul_spec<N>(l: Seq<Ans<N>>, k: nat, items: Seq<Val<N>>) -> Outcome<N> {
    fold_spec(l, k + 1, Op::Times, unit_ans(l, k, true), items, 0)
}

/// A fold that starts from the first argument, which must be a number.
pub open spec fn first_fold<N>(
    l: Seq<Ans<N>>,
    k: nat,
    op: Op,
    items: Seq<Val<N>>,
    no_init: BuiltinError,
) -> Outcome<N> {
    if items.len() == 0 {
        fail(k, no_init)
    } else {
        match items[0] {
            Val::Num(x) => fold_spec(l, k, op, x, items, 1),
            Val::Nil => fail(k, no_init),
            _ => fail(k, BuiltinError::ExpectedNumArg),
        }
    }
}

/// `-`: the first argument minus the others.
pub open spec fn min_spec<N>(l: Seq<Ans<N>>, k: nat, items: Seq<Val<N>>) -> Outcome<N> {
    first_fold(l, k, Op::Minus, items, BuiltinError::NoInitforMinus)
}

/// `/`: the first argument divided by the others.
pub open spec fn div_spec<N>(l: Seq<Ans<N>>, k: nat, items: Seq<Val<N>>) -> Outcome<N> {
    first_fold(l, k, Op::Divided, items, BuiltinError::NoInitforDiv)
}

/// `intdiv`: the first argument divided by the others, each time euclidean.
pub open spec fn intdiv_spec<N>(l: Seq<Ans<N>>, k: nat, items: Seq<Val<N>>) -> Outcome<N> {
    first_fold(l, k, Op::DivEuclid, items, BuiltinError::NoInitforDiv)
}

proof fn lemma_fold_shift<N>(
    l: Seq<Ans<N>>,
    k: nat,
    op: Op,
    acc: N,
    s1: Seq<Val<N>>,
    i: nat,
    s2: Seq<Val<N>>,
    j: nat,
)
    requires
        i <= s1.len(),
        j <= s2.len(),
        s1.len() - i == s2.len() - j,
        forall|m: int| i <= m < s1.len() ==> #[trigger] s1[m] == s2[m - i + j],
    ensures
        fold_spec(l, k, op, acc, s1, i) == fold_spec(l, k, op, acc, s2, j),
    decreases s1.len() - i,
{
    if i < s1.len() {
        assert(s1[i as int] == s2[j as int]);
        match s1[i as int] {
            Val::Num(x) => {
                lemma_fold_shift(l, k + 1, op, arith_ans(l, k, op, acc, x), s1, i + 1, s2, j + 1);
            },
            _ => {},
        }
    }
}

/// Law: `/` of one number is that number, asking nothing of the number
/// domain.
pub proof fn law_div_single<N>(l: Seq<Ans<N>>, k: nat, a: N)
    ensures
        div_spec(l, k, seq![Val::Num(a)]) == (k, Ok::<Val<N>, ErrV>(Val::Num(a))),
{
}

/// Law: `(/ a b rest...)` is `(/ q rest...)` where `q` is the number
/// domain's answer to `a` divided by `b` (its `divided` operation, not the
/// euclidean quotient), asked first: each further argument divides the
/// quotient so far.
pub proof fn law_div_step<N>(l: Seq<Ans<N>>, k: nat, a: N, b: N, rest: Seq<Val<N>>)
    ensures
        div_spec(l, k, seq![Val::Num(a), Val::Num(b)] + rest) == div_spec(
            l,
            k + 1,
            seq![Val::Num(arith_ans(l, k, Op::Divided, a, b))] + rest,
        ),
{
    let s1 = seq![Val::Num(a), Val::Num(b)] + rest;
    let q = arith_ans(l, k, Op::Divided, a, b);
    let s2 = seq![Val::Num(q)] + rest;
    assert(s1[0] == Val::<N>::Num(a));
    assert(s1[1] == Val::<N>::Num(b));
    assert(s2[0] == Val::<N>::Num(q));
    assert forall|m: int| 2 <= m < s1.len() implies #[trigger] s1[m] == s2[m - 2 + 1] by {
        assert(s1[m] == rest[m - 2]);
        assert(s2[m - 1] == rest[m - 2]);
    }
    lemma_fold_shift(l, k + 1, Op::Divided, q, s1, 2, s2, 1);
}

/// Compares each number of `items[i..]` with the one before it (`prev`); a
/// `nil` argument ends the comparison.
pub open spec fn lt_from<N>(
    l: Seq<Ans<N>>,
    k: nat,
    prev: N,
    items: Seq<Val<N>>,
    i: nat,
    pass: bool,
) -> Outcome<N>
    decreases items.len() - i,
{
    if i >= items.len() {
        (k, Ok(Val::Bool(pass)))
    } else {
        match items[i as int] {
            Val::Num(x) => lt_from(l, k + 1, x, items, i + 1, pass && less_ans(l, k, prev, x)),
            Val::Nil => (k, Ok(Val::Bool(pass))),
            _ => fail(k, BuiltinError::ExpectedNumArg),
        }
    }
}

/// `<`: whether the numbers strictly increase (a single number does). An
/// empty argument list is refused, and so is a first argument that is not a
/// number; a later `nil` ends the chain.
pub open spec fn lt_spec<N>(l: Seq<Ans<N>>, k: nat, items: Seq<Val<N>>) -> Outcome<N> {
    if items.len() == 0 {
        fail(k, BuiltinError::BadLtArgTypes)
    } else {
        match items[0] {
            Val::Num(x) => lt_from(l, k, x, items, 1, true),
            _ => fail(k, BuiltinError::ExpectedNumArg),
        }
    }
}

/// Whether the answers from position `k` on say that each number of `nums`
/// from index `from` on is less than the next: the answer at `k + j` is the
/// one for `nums[j] < nums[j + 1]`.
pub open spec fn chain_less<N>(l: Seq<Ans<N>>, k: nat, nums: Seq<N>, from: int) -> bool {
    forall|j: int| from <= j < nums.len() - 1 ==> #[trigger] less_ans(l, (k + j) as nat, nums[j], nums[j + 1])
}

/// The numbers as argument values.
pub open spec fn num_args<N>(nums: Seq<N>) -> Seq<Val<N>> {
    nums.map_values(|x: N| Val::<N>::Num(x))
}

proof fn lemma_lt_chain<N>(l: Seq<Ans<N>>, k: nat, nums: Seq<N>, i: nat, pass: bool)
    requires
        1 <= i <= nums.len(),
    ensures
        lt_from(l, (k + i - 1) as nat, nums[i - 1], num_args(nums), i, pass) == (
            (k + nums.len() - 1) as nat,
            Ok::<Val<N>, ErrV>(Val::Bool(pass && chain_less(l, k, nums, i - 1))),
        ),
    decreases nums.len() - i,
{
    let items = num_args(nums);
    if i < nums.len() {
        assert(items[i as int] == Val::<N>::Num(nums[i as int]));
        let c = less_ans(l, (k + i - 1) as nat, nums[i - 1], nums[i as int]);
        lemma_lt_chain(l, k, nums, i + 1, pass && c);
        assert((pass && c && chain_less(l, k, nums, i as int)) == (pass && chain_less(
            l,
            k,
            nums,
            i - 1,
        ))) by {
            if chain_less(l, k, nums, i - 1) {
                assert(less_ans(l, (k + (i - 1)) as nat, nums[i - 1], nums[(i - 1) + 1]));
            }
        }
    }
}

/// Law: for numbers `a0, a1, ..., an`, `(< a0 a1 ... an)` is true exactly
/// when the number domain answers `a(j) < a(j+1)` for every adjacent pair,
/// each question asked once and in order; a single number gives true. So
/// `(< a a)` is false whenever the domain says that `a` is not less than `a`.
pub proof fn law_lt_chain<N>(l: Seq<Ans<N>>, k: nat, nums: Seq<N>)
    requires
        nums.len() >= 1,
    ensures
        lt_spec(l, k, num_args(nums)) == (
            (k + nums.len() - 1) as nat,
            Ok::<Val<N>, ErrV>(Val::Bool(chain_less(l, k, nums, 0))),
        ),
        nums.len() == 2 ==> lt_spec(l, k, num_args(nums)) == (
            k + 1,
            Ok::<Val<N>, ErrV>(Val::Bool(less_ans(l, k, nums[0], nums[1]))),
        ),
{
    let items = num_args(nums);
    assert(items[0] == Val::<N>::Num(nums[0]));
    lemma_lt_chain(l, k, nums, 1, true);
    if nums.len() == 2 {
        if chain_less(l, k, nums, 0) {
            assert(less_ans(l, (k + 0int) as nat, nums[0int], nums[0int + 1]));
        }
    }
}

proof fn lemma_fold_push<N>(l: Seq<Ans<N>>, k: nat, op: Op, acc: N, items: Seq<Val<N>>, i: nat, x: N)
    requires
        i <= items.len(),
        forall|m: int| i <= m < items.len() ==> #[trigger] items[m] is Num,
    ensures
        match fold_spec(l, k, op, acc, items, i) {
            (k2, Ok(Val::Num(s))) => fold_spec(l, k, op, acc, items.push(Val::Num(x)), i) == (
                k2 + 1,
                Ok::<Val<N>, ErrV>(Val::Num(arith_ans(l, k2, op, s, x))),
            ),
            _ => false,
        },
    decreases items.len() - i,
{
    let p = items.push(Val::Num(x));
    assert(p[items.len() as int] == Val::<N>::Num(x));
    reveal_with_fuel(fold_spec, 2);
    if i < items.len() {
        assert(items[i as int] is Num);
        assert(p[i as int] == items[i as int]);
        if let Val::Num(y) = items[i as int] {
            lemma_fold_push(l, k + 1, op, arith_ans(l, k, op, acc, y), items, i + 1, x);
            assert(fold_spec(l, k, op, acc, items, i) == fold_spec(
                l,
                k + 1,
                op,
                arith_ans(l, k, op, acc, y),
                items,
                i + 1,
            ));
            assert(fold_spec(l, k, op, acc, p, i) == fold_spec(
                l,
                k + 1,
                op,
                arith_ans(l, k, op, acc, y),
                p,
                i + 1,
            ));
        }
    }
}

proof fn lemma_num_args_push<N>(nums: Seq<N>, x: N)
    ensures
        num_args(nums.push(x)) == num_args(nums).push(Val::Num(x)),
        forall|m: int| 0 <= m < nums.len() ==> #[trigger] num_args(nums)[m] == Val::<N>::Num(nums[m]),
{
    assert(num_args(nums.push(x)) =~= num_args(nums).push(Val::Num(x)));
}

/// Law: `+` of no argument is the additive unit that the number domain gives.
pub proof fn law_add_empty<N>(l: Seq<Ans<N>>, k: nat)
    ensures
        add_spec(l, k, seq![]) == (k + 1, Ok::<Val<N>, ErrV>(Val::Num(unit_ans(l, k, false)))),
{
}

/// Law: one more number `x` adds `x` to the sum: the number domain is asked
/// for the sum so far plus `x`, once, after the questions for the others.
pub proof fn law_add_push<N>(l: Seq<Ans<N>>, k: nat, nums: Seq<N>, x: N)
    ensures
        match add_spec(l, k, num_args(nums)) {
            (k2, Ok(Val::Num(s))) => add_spec(l, k, num_args(nums.push(x))) == (
                k2 + 1,
                Ok::<Val<N>, ErrV>(Val::Num(arith_ans(l, k2, Op::Plus, s, x))),
            ),
            _ => false,
        },
{
    lemma_num_args_push(nums, x);
    lemma_fold_push(l, k + 1, Op::Plus, unit_ans(l, k, false), num_args(nums), 0, x);
}

/// Law: `*` of no argument is the multiplicative unit that the number
/// domain gives.
pub proof fn law_mul_empty<N>(l: Seq<Ans<N>>, k: nat)
    ensures
        mul_spec(l, k, seq![]) == (k + 1, Ok::<Val<N>, ErrV>(Val::Num(unit_ans(l, k, true)))),
{
}

/// Law: one more number `x` multiplies the product by `x`.
pub proof fn law_mul_push<N>(l: Seq<Ans<N>>, k: nat, nums: Seq<N>, x: N)
    ensures
        match mul_spec(l, k, num_args(nums)) {
            (k2, Ok(Val::Num(s))) => mul_spec(l, k, num_args(nums.push(x))) == (
                k2 + 1,
                Ok::<Val<N>, ErrV>(Val::Num(arith_ans(l, k2, Op::Times, s, x))),
            ),
            _ => false,
        },
{
    lemma_num_args_push(nums, x);
    lemma_fold_push(l, k + 1, Op::Times, unit_ans(l, k, true), num_args(nums), 0, x);
}

proof fn lemma_first_fold_push<N>(l: Seq<Ans<N>>, k: nat, op: Op, nums: Seq<N>, x: N, e: BuiltinError)
    requires
        nums.len() >= 1,
    ensures
        match first_fold(l, k, op, num_args(nums), e) {
            (k2, Ok(Val::Num(s))) => first_fold(l, k, op, num_args(nums.push(x)), e) == (
                k2 + 1,
                Ok::<Val<N>, ErrV>(Val::Num(arith_ans(l, k2, op, s, x))),
            ),
            _ => false,
        },
{
    lemma_num_args_push(nums, x);
    lemma_num_args_push(nums.push(x), x);
    assert(num_args(nums)[0] == Val::<N>::Num(nums[0]));
    assert(num_args(nums.push(x))[0] == Val::<N>::Num(nums[0]));
    lemma_fold_push(l, k, op, nums[0], num_args(nums), 1, x);
}

/// Law: `-` of one number is that number; each further number `x` is
/// subtracted from the result so far.
pub proof fn law_sub_push<N>(l: Seq<Ans<N>>, k: nat, nums: Seq<N>, x: N)
    requires
        nums.len() >= 1,
    ensures
        min_spec(l, k, seq![Val::Num(x)]) == (k, Ok::<Val<N>, ErrV>(Val::Num(x))),
        match min_spec(l, k, num_args(nums)) {
            (k2, Ok(Val::Num(s))) => min_spec(l, k, num_args(nums.push(x))) == (
                k2 + 1,
                Ok::<Val<N>, ErrV>(Val::Num(arith_ans(l, k2, Op::Minus, s, x))),
            ),
            _ => false,
        },
{
    lemma_first_fold_push(l, k, Op::Minus, nums, x, BuiltinError::NoInitforMinus);
}

/// Law: each further number `x` divides the result of `/` so far, by the
/// number domain's `divided` (not its euclidean quotient).
pub proof fn law_div_push<N>(l: Seq<Ans<N>>, k: nat, nums: Seq<N>, x: N)
    requires
        nums.len() >= 1,
    ensures
        match div_spec(l, k, num_args(nums)) {
            (k2, Ok(Val::Num(s))) => div_spec(l, k, num_args(nums.push(x))) == (
                k2 + 1,
                Ok::<Val<N>, ErrV>(Val::Num(arith_ans(l, k2, Op::Divided, s, x))),
            ),
            _ => false,
        },
{
    lemma_first_fold_push(l, k, Op::Divided, nums, x, BuiltinError::NoInitforDiv);
}

/// Law: `intdiv` of one number is that number; each further number `x`
/// divides the result so far by the number domain's euclidean quotient.
pub proof fn law_intdiv_push<N>(l: Seq<Ans<N>>, k: nat, nums: Seq<N>, x: N)
    requires
        nums.len() >= 1,
    ensures
        intdiv_spec(l, k, seq![Val::Num(x)]) == (k, Ok::<Val<N>, ErrV>(Val::Num(x))),
        match intdiv_spec(l, k, num_args(nums)) {
            (k2, Ok(Val::Num(s))) => intdiv_spec(l, k, num_args(nums.push(x))) == (
                k2 + 1,
                Ok::<Val<N>, ErrV>(Val::Num(arith_ans(l, k2, Op::DivEuclid, s, x))),
            ),
            _ => false,
        },
{
    lemma_first_fold_push(l, k, Op::DivEuclid, nums, x, BuiltinError::NoInitforDiv);
}

/// Law: `(mod a b)` is the number domain's remainder of `a` by `b`, asked
/// once.
pub proof fn law_mod_numbers<N>(l: Seq<Ans<N>>, k: nat, a: N, b: N)
    ensures
        mod_spec(l, k, seq![Val::Num(a), Val::Num(b)]) == (
            k + 1,
            Ok::<Val<N>, ErrV>(Val::Num(arith_ans(l, k, Op::Remainder, a, b))),
        ),
{
}

/// Law: `eq` of two numbers is the number domain's answer to whether they
/// are equal; of two strings or symbols, whether their texts are equal; of
/// two bytes, whether they are the same byte; `nil` equals only `nil`.
pub proof fn law_eq<N>(l: Seq<Ans<N>>, k: nat, a: N, b: N, s: Seq<char>, t: Seq<char>, c: u8, d: u8, v: Val<N>)
    ensures
        eq_spec(l, k, seq![Val::Num(a), Val::Num(b)]) == (
            k + 1,
            Ok::<Val<N>, ErrV>(Val::Bool(same_ans(l, k, b, a))),
        ),
        eq_spec(l, k, seq![Val::Str(s), Val::Str(t)]) == (k, Ok::<Val<N>, ErrV>(Val::Bool(s == t))),
        eq_spec(l, k, seq![Val::Symbol(s), Val::Str(t)]) == (k, Ok::<Val<N>, ErrV>(Val::Bool(s == t))),
        eq_spec(l, k, seq![Val::<N>::Char(c), Val::Char(d)]) == (k, Ok::<Val<N>, ErrV>(Val::Bool(c == d))),
        eq_spec(l, k, seq![Val::<N>::Nil, Val::Nil]) == (k, Ok::<Val<N>, ErrV>(Val::Bool(true))),
        !(v is Nil) && !(v is Num) ==> eq_spec(l, k, seq![v, Val::Nil]) == (
            k,
            Ok::<Val<N>, ErrV>(Val::Bool(false)),
        ),
{
}

/// Law: `not` of a boolean is its negation, `not` of `nil` is true, and
/// `not` of a number is the number domain's answer to whether it is zero.
pub proof fn law_not<N>(l: Seq<Ans<N>>, k: nat, b: bool, n: N)
    ensures
        not_spec(l, k, seq![Val::Bool(b)]) == (k, Ok::<Val<N>, ErrV>(Val::Bool(!b))),
        not_spec(l, k, seq![Val::<N>::Nil]) == (k, Ok::<Val<N>, ErrV>(Val::Bool(true))),
        not_spec(l, k, seq![Val::Num(n)]) == (k + 1, Ok::<Val<N>, ErrV>(Val::Bool(zero_ans(l, k, n)))),
{
}

/// The booleans as argument values.
pub open spec fn bool_args<N>(bs: Seq<bool>) -> Seq<Val<N>> {
    bs.map_values(|b: bool| Val::<N>::Bool(b))
}

proof fn lemma_truth_bools<N>(l: Seq<Ans<N>>, k: nat, bs: Seq<bool>, i: nat, all: bool, acc: bool)
    requires
        i <= bs.len(),
    ensures
        truth_from(l, k, bool_args::<N>(bs), i, all, acc) == (k, if all {
            acc && forall|j: int| i <= j < bs.len() ==> #[trigger] bs[j]
        } else {
            acc || exists|j: int| i <= j < bs.len() && #[trigger] bs[j]
        }),
    decreases bs.len() - i,
{
    if i < bs.len() {
        let items = bool_args::<N>(bs);
        assert(items[i as int] == Val::<N>::Bool(bs[i as int]));
        let b = bs[i as int];
        lemma_truth_bools(l, k, bs, i + 1, all, if all { acc && b } else { acc || b });
        if all {
            assert((acc && b && forall|j: int| i + 1 <= j < bs.len() ==> #[trigger] bs[j]) == (acc
                && forall|j: int| i <= j < bs.len() ==> #[trigger] bs[j]));
        } else {
            if acc || exists|j: int| i <= j < bs.len() && #[trigger] bs[j] {
                if !acc && !b {
                    let j = choose|j: int| i <= j < bs.len() && #[trigger] bs[j];
                    assert(i + 1 <= j);
                }
            }
        }
    }
}

/// Law: on booleans, `and` is true exactly when every argument is true (so
/// with no argument), and `or` exactly when some argument is true.
pub proof fn law_and_or_bools<N>(l: Seq<Ans<N>>, k: nat, bs: Seq<bool>)
    ensures
        truth_spec(l, k, bool_args::<N>(bs), true) == (
            k,
            Ok::<Val<N>, ErrV>(Val::Bool(forall|j: int| 0 <= j < bs.len() ==> #[trigger] bs[j])),
        ),
        truth_spec(l, k, bool_args::<N>(bs), false) == (
            k,
            Ok::<Val<N>, ErrV>(Val::Bool(exists|j: int| 0 <= j < bs.len() && #[trigger] bs[j])),
        ),
{
    lemma_truth_bools::<N>(l, k, bs, 0, true, true);
    lemma_truth_bools::<N>(l, k, bs, 0, false, false);
}

/// `mod`: the remainder of the first number by the second.
pub open spec fn mod_spec<N>(l: Seq<Ans<N>>, k: nat, items: Seq<Val<N>>) -> Outcome<N> {
    if items.len() < 2 {
        fail(k, BuiltinError::NoArgList)
    } else if items.len() > 2 {
        fail(k, BuiltinError::BadModArgCount)
    } else {
        match (items[0], items[1]) {
            (Val::Num(a), Val::Num(b)) => (
                k + 1,
                Ok(Val::Num(arith_ans(l, k, Op::Remainder, a, b))),
            ),
            _ => fail(k, BuiltinError::BadModArgTypes),
        }
    }
}

/// Folds the truth of `items[i..]` with `and` (`all`) or `or`.
pub open spec fn truth_from<N>(
    l: Seq<Ans<N>>,
    k: nat,
    items: Seq<Val<N>>,
    i: nat,
    all: bool,
    acc: bool,
) -> (nat, bool)
    decreases items.len() - i,
{
    if i >= items.len() {
        (k, acc)
    } else {
        let t = truthy_at(l, k, items[i as int]);
        truth_from(l, t.0, items, i + 1, all, if all {
            acc && t.1
        } else {
            acc || t.1
        })
    }
}

/// `and`: whether every argument is true; `or`: whether one is.
pub open spec fn truth_spec<N>(l: Seq<Ans<N>>, k: nat, items: Seq<Val<N>>, all: bool) -> Outcome<N> {
    let r = truth_from(l, k, items, 0, all, all);
    (r.0, Ok(Val::Bool(r.1)))
}

/// `not`: whether its one argument is false.
pub open spec fn not_spec<N>(l: Seq<Ans<N>>, k: nat, items: Seq<Val<N>>) -> Outcome<N> {
    if items.len() != 1 {
        fail(k, BuiltinError::WrongNotArgCount(items.len() as usize))
    } else {
        let t = truthy_at(l, k, items[0]);
        (t.0, Ok(Val::Bool(!t.1)))
    }
}

/// The text of a string or a symbol.
pub open spec fn text_of<N>(v: Val<N>) -> Option<Seq<char>> {
    match v {
        Val::Str(s) => Some(s),
        Val::Symbol(s) => Some(s),
        _ => None,
    }
}

/// The bytes of a text: its UTF-8 encoding.
pub open spec fn bytes_of(s: Seq<char>) -> Seq<u8> {
    vstd::utf8::encode_utf8(s)
}

/// Whether the text is the one byte `c`.
pub open spec fn is_byte(s: Seq<char>, c: u8) -> bool {
    bytes_of(s).len() == 1 && bytes_of(s)[0] == c
}

/// Equality of two values that are not both numbers: `nil` equals only
/// `nil`, bytes compare with bytes and with one-byte texts, and strings and
/// symbols compare by their text.
pub open spec fn eq_plain<N>(a: Val<N>, b: Val<N>) -> bool {
    match (a, b) {
        (Val::Nil, Val::Nil) => true,
        (_, Val::Nil) => false,
        (Val::Nil, _) => false,
        (Val::Char(x), Val::Char(y)) => x == y,
        (Val::Char(c), _) => match text_of(b) {
            Some(s) => is_byte(s, c),
            None => false,
        },
        (_, Val::Char(c)) => match text_of(a) {
            Some(s) => is_byte(s, c),
            None => false,
        },
        _ => match (text_of(a), text_of(b)) {
            (Some(s), Some(t)) => s == t,
            _ => false,
        },
    }
}

/// `eq`: whether its two arguments are equal.
pub open spec fn eq_spec<N>(l: Seq<Ans<N>>, k: nat, items: Seq<Val<N>>) -> Outcome<N> {
    if items.len() < 2 {
        fail(k, BuiltinError::NoArgList)
    } else if items.len() > 2 {
        fail(k, BuiltinError::BadEqArgCount)
    } else {
        match (items[0], items[1]) {
            (Val::Num(x), Val::Num(y)) => (k + 1, Ok(Val::Bool(same_ans(l, k, y, x)))),
            _ => (k, Ok(Val::Bool(eq_plain(items[0], items[1])))),
        }
    }
}

/// `cons`: the pair of its two arguments.
pub open spec fn cons_spec<N>(items: Seq<Val<N>>) -> Result<Val<N>, ErrV> {
    if items.len() != 2 {
        Err(builtin_err(BuiltinError::WrongConsArgCount(items.len() as usize)))
    } else {
        Ok(Val::Cons(Box::new(items[0]), Box::new(items[1])))
    }
}

/// `car`: the head of its one argument, a pair.
pub open spec fn car_spec<N>(items: Seq<Val<N>>) -> Result<Val<N>, ErrV> {
    if items.len() != 1 {
        Err(builtin_err(BuiltinError::WrongCarArgCount(items.len() as usize)))
    } else {
        match items[0] {
            Val::Nil => Err(builtin_err(BuiltinError::CarOnEmptyList)),
            Val::Cons(h, _) => Ok(*h),
            _ => Err(builtin_err(BuiltinError::WrongCarArgType)),
        }
    }
}

/// `cdr`: the tail of its one argument, a pair.
pub open spec fn cdr_spec<N>(items: Seq<Val<N>>) -> Result<Val<N>, ErrV> {
    if items.len() != 1 {
        Err(builtin_err(BuiltinError::WrongCdrArgCount(items.len() as usize)))
    } else {
        match items[0] {
            Val::Nil => Err(builtin_err(BuiltinError::CdrOnEmptyList)),
            Val::Cons(_, t) => Ok(*t),
            _ => Err(builtin_err(BuiltinError::WrongCdrArgType)),
        }
    }
}

/// `append`: the elements of the first argument followed by the second.
pub open spec fn append_spec<N>(items: Seq<Val<N>>) -> Result<Val<N>, ErrV> {
    if items.len() < 2 {
        Err(builtin_err(BuiltinError::NeedTwoArgs))
    } else {
        splice_spec(items[0], items[1])
    }
}

/// The type predicates, by the procedure that tests them.
pub open spec fn has_kind<N>(p: crate::value::Prim, v: Val<N>) -> bool {
    match p {
        crate::value::Prim::IsNumber => v is Num,
        crate::value::Prim::IsBool => v is Bool,
        crate::value::Prim::IsSymbol => v is Symbol,
        crate::value::Prim::IsChar => v is Char,
        crate::value::Prim::IsString => v is Str,
        crate::value::Prim::IsAtom => !(v is Cons),
        crate::value::Prim::IsNull => v is Nil,
        _ => v is Cons,
    }
}

/// A type predicate applied to its one argument.
pub open spec fn pred_spec<N>(p: crate::value::Prim, items: Seq<Val<N>>) -> Result<Val<N>, ErrV> {
    if items.len() == 0 {
        Err(builtin_err(BuiltinError::NoArgList))
    } else if items.len() > 1 {
        Err(builtin_err(BuiltinError::OnlyOneArg))
    } else {
        Ok(Val::Bool(has_kind(p, items[0])))
    }
}

/// One logged answer at the end of `before`, seen from any later log.
pub proof fn lemma_step<N>(before: Seq<Ans<N>>, a: Ans<N>, mid: Seq<Ans<N>>, fin: Seq<Ans<N>>, l: Seq<Ans<N>>)
    requires
        mid == before.push(a),
        mid.is_prefix_of(fin),
        fin.is_prefix_of(l),
    ensures
        ans_at_is(l, before.len(), a),
        mid.is_prefix_of(l),
        before.is_prefix_of(l),
{
    lemma_prefix_trans(mid, fin, l);
    lemma_log_push(before, a, l);
}

/// Whether the entry at position `k` of `l` is `a`.
pub open spec fn ans_at_is<N>(l: Seq<Ans<N>>, k: nat, a: Ans<N>) -> bool {
    crate::value::ans_at(l, k) == a
}

fn fold_from<N: Number>(items: &Vec<Value<N>>, i: usize, op: Op, acc: N, log: &mut NumLog<N>) -> (r:
    Result<Value<N>, Error>)
    requires
        i <= items.len(),
    ensures
        old(log).entries().is_prefix_of(final(log).entries()),
        forall|l: Seq<Ans<N>>|
            final(log).entries().is_prefix_of(l) ==> fold_spec(
                l,
                old(log).entries().len(),
                op,
                acc,
                values_view(items@),
                i as nat,
            ) == (final(log).entries().len(), res_view(r)),
    decreases items.len() - i,
{
    let ghost before = log.entries();
    let ghost vv = values_view(items@);
    if i >= items.len() {
        return Ok(Value::Num(acc));
    }
    assert(vv[i as int] == items@[i as int]@);
    match &items[i] {
        Value::Num(x) => {
            let nacc = log.arith(op, &acc, x);
            let ghost mid = log.entries();
            let r = fold_from(items, i + 1, op, nacc, log);
            proof {
                assert forall|l: Seq<Ans<N>>| log.entries().is_prefix_of(l) implies fold_spec(
                    l,
                    before.len(),
                    op,
                    acc,
                    vv,
                    i as nat,
                ) == (log.entries().len(), res_view(r)) by {
                    lemma_step(before, Ans::Arith(op, acc, *x, nacc), mid, log.entries(), l);
                }
                lemma_prefix_trans(before, mid, log.entries());
            }
            r
        },
        Value::Nil => Ok(Value::Num(acc)),
        _ => Err(Error::Builtin(BuiltinError::ExpectedNumArg)),
    }
}

/// `+` (see `add_spec`).
pub fn add<N: Number>(args: &Vec<Value<N>>, log: &mut NumLog<N>) -> (r: Result<Value<N>, Error>)
    ensures
        old(log).entries().is_prefix_of(final(log).entries()),
        forall|l: Seq<Ans<N>>|
            final(log).entries().is_prefix_of(l) ==> add_spec(
                l,
                old(log).entries().len(),
                values_view(args@),
            ) == (final(log).entries().len(), res_view(r)),
{
    let ghost before = log.entries();
    let z = log.unit(false);
    let ghost mid = log.entries();
    let r = fold_from(args, 0, Op::Plus, z, log);
    proof {
        assert forall|l: Seq<Ans<N>>| log.entries().is_prefix_of(l) implies add_spec(
            l,
            before.len(),
            values_view(args@),
        ) == (log.entries().len(), res_view(r)) by {
            lemma_step(before, Ans::Unit(false, z), mid, log.entries(), l);
        }
        lemma_prefix_trans(before, mid, log.entries());
    }
    r
}

/// `*` (see `mul_spec`).
pub fn mul<N: Number>(args: &Vec<Value<N>>, log: &mut NumLog<N>) -> (r: Result<Value<N>, Error>)
    ensures
        old(log).entries().is_prefix_of(final(log).entries()),
        forall|l: Seq<Ans<N>>|
            final(log).entries().is_prefix_of(l) ==> mul_spec(
                l,
                old(log).entries().len(),
                values_view(args@),
            ) == (final(log).entries().len(), res_view(r)),
{
    let ghost before = log.entries();
    let one = log.unit(true);
    let ghost mid = log.entries();
    let r = fold_from(args, 0, Op::Times, one, log);
    proof {
        assert forall|l: Seq<Ans<N>>| log.entries().is_prefix_of(l) implies mul_spec(
            l,
            before.len(),
            values_view(args@),
        ) == (log.entries().len(), res_view(r)) by {
            lemma_step(before, Ans::Unit(true, one), mid, log.entries(), l);
        }
        lemma_prefix_trans(before, mid, log.entries());
    }
    r
}

fn first_fold_exec<N: Number>(
    args: &Vec<Value<N>>,
    op: Op,
    no_init: BuiltinError,
    log: &mut NumLog<N>,
) -> (r: Result<Value<N>, Error>)
    ensures
        old(log).entries().is_prefix_of(final(log).entries()),
        forall|l: Seq<Ans<N>>|
            final(log).entries().is_prefix_of(l) ==> first_fold(
                l,
                old(log).entries().len(),
                op,
                values_view(args@),
                no_init,
            ) == (final(log).entries().len(), res_view(r)),
{
    if args.len() == 0 {
        return Err(Error::Builtin(no_init));
    }
    assert(values_view(args@)[0] == args@[0]@);
    match &args[0] {
        Value::Num(x) => fold_from(args, 1, op, *x, log),
        Value::Nil => Err(Error::Builtin(no_init)),
        _ => Err(Error::Builtin(BuiltinError::ExpectedNumArg)),
    }
}

/// `-` (see `min_spec`).
pub fn min<N: Number>(args: &Vec<Value<N>>, log: &mut NumLog<N>) -> (r: Result<Value<N>, Error>)
    ensures
        old(log).entries().is_prefix_of(final(log).entries()),
        forall|l: Seq<Ans<N>>|
            final(log).entries().is_prefix_of(l) ==> min_spec(
                l,
                old(log).entries().len(),
                values_view(args@),
            ) == (final(log).entries().len(), res_view(r)),
{
    first_fold_exec(args, Op::Minus, BuiltinError::NoInitforMinus, log)
}

/// `/` (see `div_spec`).
pub fn div<N: Number>(args: &Vec<Value<N>>, log: &mut NumLog<N>) -> (r: Result<Value<N>, Error>)
    ensures
        old(log).entries().is_prefix_of(final(log).entries()),
        forall|l: Seq<Ans<N>>|
            final(log).entries().is_prefix_of(l) ==> div_spec(
                l,
                old(log).entries().len(),
                values_view(args@),
            ) == (final(log).entries().len(), res_view(r)),
{
    first_fold_exec(args, Op::Divided, BuiltinError::NoInitforDiv, log)
}

/// `intdiv` (see `intdiv_spec`).
pub fn intdiv<N: Number>(args: &Vec<Value<N>>, log: &mut NumLog<N>) -> (r: Result<Value<N>, Error>)
    ensures
        old(log).entries().is_prefix_of(final(log).entries()),
        forall|l: Seq<Ans<N>>|
            final(log).entries().is_prefix_of(l) ==> intdiv_spec(
                l,
                old(log).entries().len(),
                values_view(args@),
            ) == (final(log).entries().len(), res_view(r)),
{
    first_fold_exec(args, Op::DivEuclid, BuiltinError::NoInitforDiv, log)
}

fn lt_loop<N: Number>(items: &Vec<Value<N>>, i: usize, prev: N, pass: bool, log: &mut NumLog<N>) -> (r:
    Result<Value<N>, Error>)
    requires
        i <= items.len(),
    ensures
        old(log).entries().is_prefix_of(final(log).entries()),
        forall|l: Seq<Ans<N>>|
            final(log).entries().is_prefix_of(l) ==> lt_from(
                l,
                old(log).entries().len(),
                prev,
                values_view(items@),
                i as nat,
                pass,
            ) == (final(log).entries().len(), res_view(r)),
    decreases items.len() - i,
{
    let ghost before = log.entries();
    let ghost vv = values_view(items@);
    if i >= items.len() {
        return Ok(Value::Bool(pass));
    }
    assert(vv[i as int] == items@[i as int]@);
    match &items[i] {
        Value::Num(x) => {
            let c = log.less(&prev, x);
            let ghost mid = log.entries();
            let r = lt_loop(items, i + 1, *x, pass && c, log);
            proof {
                assert forall|l: Seq<Ans<N>>| log.entries().is_prefix_of(l) implies lt_from(
                    l,
                    before.len(),
                    prev,
                    vv,
                    i as nat,
                    pass,
                ) == (log.entries().len(), res_view(r)) by {
                    lemma_step(before, Ans::Less(prev, *x, c), mid, log.entries(), l);
                }
                lemma_prefix_trans(before, mid, log.entries());
            }
            r
        },
        Value::Nil => Ok(Value::Bool(pass)),
        _ => Err(Error::Builtin(BuiltinError::ExpectedNumArg)),
    }
}

/// `<` (see `lt_spec`).
pub fn lt<N: Number>(args: &Vec<Value<N>>, log: &mut NumLog<N>) -> (r: Result<Value<N>, Error>)
    ensures
        old(log).entries().is_prefix_of(final(log).entries()),
        forall|l: Seq<Ans<N>>|
            final(log).entries().is_prefix_of(l) ==> lt_spec(
                l,
                old(log).entries().len(),
                values_view(args@),
            ) == (final(log).entries().len(), res_view(r)),
{
    if args.len() == 0 {
        return Err(Error::Builtin(BuiltinError::BadLtArgTypes));
    }
    assert(values_view(args@)[0] == args@[0]@);
    match &args[0] {
        Value::Num(x) => lt_loop(args, 1, *x, true, log),
        _ => Err(Error::Builtin(BuiltinError::ExpectedNumArg)),
    }
}

/// `mod` (see `mod_spec`).
pub fn modulo<N: Number>(args: &Vec<Value<N>>, log: &mut NumLog<N>) -> (r: Result<Value<N>, Error>)
    ensures
        old(log).entries().is_prefix_of(final(log).entries()),
        forall|l: Seq<Ans<N>>|
            final(log).entries().is_prefix_of(l) ==> mod_spec(
                l,
                old(log).entries().len(),
                values_view(args@),
            ) == (final(log).entries().len(), res_view(r)),
{
    let ghost before = log.entries();
    if args.len() < 2 {
        return Err(Error::Builtin(BuiltinError::NoArgList));
    }
    if args.len() > 2 {
        return Err(Error::Builtin(BuiltinError::BadModArgCount));
    }
    assert(values_view(args@)[0] == args@[0]@);
    assert(values_view(args@)[1] == args@[1]@);
    match (&args[0], &args[1]) {
        (Value::Num(a), Value::Num(b)) => {
            let m = log.arith(Op::Remainder, a, b);
            proof {
                assert forall|l: Seq<Ans<N>>| log.entries().is_prefix_of(l) implies mod_spec(
                    l,
                    before.len(),
                    values_view(args@),
                ) == (log.entries().len(), res_view(Ok::<Value<N>, Error>(Value::Num(m)))) by {
                    lemma_log_push(before, Ans::Arith(Op::Remainder, *a, *b, m), l);
                }
            }
            Ok(Value::Num(m))
        },
        _ => Err(Error::Builtin(BuiltinError::BadModArgTypes)),
    }
}

fn truth_loop<N: Number>(items: &Vec<Value<N>>, i: usize, all: bool, acc: bool, log: &mut NumLog<N>) -> (r:
    bool)
    requires
        i <= items.len(),
    ensures
        old(log).entries().is_prefix_of(final(log).entries()),
        forall|l: Seq<Ans<N>>|
            final(log).entries().is_prefix_of(l) ==> truth_from(
                l,
                old(log).entries().len(),
                values_view(items@),
                i as nat,
                all,
                acc,
            ) == (final(log).entries().len(), r),
    decreases items.len() - i,
{
    let ghost before = log.entries();
    let ghost vv = values_view(items@);
    if i >= items.len() {
        return acc;
    }
    assert(vv[i as int] == items@[i as int]@);
    let t = items[i].truthy(log);
    let ghost mid = log.entries();
    let nacc = if all {
        acc && t
    } else {
        acc || t
    };
    let r = truth_loop(items, i + 1, all, nacc, log);
    proof {
        assert forall|l: Seq<Ans<N>>| log.entries().is_prefix_of(l) implies truth_from(
            l,
            before.len(),
            vv,
            i as nat,
            all,
            acc,
        ) == (log.entries().len(), r) by {
            lemma_prefix_trans(mid, log.entries(), l);
        }
        lemma_prefix_trans(before, mid, log.entries());
    }
    r
}

/// `and` (see `truth_spec`).
pub fn and<N: Number>(args: &Vec<Value<N>>, log: &mut NumLog<N>) -> (r: Result<Value<N>, Error>)
    ensures
        old(log).entries().is_prefix_of(final(log).entries()),
        forall|l: Seq<Ans<N>>|
            final(log).entries().is_prefix_of(l) ==> truth_spec(
                l,
                old(log).entries().len(),
                values_view(args@),
                true,
            ) == (final(log).entries().len(), res_view(r)),
{
    let b = truth_loop(args, 0, true, true, log);
    Ok(Value::Bool(b))
}

/// `or` (see `truth_spec`).
pub fn val_or<N: Number>(args: &Vec<Value<N>>, log: &mut NumLog<N>) -> (r: Result<Value<N>, Error>)
    ensures
        old(log).entries().is_prefix_of(final(log).entries()),
        forall|l: Seq<Ans<N>>|
            final(log).entries().is_prefix_of(l) ==> truth_spec(
                l,
                old(log).entries().len(),
                values_view(args@),
                false,
            ) == (final(log).entries().len(), res_view(r)),
{
    let b = truth_loop(args, 0, false, false, log);
    Ok(Value::Bool(b))
}

/// `not` (see `not_spec`).
pub fn not<N: Number>(args: &Vec<Value<N>>, log: &mut NumLog<N>) -> (r: Result<Value<N>, Error>)
    ensures
        old(log).entries().is_prefix_of(final(log).entries()),
        forall|l: Seq<Ans<N>>|
            final(log).entries().is_prefix_of(l) ==> not_spec(
                l,
                old(log).entries().len(),
                values_view(args@),
            ) == (final(log).entries().len(), res_view(r)),
{
    if args.len() != 1 {
        return Err(Error::Builtin(BuiltinError::WrongNotArgCount(args.len())));
    }
    assert(values_view(args@)[0] == args@[0]@);
    let t = args[0].truthy(log);
    Ok(Value::Bool(!t))
}

/// Whether the text `s` is the one byte `c`.
fn text_is_byte(s: &String, c: u8) -> (b: bool)
    ensures
        b == is_byte(s@, c),
{
    let bytes = s.as_str().as_bytes();
    bytes.len() == 1 && bytes[0] == c
}

/// The text of a string or a symbol.
fn text_ref<N: Number>(v: &Value<N>) -> (r: Option<&String>)
    ensures
        match r {
            Some(s) => text_of(v@) == Some(s@),
            None => text_of(v@) is None,
        },
{
    match v {
        Value::Str(s) => Some(s),
        Value::Symbol(s) => Some(s),
        _ => None,
    }
}

/// Equality of two values that are not both numbers (see `eq_plain`).
fn eq_values<N: Number>(a: &Value<N>, b: &Value<N>) -> (r: bool)
    ensures
        !(a@ is Num && b@ is Num) ==> r == eq_plain(a@, b@),
{
    match (a, b) {
        (Value::Nil, Value::Nil) => true,
        (_, Value::Nil) => false,
        (Value::Nil, _) => false,
        (Value::Char(x), Value::Char(y)) => *x == *y,
        (Value::Char(c), _) => match text_ref(b) {
            Some(s) => text_is_byte(s, *c),
            None => false,
        },
        (_, Value::Char(c)) => match text_ref(a) {
            Some(s) => text_is_byte(s, *c),
            None => false,
        },
        _ => match (text_ref(a), text_ref(b)) {
            (Some(s), Some(t)) => *s == *t,
            _ => false,
        },
    }
}

/// `eq` (see `eq_spec`).
pub fn eq<N: Number>(args: &Vec<Value<N>>, log: &mut NumLog<N>) -> (r: Result<Value<N>, Error>)
    ensures
        old(log).entries().is_prefix_of(final(log).entries()),
        forall|l: Seq<Ans<N>>|
            final(log).entries().is_prefix_of(l) ==> eq_spec(
                l,
                old(log).entries().len(),
                values_view(args@),
            ) == (final(log).entries().len(), res_view(r)),
{
    let ghost before = log.entries();
    if args.len() < 2 {
        return Err(Error::Builtin(BuiltinError::NoArgList));
    }
    if args.len() > 2 {
        return Err(Error::Builtin(BuiltinError::BadEqArgCount));
    }
    assert(values_view(args@)[0] == args@[0]@);
    assert(values_view(args@)[1] == args@[1]@);
    match (&args[0], &args[1]) {
        (Value::Num(x), Value::Num(y)) => {
            let s = log.same(y, x);
            proof {
                assert forall|l: Seq<Ans<N>>| log.entries().is_prefix_of(l) implies eq_spec(
                    l,
                    before.len(),
                    values_view(args@),
                ) == (log.entries().len(), res_view(Ok::<Value<N>, Error>(Value::Bool(s)))) by {
                    lemma_log_push(before, Ans::Same(*y, *x, s), l);
                }
            }
            Ok(Value::Bool(s))
        },
        _ => Ok(Value::Bool(eq_values(&args[0], &args[1]))),
    }
}

/// `cons` (see `cons_spec`).
pub fn cons<N: Number>(args: &Vec<Value<N>>) -> (r: Result<Value<N>, Error>)
    ensures
        res_view(r) == cons_spec(values_view(args@)),
{
    if args.len() != 2 {
        return Err(Error::Builtin(BuiltinError::WrongConsArgCount(args.len())));
    }
    assert(values_view(args@)[0] == args@[0]@);
    assert(values_view(args@)[1] == args@[1]@);
    Ok(Value::Cons(Box::new(clone_value(&args[0])), Box::new(clone_value(&args[1]))))
}

/// `car` (see `car_spec`).
pub fn car<N: Number>(args: &Vec<Value<N>>) -> (r: Result<Value<N>, Error>)
    ensures
        res_view(r) == car_spec(values_view(args@)),
{
    if args.len() != 1 {
        return Err(Error::Builtin(BuiltinError::WrongCarArgCount(args.len())));
    }
    assert(values_view(args@)[0] == args@[0]@);
    match &args[0] {
        Value::Nil => Err(Error::Builtin(BuiltinError::CarOnEmptyList)),
        Value::Cons(h, _) => Ok(clone_value(&**h)),
        _ => Err(Error::Builtin(BuiltinError::WrongCarArgType)),
    }
}

/// `cdr` (see `cdr_spec`).
pub fn cdr<N: Number>(args: &Vec<Value<N>>) -> (r: Result<Value<N>, Error>)
    ensures
        res_view(r) == cdr_spec(values_view(args@)),
{
    if args.len() != 1 {
        return Err(Error::Builtin(BuiltinError::WrongCdrArgCount(args.len())));
    }
    assert(values_view(args@)[0] == args@[0]@);
    match &args[0] {
        Value::Nil => Err(Error::Builtin(BuiltinError::CdrOnEmptyList)),
        Value::Cons(_, t) => Ok(clone_value(&**t)),
        _ => Err(Error::Builtin(BuiltinError::WrongCdrArgType)),
    }
}

/// Copies of the values of a vector.
pub fn clone_all<N: Number>(items: &Vec<Value<N>>) -> (r: Vec<Value<N>>)
    ensures
        values_view(r@) == values_view(items@),
{
    let mut out: Vec<Value<N>> = Vec::new();
    let mut i: usize = 0;
    while i < items.len()
        invariant
            i <= items.len(),
            values_view(out@) == values_view(items@).take(i as int),
        decreases items.len() - i,
    {
        let ghost o = out@;
        out.push(clone_value(&items[i]));
        assert(values_view(out@) =~= values_view(o) + seq![items@[i as int]@]);
        assert(values_view(items@).take(i as int + 1) =~= values_view(items@).take(i as int) + seq![
            items@[i as int]@,
        ]);
        assert(values_view(out@) =~= values_view(items@).take(i as int + 1));
        i += 1;
    }
    assert(values_view(items@).take(items.len() as int) =~= values_view(items@));
    out
}

/// `list`: the list of its arguments.
pub fn list<N: Number>(args: &Vec<Value<N>>) -> (r: Value<N>)
    ensures
        r@ == from_seq(values_view(args@), Val::Nil),
{
    prepend_all(clone_all(args), Value::Nil)
}

/// `append` (see `append_spec`).
pub fn append<N: Number>(args: &Vec<Value<N>>) -> (r: Result<Value<N>, Error>)
    ensures
        res_view(r) == append_spec(values_view(args@)),
{
    if args.len() < 2 {
        return Err(Error::Builtin(BuiltinError::NeedTwoArgs));
    }
    assert(values_view(args@)[0] == args@[0]@);
    assert(values_view(args@)[1] == args@[1]@);
    args[0].splice(clone_value(&args[1]))
}

/// A type predicate (see `pred_spec`).
pub fn predicate<N: Number>(p: crate::value::Prim, args: &Vec<Value<N>>) -> (r: Result<Value<N>, Error>)
    ensures
        res_view(r) == pred_spec(p, values_view(args@)),
{
    if args.len() == 0 {
        return Err(Error::Builtin(BuiltinError::NoArgList));
    }
    if args.len() > 1 {
        return Err(Error::Builtin(BuiltinError::OnlyOneArg));
    }
    assert(values_view(args@)[0] == args@[0]@);
    let v = &args[0];
    let b = match p {
        crate::value::Prim::IsNumber => matches!(v, Value::Num(_)),
        crate::value::Prim::IsBool => matches!(v, Value::Bool(_)),
        crate::value::Prim::IsSymbol => matches!(v, Value::Symbol(_)),
        crate::value::Prim::IsChar => matches!(v, Value::Char(_)),
        crate::value::Prim::IsString => matches!(v, Value::Str(_)),
        crate::value::Prim::IsAtom => !matches!(v, Value::Cons(_, _)),
        crate::value::Prim::IsNull => matches!(v, Value::Nil),
        _ => matches!(v, Value::Cons(_, _)),
    };
    Ok(Value::Bool(b))
}


/// Law: `car` of a pair made by `cons` is its first part, and `cdr` its
/// second.
pub proof fn law_car_cdr_cons<N>(a: Val<N>, b: Val<N>)
    ensures
        cons_spec(seq![a, b]) == Ok::<Val<N>, ErrV>(Val::Cons(Box::new(a), Box::new(b))),
        car_spec(seq![Val::Cons(Box::new(a), Box::new(b))]) == Ok::<Val<N>, ErrV>(a),
        cdr_spec(seq![Val::Cons(Box::new(a), Box::new(b))]) == Ok::<Val<N>, ErrV>(b),
{
}

/// Law: the elements of the list that `list` makes are its arguments, in
/// order.
pub proof fn law_list_elements<N>(items: Seq<Val<N>>)
    ensures
        list_items(from_seq(items, Val::Nil)) == items,
{
    lemma_items_from_seq(items, Val::Nil);
}

/// Law: `append` of two lists is a list of the elements of the first
/// followed by those of the second; it fails exactly when the first
/// argument is not a list.
pub proof fn law_append<N>(a: Val<N>, b: Val<N>)
    ensures
        append_spec(seq![a, b]) is Ok <==> (a is Nil || a is Cons),
        append_spec(seq![a, b]) matches Ok(v) ==> list_items(v) == list_items(a) + list_items(b),
{
    crate::value::law_splice_items(a, b);
}

/// Law: each type predicate tells the kind of its one argument, and an
/// atom is exactly what is not a pair.
pub proof fn law_predicates<N>(v: Val<N>)
    ensures
        pred_spec(Prim::IsNumber, seq![v]) == Ok::<Val<N>, ErrV>(Val::Bool(v is Num)),
        pred_spec(Prim::IsBool, seq![v]) == Ok::<Val<N>, ErrV>(Val::Bool(v is Bool)),
        pred_spec(Prim::IsSymbol, seq![v]) == Ok::<Val<N>, ErrV>(Val::Bool(v is Symbol)),
        pred_spec(Prim::IsChar, seq![v]) == Ok::<Val<N>, ErrV>(Val::Bool(v is Char)),
        pred_spec(Prim::IsString, seq![v]) == Ok::<Val<N>, ErrV>(Val::Bool(v is Str)),
        pred_spec(Prim::IsNull, seq![v]) == Ok::<Val<N>, ErrV>(Val::Bool(v is Nil)),
        pred_spec(Prim::IsPair, seq![v]) == Ok::<Val<N>, ErrV>(Val::Bool(v is Cons)),
        pred_spec(Prim::IsAtom, seq![v]) == Ok::<Val<N>, ErrV>(Val::Bool(!(v is Cons))),
{
}

/// The arity check of the procedures that take exactly one argument.
pub open spec fn one_arg<N>(items: Seq<Val<N>>) -> Option<BuiltinError> {
    if items.len() == 0 {
        Some(BuiltinError::NoArgList)
    } else if items.len() > 1 {
        Some(BuiltinError::OnlyOneArg)
    } else {
        None
    }
}

/// `string-length`: the number of bytes of a string or symbol.
pub open spec fn string_length_spec<N>(l: Seq<Ans<N>>, k: nat, items: Seq<Val<N>>) -> Outcome<N> {
    match one_arg(items) {
        Some(e) => fail(k, e),
        None => match text_of(items[0]) {
            Some(s) => (k + 1, Ok(Val::Num(count_ans(l, k, bytes_of(s).len() as usize)))),
            None => fail(k, BuiltinError::NotAString),
        },
    }
}

/// `string-ref`: the byte of a string or symbol at an index.
pub open spec fn string_ref_spec<N>(l: Seq<Ans<N>>, k: nat, items: Seq<Val<N>>) -> Outcome<N> {
    if items.len() < 2 {
        fail(k, BuiltinError::NeedTwoArgs)
    } else {
        match items[1] {
            Val::Num(x) => match text_of(items[0]) {
                Some(s) => {
                    let i = index_ans(l, k, x);
                    if (i as nat) < bytes_of(s).len() {
                        (k + 1, Ok(Val::Char(bytes_of(s)[i as int])))
                    } else {
                        fail(k + 1, BuiltinError::IndexOutOfRange)
                    }
                },
                None => fail(k, BuiltinError::NotAString),
            },
            _ => fail(k, BuiltinError::IndexNotNum),
        }
    }
}

/// The end of a substring: the third argument when there is one (a number,
/// cut down to the length `len`), else `len`; `None` when it is not a number.
pub open spec fn sub_end<N>(l: Seq<Ans<N>>, k: nat, items: Seq<Val<N>>, len: nat) -> Option<(nat, nat)> {
    if items.len() < 3 {
        Some((k, len))
    } else {
        match items[2] {
            Val::Num(t) => {
                let e = index_ans(l, k, t);
                Some((k + 1, if e > len {
                    len
                } else {
                    e as nat
                }))
            },
            _ => None,
        }
    }
}

/// `substring`: the bytes `from..to` of a string or symbol, which must
/// Law: for ASCII text, `string-length` is the number domain's number for
/// the count of its characters, and `string-ref` at an index inside the
/// text is the byte of the character there.
pub proof fn law_string_length_ref_ascii<N>(l: Seq<Ans<N>>, k: nat, s: Seq<char>, x: N)
    requires
        is_ascii_chars(s),
    ensures
        string_length_spec(l, k, seq![Val::Str(s)]) == (
            k + 1,
            Ok::<Val<N>, ErrV>(Val::Num(count_ans(l, k, s.len() as usize))),
        ),
        (index_ans(l, k, x) as nat) < s.len() ==> string_ref_spec(l, k, seq![Val::Str(s), Val::Num(x)])
            == (k + 1, Ok::<Val<N>, ErrV>(Val::Char(s[index_ans(l, k, x) as int] as u8))),
{
    is_ascii_chars_encode_utf8(s);
}

/// delimit a nonempty piece of its text.
pub open spec fn substring_spec<N>(l: Seq<Ans<N>>, k: nat, items: Seq<Val<N>>) -> Outcome<N> {
    if items.len() < 2 {
        fail(k, BuiltinError::NeedTwoArgs)
    } else {
        match items[1] {
            Val::Num(f) => {
                let from = index_ans(l, k, f) as nat;
                match text_of(items[0]) {
                    None => fail(k + 1, BuiltinError::NotAString),
                    Some(s) => {
                        let b = bytes_of(s);
                        match sub_end(l, k + 1, items, b.len()) {
                            None => fail(k + 1, BuiltinError::EndNotNum),
                            Some((k2, to)) => if from >= b.len() || from > to {
                                fail(k2, BuiltinError::BadSubstring)
                            } else if valid_utf8(b.subrange(from as int, to as int)) {
                                (k2, Ok(Val::Str(decode_utf8(b.subrange(from as int, to as int)))))
                            } else {
                                fail(k2, BuiltinError::BadSubstring)
                            },
                        }
                    },
                }
            },
            _ => fail(k, BuiltinError::IndexNotNum),
        }
    }
}

/// The texts of `items[..n]` one after the other; the first argument that is
/// neither a string nor a symbol is an error.
pub open spec fn texts_upto<N>(items: Seq<Val<N>>, n: nat) -> Result<Seq<char>, ErrV>
    decreases n,
{
    if n == 0 {
        Ok(seq![])
    } else {
        match texts_upto(items, (n - 1) as nat) {
            Err(e) => Err(e),
            Ok(pre) => match text_of(items[n - 1]) {
                Some(s) => Ok(pre + s),
                None => Err(builtin_err(BuiltinError::NotAString)),
            },
        }
    }
}

/// `string-append`: the texts of the arguments one after the other.
pub open spec fn string_append_spec<N>(items: Seq<Val<N>>) -> Result<Val<N>, ErrV> {
    match texts_upto(items, items.len()) {
        Ok(s) => Ok(Val::Str(s)),
        Err(e) => Err(e),
    }
}

proof fn lemma_texts_push<N>(items: Seq<Val<N>>, x: Val<N>, n: nat)
    requires
        n <= items.len(),
    ensures
        texts_upto(items.push(x), n) == texts_upto(items, n),
    decreases n,
{
    if n > 0 {
        lemma_texts_push(items, x, (n - 1) as nat);
        assert(items.push(x)[n - 1] == items[n - 1]);
    }
}

/// Law: `string-append` of no argument is the empty string.
pub proof fn law_string_append_empty<N>()
    ensures
        string_append_spec::<N>(seq![]) == Ok::<Val<N>, ErrV>(Val::Str(seq![])),
{
}

/// Law: one more string or symbol argument appends its text to the result,
/// whatever number of arguments came before; so the result is the texts of
/// all the arguments one after the other, and its length is the sum of
/// their lengths.
pub proof fn law_string_append_push<N>(items: Seq<Val<N>>, t: Seq<char>, x: Val<N>, s: Seq<char>)
    requires
        string_append_spec(items) == Ok::<Val<N>, ErrV>(Val::Str(t)),
        text_of(x) == Some(s),
    ensures
        string_append_spec(items.push(x)) == Ok::<Val<N>, ErrV>(Val::Str(t + s)),
        (t + s).len() == t.len() + s.len(),
{
    lemma_texts_push(items, x, items.len());
    assert(items.push(x)[items.len() as int] == x);
}

/// The bytes as a list.
pub open spec fn byte_list<N>(b: Seq<u8>) -> Val<N> {
    from_seq(b.map_values(|c: u8| Val::<N>::Char(c)), Val::Nil)
}

/// `string->list`: the list of the bytes of a string or symbol.
pub open spec fn string_list_spec<N>(items: Seq<Val<N>>) -> Result<Val<N>, ErrV> {
    match one_arg(items) {
        Some(e) => Err(builtin_err(e)),
        None => match text_of(items[0]) {
            Some(s) => Ok(byte_list(bytes_of(s))),
            None => Err(builtin_err(BuiltinError::NotAString)),
        },
    }
}

/// `string->num`: the number that a string or symbol is a literal of.
pub open spec fn string_num_spec<N>(l: Seq<Ans<N>>, k: nat, items: Seq<Val<N>>) -> Outcome<N> {
    match one_arg(items) {
        Some(e) => fail(k, e),
        None => match text_of(items[0]) {
            Some(s) => match parsed_ans(l, k, s) {
                Some(n) => (k + 1, Ok(Val::Num(n))),
                None => fail(k + 1, BuiltinError::NotANumber),
            },
            None => fail(k, BuiltinError::NotAString),
        },
    }
}

/// The text of `elems[..n]`: a byte as its character, any other value as it
/// is printed.
pub open spec fn chars_upto<N>(l: Seq<Ans<N>>, k: nat, elems: Seq<Val<N>>, n: nat) -> (nat, Seq<char>)
    decreases n,
{
    if n == 0 {
        (k, seq![])
    } else {
        let pre = chars_upto(l, k, elems, (n - 1) as nat);
        match elems[n - 1] {
            Val::Char(b) => (pre.0, pre.1.push(b as char)),
            v => {
                let r = render_at(l, pre.0, v);
                (r.0, pre.1 + r.1)
            },
        }
    }
}

/// `list->string`: the text of the elements of a list.
pub open spec fn list_string_spec<N>(l: Seq<Ans<N>>, k: nat, items: Seq<Val<N>>) -> Outcome<N> {
    match one_arg(items) {
        Some(e) => fail(k, e),
        None => {
            let elems = list_items(items[0]);
            let r = chars_upto(l, k, elems, elems.len());
            (r.0, Ok(Val::Str(r.1)))
        },
    }
}

proof fn lemma_chars_of_ascii_bytes<N>(l: Seq<Ans<N>>, k: nat, s: Seq<char>, n: nat)
    requires
        is_ascii_chars(s),
        n <= s.len(),
    ensures
        chars_upto(l, k, bytes_of(s).map_values(|c: u8| Val::<N>::Char(c)), n) == (k, s.take(n as int)),
    decreases n,
{
    is_ascii_chars_encode_utf8(s);
    is_ascii_chars_nat_bound(s);
    if n > 0 {
        lemma_chars_of_ascii_bytes(l, k, s, (n - 1) as nat);
        let elems = bytes_of(s).map_values(|c: u8| Val::<N>::Char(c));
        let i = n - 1;
        assert(elems[i] == Val::<N>::Char(bytes_of(s)[i]));
        assert(bytes_of(s)[i] == s[i] as u8);
        assert((s[i] as u8) as char == s[i]);
        assert(s.take(n as int) =~= s.take(i).push(s[i]));
    } else {
        assert(s.take(0) =~= seq![]);
    }
}

/// Law: for an ASCII string, `string->list` and then `list->string` give the
/// string back, and put no question to the number domain.
pub proof fn law_string_list_round_trip<N>(l: Seq<Ans<N>>, k: nat, s: Seq<char>)
    requires
        is_ascii_chars(s),
    ensures
        string_list_spec::<N>(seq![Val::Str(s)]) == Ok::<Val<N>, ErrV>(byte_list::<N>(bytes_of(s))),
        list_string_spec(l, k, seq![byte_list::<N>(bytes_of(s))]) == (k, Ok::<Val<N>, ErrV>(Val::Str(s))),
{
    is_ascii_chars_encode_utf8(s);
    let elems = bytes_of(s).map_values(|c: u8| Val::<N>::Char(c));
    lemma_items_from_seq(elems, Val::Nil);
    lemma_chars_of_ascii_bytes(l, k, s, s.len());
    assert(s.take(s.len() as int) =~= s);
}

/// `char`: the byte that a number in `0..256`, or a one-byte text, names.
pub open spec fn make_char_spec<N>(l: Seq<Ans<N>>, k: nat, items: Seq<Val<N>>) -> Outcome<N> {
    match one_arg(items) {
        Some(e) => fail(k, e),
        None => match items[0] {
            Val::Num(x) => match byte_ans(l, k, x) {
                Some(b) => (k + 1, Ok(Val::Char(b))),
                None => fail(k + 1, BuiltinError::BadCharArg),
            },
            v => match text_of(v) {
                Some(s) => if bytes_of(s).len() == 1 {
                    (k, Ok(Val::Char(bytes_of(s)[0])))
                } else {
                    fail(k, BuiltinError::BadCharArg)
                },
                None => fail(k, BuiltinError::BadCharArg),
            },
        },
    }
}

/// Reads bytes as UTF-8 text (`std::str::from_utf8`). The contract claims
/// what that function's documentation says: it succeeds exactly on valid
/// UTF-8, and then gives the text that the bytes encode.
#[verifier::external_body]
fn utf8_text(bytes: &[u8]) -> (r: Option<String>)
    ensures
        r is Some <==> valid_utf8(bytes@),
        r matches Some(s) ==> s@ == decode_utf8(bytes@),
{
    match std::str::from_utf8(bytes) {
        Ok(s) => Some(s.to_owned()),
        Err(_) => None,
    }
}

/// The argument at `i`, a string or symbol, as text.
fn text_at<N: Number>(args: &Vec<Value<N>>, i: usize) -> (r: Option<&String>)
    requires
        i < args.len(),
    ensures
        match r {
            Some(s) => text_of(values_view(args@)[i as int]) == Some(s@),
            None => text_of(values_view(args@)[i as int]) is None,
        },
{
    assert(values_view(args@)[i as int] == args@[i as int]@);
    text_ref(&args[i])
}

/// `string-length` (see `string_length_spec`).
pub fn string_length<N: Number>(args: &Vec<Value<N>>, log: &mut NumLog<N>) -> (r: Result<
    Value<N>,
    Error,
>)
    ensures
        old(log).entries().is_prefix_of(final(log).entries()),
        forall|l: Seq<Ans<N>>|
            final(log).entries().is_prefix_of(l) ==> string_length_spec(
                l,
                old(log).entries().len(),
                values_view(args@),
            ) == (final(log).entries().len(), res_view(r)),
{
    let ghost before = log.entries();
    if args.len() == 0 {
        return Err(Error::Builtin(BuiltinError::NoArgList));
    }
    if args.len() > 1 {
        return Err(Error::Builtin(BuiltinError::OnlyOneArg));
    }
    match text_at(args, 0) {
        Some(s) => {
            let n = s.as_str().as_bytes().len();
            let c = log.from_count(n);
            proof {
                assert forall|l: Seq<Ans<N>>| log.entries().is_prefix_of(l) implies string_length_spec(
                    l,
                    before.len(),
                    values_view(args@),
                ) == (log.entries().len(), res_view(Ok::<Value<N>, Error>(Value::Num(c)))) by {
                    lemma_log_push(before, Ans::Count(n, c), l);
                }
            }
            Ok(Value::Num(c))
        },
        None => Err(Error::Builtin(BuiltinError::NotAString)),
    }
}

/// `string-ref` (see `string_ref_spec`).
pub fn string_ref<N: Number>(args: &Vec<Value<N>>, log: &mut NumLog<N>) -> (r: Result<Value<N>, Error>)
    ensures
        old(log).entries().is_prefix_of(final(log).entries()),
        forall|l: Seq<Ans<N>>|
            final(log).entries().is_prefix_of(l) ==> string_ref_spec(
                l,
                old(log).entries().len(),
                values_view(args@),
            ) == (final(log).entries().len(), res_view(r)),
{
    let ghost before = log.entries();
    if args.len() < 2 {
        return Err(Error::Builtin(BuiltinError::NeedTwoArgs));
    }
    assert(values_view(args@)[1] == args@[1]@);
    let x = match &args[1] {
        Value::Num(x) => *x,
        _ => {
            return Err(Error::Builtin(BuiltinError::IndexNotNum));
        },
    };
    let s = match text_at(args, 0) {
        Some(s) => s,
        None => {
            return Err(Error::Builtin(BuiltinError::NotAString));
        },
    };
    let i = log.to_index(&x);
    let bytes = s.as_str().as_bytes();
    let r = if i < bytes.len() {
        Ok(Value::Char(bytes[i]))
    } else {
        Err(Error::Builtin(BuiltinError::IndexOutOfRange))
    };
    proof {
        assert forall|l: Seq<Ans<N>>| log.entries().is_prefix_of(l) implies string_ref_spec(
            l,
            before.len(),
            values_view(args@),
        ) == (log.entries().len(), res_view(r)) by {
            lemma_log_push(before, Ans::Index(x, i), l);
        }
    }
    r
}

/// `substring` (see `substring_spec`).
pub fn substring<N: Number>(args: &Vec<Value<N>>, log: &mut NumLog<N>) -> (r: Result<Value<N>, Error>)
    ensures
        old(log).entries().is_prefix_of(final(log).entries()),
        forall|l: Seq<Ans<N>>|
            final(log).entries().is_prefix_of(l) ==> substring_spec(
                l,
                old(log).entries().len(),
                values_view(args@),
            ) == (final(log).entries().len(), res_view(r)),
{
    let ghost before = log.entries();
    let ghost vv = values_view(args@);
    if args.len() < 2 {
        return Err(Error::Builtin(BuiltinError::NeedTwoArgs));
    }
    assert(vv[1] == args@[1]@);
    let f = match &args[1] {
        Value::Num(f) => *f,
        _ => {
            return Err(Error::Builtin(BuiltinError::IndexNotNum));
        },
    };
    let from = log.to_index(&f);
    let ghost mid = log.entries();
    proof {
        assert forall|l: Seq<Ans<N>>| mid.is_prefix_of(l) implies index_ans(l, before.len(), f) == from by {
            lemma_log_push(before, Ans::Index(f, from), l);
        }
    }
    let s = match text_at(args, 0) {
        Some(s) => s,
        None => {
            return Err(Error::Builtin(BuiltinError::NotAString));
        },
    };
    let bytes = s.as_str().as_bytes();
    let len = bytes.len();
    let to = if args.len() < 3 {
        len
    } else {
        assert(vv[2] == args@[2]@);
        match &args[2] {
            Value::Num(t) => {
                let e = log.to_index(t);
                proof {
                    assert forall|l: Seq<Ans<N>>| log.entries().is_prefix_of(l) implies index_ans(
                        l,
                        mid.len(),
                        *t,
                    ) == e && mid.is_prefix_of(l) by {
                        lemma_log_push(mid, Ans::Index(*t, e), l);
                    }
                }
                if e > len {
                    len
                } else {
                    e
                }
            },
            _ => {
                return Err(Error::Builtin(BuiltinError::EndNotNum));
            },
        }
    };
    proof {
        lemma_prefix_trans(before, mid, log.entries());
        assert(bytes@ == bytes_of(s@));
        assert forall|l: Seq<Ans<N>>| log.entries().is_prefix_of(l) implies index_ans(
            l,
            before.len(),
            f,
        ) == from && sub_end(l, mid.len(), vv, len as nat) == Some((log.entries().len(), to as nat)) by {
            lemma_prefix_trans(mid, log.entries(), l);
        }
    }
    let r = if from >= len || from > to {
        Err(Error::Builtin(BuiltinError::BadSubstring))
    } else {
        let piece = vstd::slice::slice_subrange(bytes, from, to);
        match utf8_text(piece) {
            Some(t) => Ok(Value::Str(t)),
            None => Err(Error::Builtin(BuiltinError::BadSubstring)),
        }
    };
    proof {
        assert forall|l: Seq<Ans<N>>| log.entries().is_prefix_of(l) implies substring_spec(
            l,
            before.len(),
            vv,
        ) == (log.entries().len(), res_view(r)) by {
            assert(index_ans(l, before.len(), f) == from);
            assert(sub_end(l, mid.len(), vv, len as nat) == Some((log.entries().len(), to as nat)));
        }
    }
    r
}

/// `string-append` (see `string_append_spec`).
pub fn string_append<N: Number>(args: &Vec<Value<N>>) -> (r: Result<Value<N>, Error>)
    ensures
        res_view(r) == string_append_spec(values_view(args@)),
{
    let ghost vv = values_view(args@);
    let mut out = String::new();
    let mut i: usize = 0;
    while i < args.len()
        invariant
            i <= args.len(),
            vv == values_view(args@),
            texts_upto(vv, i as nat) == Ok::<Seq<char>, ErrV>(out@),
        decreases args.len() - i,
    {
        match text_at(args, i) {
            Some(s) => push_str(&mut out, s.as_str()),
            None => {
                proof {
                    lemma_texts_err(vv, (i + 1) as nat, args.len() as nat);
                }
                return Err(Error::Builtin(BuiltinError::NotAString));
            },
        }
        i += 1;
    }
    Ok(Value::Str(out))
}

/// An error among the first `n` texts stays an error among more.
proof fn lemma_texts_err<N>(items: Seq<Val<N>>, n: nat, m: nat)
    requires
        n <= m,
        texts_upto(items, n) is Err,
    ensures
        texts_upto(items, m) == texts_upto(items, n),
    decreases m - n,
{
    if n < m {
        lemma_texts_err(items, n, (m - 1) as nat);
    }
}

/// The list of the bytes.
fn bytes_to_list<N: Number>(b: &[u8]) -> (r: Value<N>)
    ensures
        r@ == byte_list::<N>(b@),
{
    let mut v: Vec<Value<N>> = Vec::new();
    let mut i: usize = 0;
    while i < b.len()
        invariant
            i <= b.len(),
            values_view(v@) == b@.take(i as int).map_values(|c: u8| Val::<N>::Char(c)),
        decreases b.len() - i,
    {
        let ghost o = v@;
        v.push(Value::Char(b[i]));
        assert(values_view(v@) =~= values_view(o) + seq![Val::<N>::Char(b@[i as int])]);
        assert(b@.take(i as int + 1).map_values(|c: u8| Val::<N>::Char(c)) =~= b@.take(
            i as int,
        ).map_values(|c: u8| Val::<N>::Char(c)) + seq![Val::<N>::Char(b@[i as int])]);
        i += 1;
    }
    assert(b@.take(b.len() as int) =~= b@);
    prepend_all(v, Value::Nil)
}

/// `string->list` (see `string_list_spec`).
pub fn string_list<N: Number>(args: &Vec<Value<N>>) -> (r: Result<Value<N>, Error>)
    ensures
        res_view(r) == string_list_spec(values_view(args@)),
{
    if args.len() == 0 {
        return Err(Error::Builtin(BuiltinError::NoArgList));
    }
    if args.len() > 1 {
        return Err(Error::Builtin(BuiltinError::OnlyOneArg));
    }
    match text_at(args, 0) {
        Some(s) => Ok(bytes_to_list(s.as_str().as_bytes())),
        None => Err(Error::Builtin(BuiltinError::NotAString)),
    }
}

/// `string->num` (see `string_num_spec`).
pub fn string_num<N: Number>(args: &Vec<Value<N>>, log: &mut NumLog<N>) -> (r: Result<Value<N>, Error>)
    ensures
        old(log).entries().is_prefix_of(final(log).entries()),
        forall|l: Seq<Ans<N>>|
            final(log).entries().is_prefix_of(l) ==> string_num_spec(
                l,
                old(log).entries().len(),
                values_view(args@),
            ) == (final(log).entries().len(), res_view(r)),
{
    let ghost before = log.entries();
    if args.len() == 0 {
        return Err(Error::Builtin(BuiltinError::NoArgList));
    }
    if args.len() > 1 {
        return Err(Error::Builtin(BuiltinError::OnlyOneArg));
    }
    match text_at(args, 0) {
        Some(s) => {
            let p = log.parse_num(s.as_str());
            let r = match p {
                Some(n) => Ok(Value::Num(n)),
                None => Err(Error::Builtin(BuiltinError::NotANumber)),
            };
            proof {
                assert forall|l: Seq<Ans<N>>| log.entries().is_prefix_of(l) implies string_num_spec(
                    l,
                    before.len(),
                    values_view(args@),
                ) == (log.entries().len(), res_view(r)) by {
                    lemma_log_push(before, Ans::Parsed(s@, p), l);
                }
            }
            r
        },
        None => Err(Error::Builtin(BuiltinError::NotAString)),
    }
}

/// `list->string` (see `list_string_spec`).
pub fn list_string<N: Number>(args: &Vec<Value<N>>, log: &mut NumLog<N>) -> (r: Result<Value<N>, Error>)
    ensures
        old(log).entries().is_prefix_of(final(log).entries()),
        forall|l: Seq<Ans<N>>|
            final(log).entries().is_prefix_of(l) ==> list_string_spec(
                l,
                old(log).entries().len(),
                values_view(args@),
            ) == (final(log).entries().len(), res_view(r)),
{
    let ghost before = log.entries();
    if args.len() == 0 {
        return Err(Error::Builtin(BuiltinError::NoArgList));
    }
    if args.len() > 1 {
        return Err(Error::Builtin(BuiltinError::OnlyOneArg));
    }
    assert(values_view(args@)[0] == args@[0]@);
    let elems = list_to_vec(&args[0]);
    let ghost ev = values_view(elems@);
    let mut out = String::new();
    let mut i: usize = 0;
    while i < elems.len()
        invariant
            i <= elems.len(),
            ev == values_view(elems@),
            before.is_prefix_of(log.entries()),
            forall|l: Seq<Ans<N>>|
                log.entries().is_prefix_of(l) ==> chars_upto(l, before.len(), ev, i as nat) == (
                    log.entries().len(),
                    out@,
                ),
        decreases elems.len() - i,
    {
        let ghost mid = log.entries();
        let ghost o = out@;
        assert(ev[i as int] == elems@[i as int]@);
        match &elems[i] {
            Value::Char(b) => {
                push_char(&mut out, byte_char(*b));
            },
            v => {
                let t = render(v, log);
                push_str(&mut out, t.as_str());
            },
        }
        proof {
            assert forall|l: Seq<Ans<N>>| log.entries().is_prefix_of(l) implies chars_upto(
                l,
                before.len(),
                ev,
                (i + 1) as nat,
            ) == (log.entries().len(), out@) by {
                lemma_prefix_trans(mid, log.entries(), l);
            }
            lemma_prefix_trans(before, mid, log.entries());
        }
        i += 1;
    }
    Ok(Value::Str(out))
}

/// `char` (see `make_char_spec`).
pub fn make_char<N: Number>(args: &Vec<Value<N>>, log: &mut NumLog<N>) -> (r: Result<Value<N>, Error>)
    ensures
        old(log).entries().is_prefix_of(final(log).entries()),
        forall|l: Seq<Ans<N>>|
            final(log).entries().is_prefix_of(l) ==> make_char_spec(
                l,
                old(log).entries().len(),
                values_view(args@),
            ) == (final(log).entries().len(), res_view(r)),
{
    let ghost before = log.entries();
    if args.len() == 0 {
        return Err(Error::Builtin(BuiltinError::NoArgList));
    }
    if args.len() > 1 {
        return Err(Error::Builtin(BuiltinError::OnlyOneArg));
    }
    assert(values_view(args@)[0] == args@[0]@);
    match &args[0] {
        Value::Num(x) => {
            let b = log.to_byte(x);
            let r = match b {
                Some(c) => Ok(Value::Char(c)),
                None => Err(Error::Builtin(BuiltinError::BadCharArg)),
            };
            proof {
                assert forall|l: Seq<Ans<N>>| log.entries().is_prefix_of(l) implies make_char_spec(
                    l,
                    before.len(),
                    values_view(args@),
                ) == (log.entries().len(), res_view(r)) by {
                    lemma_log_push(before, Ans::Byte(*x, b), l);
                }
            }
            r
        },
        v => match text_ref(v) {
            Some(s) => {
                let bytes = s.as_str().as_bytes();
                if bytes.len() == 1 {
                    Ok(Value::Char(bytes[0]))
                } else {
                    Err(Error::Builtin(BuiltinError::BadCharArg))
                }
            },
            None => Err(Error::Builtin(BuiltinError::BadCharArg)),
        },
    }
}

/// The text with white space at both ends removed.
pub open spec fn trim_start(s: Seq<char>) -> Seq<char>
    decreases s.len(),
{
    if s.len() > 0 && is_space(s[0]) {
        trim_start(s.drop_first())
    } else {
        s
    }
}

/// The text with white space at its end removed.
pub open spec fn trim_end(s: Seq<char>) -> Seq<char>
    decreases s.len(),
{
    if s.len() > 0 && is_space(s.last()) {
        trim_end(s.drop_last())
    } else {
        s
    }
}

/// The text with white space at both ends removed.
pub open spec fn trim_spec(s: Seq<char>) -> Seq<char> {
    trim_end(trim_start(s))
}

/// The text with white space at both ends removed (see `trim_spec`).
pub fn trim(s: &str) -> (r: String)
    ensures
        r@ == trim_spec(s@),
{
    let chars = chars_of(s);
    let n = chars.len();
    let mut start: usize = 0;
    assert(chars@.subrange(0, n as int) =~= chars@);
    while start < n && is_whitespace(chars[start])
        invariant
            start <= n,
            n == chars@.len(),
            chars@ == s@,
            trim_start(s@) == trim_start(chars@.subrange(start as int, n as int)),
        decreases n - start,
    {
        assert(chars@.subrange(start as int, n as int).drop_first() =~= chars@.subrange(
            start as int + 1,
            n as int,
        ));
        start += 1;
    }
    assert(trim_start(s@) == chars@.subrange(start as int, n as int));
    let mut end: usize = n;
    while end > start && is_whitespace(chars[end - 1])
        invariant
            start <= end <= n,
            n == chars@.len(),
            trim_spec(s@) == trim_end(chars@.subrange(start as int, end as int)),
        decreases end - start,
    {
        assert(chars@.subrange(start as int, end as int).drop_last() =~= chars@.subrange(
            start as int,
            end as int - 1,
        ));
        end -= 1;
    }
    string_of(&chars, start, end)
}

/// The length of the first line of `inp`, with its line feed.
pub open spec fn line_len_from(inp: Seq<u8>, i: nat) -> nat
    decreases inp.len() - i,
{
    if i >= inp.len() {
        inp.len()
    } else if inp[i as int] == 10 {
        i + 1
    } else {
        line_len_from(inp, i + 1)
    }
}

/// Whether the bytes `inp` hold a whole line: a line feed.
pub open spec fn has_line(inp: Seq<u8>) -> bool {
    let n = line_len_from(inp, 0);
    n > 0 && inp[n - 1] == 10
}

/// `getline`: reads a line of the input; the result is that line without
/// white space at its ends, or an error when it is not UTF-8 text. Returns
/// the input left too. While no whole line has arrived and the input has
/// not ended (`closed`), nothing is read and more input is asked for; once
/// it has ended, the rest of the input is the last line.
pub open spec fn getline_spec<N>(inp: Seq<u8>, closed: bool) -> (Seq<u8>, Result<Val<N>, ErrV>) {
    let n = line_len_from(inp, 0);
    let line = inp.take(n as int);
    if !closed && !has_line(inp) {
        (inp, Err(eval_err(EvalError::NeedsInput)))
    } else {
        (inp.skip(n as int), if valid_utf8(line) {
            Ok(Val::Str(trim_spec(decode_utf8(line))))
        } else {
            Err(builtin_err(BuiltinError::InvalidInput))
        })
    }
}

/// `getchar`: reads a byte of the input, or `(err . "EOF")` when the input
/// has ended; while no byte has arrived and the input has not ended, more
/// input is asked for.
pub open spec fn getchar_spec<N>(inp: Seq<u8>, closed: bool) -> (Seq<u8>, Result<Val<N>, ErrV>) {
    if inp.len() == 0 {
        if closed {
            (inp, Ok(Val::Cons(Box::new(Val::Symbol("err"@)), Box::new(Val::Str("EOF"@)))))
        } else {
            (inp, Err(eval_err(EvalError::NeedsInput)))
        }
    } else {
        (inp.drop_first(), Ok(Val::Char(inp[0])))
    }
}

/// `getchar` (see `getchar_spec`).
pub fn getchar<N: Number>(input: &mut Vec<u8>, closed: bool) -> (r: Result<Value<N>, Error>)
    ensures
        getchar_spec::<N>(old(input)@, closed) == (final(input)@, res_view(r)),
{
    if input.len() == 0 {
        if !closed {
            return Err(Error::Eval(EvalError::NeedsInput));
        }
        proof {
            reveal_with_fuel(crate::value::value_view, 2);
        }
        return Ok(
            Value::Cons(
                Box::new(Value::Symbol(string_from("err"))),
                Box::new(Value::Str(string_from("EOF"))),
            ),
        );
    }
    let ghost inp = input@;
    let b = input.remove(0);
    assert(input@ =~= inp.drop_first());
    Ok(Value::Char(b))
}

/// `getline` (see `getline_spec`).
pub fn getline<N: Number>(input: &mut Vec<u8>, closed: bool) -> (r: Result<Value<N>, Error>)
    ensures
        getline_spec::<N>(old(input)@, closed) == (final(input)@, res_view(r)),
{
    let ghost inp = input@;
    let mut n: usize = 0;
    while n < input.len() && input[n] != 10
        invariant
            n <= input.len(),
            input@ == inp,
            line_len_from(inp, 0) == line_len_from(inp, n as nat),
            forall|j: int| 0 <= j < n ==> inp[j] != 10,
        decreases input.len() - n,
    {
        n += 1;
    }
    if n < input.len() {
        n += 1;
    } else {
        assert(line_len_from(inp, 0) == inp.len());
        if !closed {
            return Err(Error::Eval(EvalError::NeedsInput));
        }
    }
    let whole = input.as_slice();
    let line = vstd::slice::slice_subrange(whole, 0, n);
    let rest = vstd::slice::slice_to_vec(vstd::slice::slice_subrange(whole, n, whole.len()));
    let r = match utf8_text(line) {
        Some(t) => Ok(Value::Str(trim(t.as_str()))),
        None => Err(Error::Builtin(BuiltinError::InvalidInput)),
    };
    *input = rest;
    assert(inp.take(n as int) =~= inp.subrange(0, n as int));
    assert(inp.skip(n as int) =~= inp.subrange(n as int, inp.len() as int));
    r
}

/// `print`: the printed forms of the arguments separated by spaces, as a
/// line of output.
pub fn print<N: Number>(args: &Vec<Value<N>>, log: &mut NumLog<N>, output: &mut Vec<String>) -> (r:
    Value<N>)
    ensures
        old(log).entries().is_prefix_of(final(log).entries()),
        forall|l: Seq<Ans<N>>|
            final(log).entries().is_prefix_of(l) ==> render_all(
                l,
                old(log).entries().len(),
                values_view(args@),
            ) == (final(log).entries().len(), final(output)@.last()@),
        final(output)@.drop_last() == old(output)@,
        final(output)@.len() == old(output)@.len() + 1,
        r@ == Val::<N>::NoPrint,
{
    let line = render_list(args, log);
    output.push(line);
    Value::NoPrint
}


/// A built-in procedure that puts its questions to the number domain and
/// touches neither the input nor the output.
pub open spec fn pure_prim<N>(l: Seq<Ans<N>>, k: nat, p: Prim, items: Seq<Val<N>>) -> Outcome<N> {
    match p {
        Prim::Add => add_spec(l, k, items),
        Prim::Sub => min_spec(l, k, items),
        Prim::Mul => mul_spec(l, k, items),
        Prim::Div => div_spec(l, k, items),
        Prim::IntDiv => intdiv_spec(l, k, items),
        Prim::Lt => lt_spec(l, k, items),
        Prim::Mod => mod_spec(l, k, items),
        Prim::And => truth_spec(l, k, items, true),
        Prim::Or => truth_spec(l, k, items, false),
        Prim::Eq => eq_spec(l, k, items),
        Prim::Not => not_spec(l, k, items),
        Prim::Cons => (k, cons_spec(items)),
        Prim::Car => (k, car_spec(items)),
        Prim::Cdr => (k, cdr_spec(items)),
        Prim::List => (k, Ok(from_seq(items, Val::Nil))),
        Prim::Append => (k, append_spec(items)),
        Prim::StringLength => string_length_spec(l, k, items),
        Prim::StringRef => string_ref_spec(l, k, items),
        Prim::Substring => substring_spec(l, k, items),
        Prim::StringAppend => (k, string_append_spec(items)),
        Prim::StringList => (k, string_list_spec(items)),
        Prim::StringNum => string_num_spec(l, k, items),
        Prim::ListString => list_string_spec(l, k, items),
        Prim::MakeChar => make_char_spec(l, k, items),
        _ => (k, pred_spec(p, items)),
    }
}

/// What applying the built-in procedure `p` to the argument values `items`
/// does to the environment, and its result.
pub open spec fn prim_spec<N>(l: Seq<Ans<N>>, ev: EnvV<N>, p: Prim, items: Seq<Val<N>>) -> (
    EnvV<N>,
    Result<Val<N>, ErrV>,
) {
    match p {
        Prim::Print => {
            let r = render_all(l, ev.count, items);
            (EnvV { count: r.0, output: ev.output.push(r.1), ..ev }, Ok(Val::NoPrint))
        },
        Prim::GetChar => {
            let r = getchar_spec::<N>(ev.input, ev.input_closed);
            (EnvV { input: r.0, ..ev }, r.1)
        },
        Prim::GetLine => {
            let r = getline_spec::<N>(ev.input, ev.input_closed);
            (EnvV { input: r.0, ..ev }, r.1)
        },
        _ => {
            let r = pure_prim(l, ev.count, p, items);
            (EnvV { count: r.0, ..ev }, r.1)
        },
    }
}

/// Applies the built-in procedure `p` to the argument values `args` (see
/// `prim_spec`).
pub fn apply_prim<N: Number>(p: Prim, args: &Vec<Value<N>>, env: &mut Env<N>) -> (r: Result<
    Value<N>,
    Error,
>)
    ensures
        old(env).answers().is_prefix_of(final(env).answers()),
        forall|l: Seq<Ans<N>>|
            final(env).answers().is_prefix_of(l) ==> prim_spec(l, old(env)@, p, values_view(args@))
                == (final(env)@, res_view(r)),
{
    let ghost ev = env@;
    let ghost before = env.log.entries();
    let r = match p {
        Prim::Print => {
            let ghost out0 = env.output@;
            let v = print(args, &mut env.log, &mut env.output);
            proof {
                assert(env.output@ =~= out0.push(env.output@.last()));
                assert(env@.output =~= ev.output.push(env.output@.last()@));
            }
            Ok(v)
        },
        Prim::GetChar => getchar(&mut env.input, env.input_closed),
        Prim::GetLine => getline(&mut env.input, env.input_closed),
        Prim::Add => self::add(args, &mut env.log),
        Prim::Sub => min(args, &mut env.log),
        Prim::Mul => self::mul(args, &mut env.log),
        Prim::Div => div(args, &mut env.log),
        Prim::IntDiv => intdiv(args, &mut env.log),
        Prim::Lt => lt(args, &mut env.log),
        Prim::Mod => modulo(args, &mut env.log),
        Prim::And => and(args, &mut env.log),
        Prim::Or => val_or(args, &mut env.log),
        Prim::Eq => eq(args, &mut env.log),
        Prim::Not => not(args, &mut env.log),
        Prim::Cons => cons(args),
        Prim::Car => car(args),
        Prim::Cdr => cdr(args),
        Prim::List => Ok(list(args)),
        Prim::Append => append(args),
        Prim::StringLength => string_length(args, &mut env.log),
        Prim::StringRef => string_ref(args, &mut env.log),
        Prim::Substring => substring(args, &mut env.log),
        Prim::StringAppend => string_append(args),
        Prim::StringList => string_list(args),
        Prim::StringNum => string_num(args, &mut env.log),
        Prim::ListString => list_string(args, &mut env.log),
        Prim::MakeChar => make_char(args, &mut env.log),
        _ => predicate(p, args),
    };
    proof {
        assert(env@.frames == ev.frames);
        assert(env@.builtins == ev.builtins);
    }
    r
}

} // verus!
