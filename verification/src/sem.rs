//! The specification of evaluation: what reducing a parsed line means,
//! stated over the mirror AST. The reducer collapses an expression's slots
//! in ordered stages — groupings first, then exponentiation, then
//! multiplication and division, then addition and subtraction — each stage
//! a left-to-right scan that resolves an operator's operands by a nearest
//! populated neighbor lookup and writes the result into the operator's own
//! slot, emptying the consumed operand slots.

use vstd::prelude::*;
use crate::ast::NodeV;
use crate::ast::Operator;
use crate::bigint::tdiv;
use crate::error::ErrView;

verus! {

use vstd::arithmetic::power::pow;

/// The variables and the last value of an evaluation context.
pub struct CtxView {
    pub vars: Map<Seq<char>, int>,
    pub last: int,
}

/// Whether a character is an ASCII letter.
pub open spec fn is_alpha(c: char) -> bool {
    (65 <= c as u32 && c as u32 <= 90) || (97 <= c as u32 && c as u32 <= 122)
}

/// Whether a character is an ASCII letter or digit.
pub open spec fn is_alnum(c: char) -> bool {
    is_alpha(c) || crate::bigint::is_digit(c)
}

/// The naming rule: a valid variable name is exactly `_`, or is non-empty,
/// starts with an ASCII letter, and consists of ASCII letters and digits.
pub open spec fn spec_var_valid(s: Seq<char>) -> bool {
    s == seq!['_'] || (s.len() > 0 && is_alpha(s[0]) && forall|i: int|
        0 <= i < s.len() ==> is_alnum(#[trigger] s[i]))
}

/// Resolving a name: `_` always reads the last value; any other name reads
/// the variable table, absent for unknown and invalid names alike.
pub open spec fn spec_lookup(env: CtxView, name: Seq<char>) -> Option<int> {
    if name == seq!['_'] {
        Some(env.last)
    } else if env.vars.contains_key(name) {
        Some(env.vars[name])
    } else {
        None
    }
}

/// A precedence tier of the staged reduction.
#[derive(Clone, Copy, Debug, PartialEq, Eq, Structural)]
pub enum Tier {
    Pow,
    MulDiv,
    AddSub,
}

/// Whether an operator is resolved by the given tier's scan.
pub open spec fn in_tier(op: Operator, t: Tier) -> bool {
    match t {
        Tier::Pow => op is Exponent,
        Tier::MulDiv => op is Multiplication || op is Division,
        Tier::AddSub => op is Addition || op is Subtraction,
    }
}

/// Applying one binary operator to two reduced operands.
///
/// Division truncates toward zero and rejects a zero divisor. The exponent
/// must fit in an unsigned 32-bit magnitude; a negative exponent `e`
/// computes `1 / base^(-e)` with the same truncating division, so for
/// bases of magnitude above one the result is zero.
pub open spec fn spec_apply_op(op: Operator, l: int, r: int) -> Result<int, ErrView> {
    match op {
        Operator::Addition => Ok(l + r),
        Operator::Subtraction => Ok(l - r),
        Operator::Multiplication => Ok(l * r),
        Operator::Division => if r == 0 {
            Err(ErrView::DivideByZero)
        } else {
            Ok(tdiv(l, r))
        },
        Operator::Exponent => if r < 0 {
            if -r > u32::MAX {
                Err(ErrView::ExponentOverflow(r))
            } else if pow(l, (-r) as nat) == 0 {
                Err(ErrView::DivideByZero)
            } else {
                Ok(tdiv(1, pow(l, (-r) as nat)))
            }
        } else {
            if r > u32::MAX {
                Err(ErrView::ExponentOverflow(r))
            } else {
                Ok(pow(l, r as nat))
            }
        },
    }
}

/// The value of an already-flattened operand slot: a literal's value or a
/// variable's binding. Any other node in operand position is an internal
/// invariant violation.
pub open spec fn flat_val(n: NodeV, env: CtxView) -> Result<int, ErrView> {
    match n {
        NodeV::Literal(v) => Ok(v),
        NodeV::Variable(x) => match spec_lookup(env, x) {
            Some(v) => Ok(v),
            None => Err(ErrView::VarNotFound(x)),
        },
        _ => Err(ErrView::Internal),
    }
}

/// The nearest populated slot strictly left of `i`, or `-1` if none.
pub open spec fn left_index(items: Seq<Option<NodeV>>, i: int) -> int
    decreases i,
{
    if i <= 0 {
        -1
    } else if items[i - 1] is Some {
        i - 1
    } else {
        left_index(items, i - 1)
    }
}

/// The nearest populated slot strictly right of `i`, or `items.len()` if
/// none.
pub open spec fn right_index(items: Seq<Option<NodeV>>, i: int) -> int
    decreases items.len() - i,
{
    if i + 1 >= items.len() {
        items.len() as int
    } else if items[i + 1] is Some {
        i + 1
    } else {
        right_index(items, i + 1)
    }
}

/// The nearest populated slot left of `i` lies in `[-1, i)`, and is
/// populated when it exists.
pub proof fn lemma_left_index(items: Seq<Option<NodeV>>, i: int)
    ensures
        i >= 0 ==> -1 <= left_index(items, i) < i,
        i >= 0 && left_index(items, i) >= 0 ==> items[left_index(items, i)] is Some,
        i >= 0 ==> forall|j: int|
            left_index(items, i) < j < i ==> !(#[trigger] items[j] is Some),
    decreases i,
{
    if i > 0 && !(items[i - 1] is Some) {
        lemma_left_index(items, i - 1);
    }
}

/// The nearest populated slot right of `i` lies in `(i, len]`, and is
/// populated when it is below `len`.
pub proof fn lemma_right_index(items: Seq<Option<NodeV>>, i: int)
    ensures
        i < items.len() ==> i < right_index(items, i) <= items.len(),
        i < items.len() && right_index(items, i) < items.len() ==> items[right_index(items, i)]
            is Some,
        i < items.len() ==> forall|j: int|
            i < j < right_index(items, i) ==> !(#[trigger] items[j] is Some),
    decreases items.len() - i,
{
    if i + 1 < items.len() && !(items[i + 1] is Some) {
        lemma_right_index(items, i + 1);
    }
}

/// The grouping stage over the first `k` slots: every parenthetical or
/// negation slot is reduced, left to right, and replaced by its literal
/// value; all other slots pass through unchanged.
pub open spec fn stage_group(items: Seq<Option<NodeV>>, env: CtxView, k: int) -> Result<
    Seq<Option<NodeV>>,
    ErrView,
>
    decreases items, 0int, k,
{
    if k <= 0 || k > items.len() {
        Ok(Seq::empty())
    } else {
        match stage_group(items, env, k - 1) {
            Err(e) => Err(e),
            Ok(pre) => match items[k - 1] {
                Some(nd) => if nd is Parenthetical || nd is Negation {
                    match snode_eval(nd, env) {
                        Ok(v) => Ok(pre.push(Some(NodeV::Literal(v)))),
                        Err(e) => Err(e),
                    }
                } else {
                    Ok(pre.push(Some(nd)))
                },
                None => Ok(pre.push(None)),
            },
        }
    }
}

/// One operator tier's scan, from slot `i` on: each operator of the tier
/// consumes its nearest populated neighbors and is replaced, in its own
/// slot, by the result.
pub open spec fn stage_tier(items: Seq<Option<NodeV>>, env: CtxView, t: Tier, i: int) -> Result<
    Seq<Option<NodeV>>,
    ErrView,
>
    decreases items.len() - i,
    via stage_tier_dec
{
    if i < 0 || i >= items.len() {
        Ok(items)
    } else {
        match items[i] {
            Some(NodeV::Operator(op)) => if in_tier(op, t) {
                let li = left_index(items, i);
                if li < 0 {
                    Err(ErrView::Internal)
                } else {
                    match flat_val(items[li].unwrap(), env) {
                        Err(e) => Err(e),
                        Ok(l) => {
                            let ri = right_index(items, i);
                            if ri >= items.len() {
                                Err(ErrView::Internal)
                            } else {
                                match flat_val(items[ri].unwrap(), env) {
                                    Err(e) => Err(e),
                                    Ok(r) => match spec_apply_op(op, l, r) {
                                        Err(e) => Err(e),
                                        Ok(v) => stage_tier(
                                            items.update(li, None).update(ri, None).update(
                                                i,
                                                Some(NodeV::Literal(v)),
                                            ),
                                            env,
                                            t,
                                            i + 1,
                                        ),
                                    },
                                }
                            }
                        },
                    }
                }
            } else {
                stage_tier(items, env, t, i + 1)
            },
            _ => stage_tier(items, env, t, i + 1),
        }
    }
}

#[via_fn]
proof fn stage_tier_dec(items: Seq<Option<NodeV>>, env: CtxView, t: Tier, i: int) {
    lemma_left_index(items, i);
    lemma_right_index(items, i);
}

/// The residual stage, from slot `i` on: any slot still holding a bare
/// identifier is resolved and replaced by its literal value.
pub open spec fn stage_vars(items: Seq<Option<NodeV>>, env: CtxView, i: int) -> Result<
    Seq<Option<NodeV>>,
    ErrView,
>
    decreases items.len() - i,
{
    if i < 0 || i >= items.len() {
        Ok(items)
    } else {
        match items[i] {
            Some(NodeV::Variable(x)) => match spec_lookup(env, x) {
                Some(v) => stage_vars(items.update(i, Some(NodeV::Literal(v))), env, i + 1),
                None => Err(ErrView::VarNotFound(x)),
            },
            _ => stage_vars(items, env, i + 1),
        }
    }
}

/// How many of the first `k` slots are populated.
pub open spec fn count_pop(items: Seq<Option<NodeV>>, k: int) -> int
    decreases k,
{
    if k <= 0 {
        0
    } else {
        count_pop(items, k - 1) + if items[k - 1] is Some {
            1int
        } else {
            0int
        }
    }
}

/// The first populated slot at or after `i`, or `items.len()` if none.
pub open spec fn first_pop(items: Seq<Option<NodeV>>, i: int) -> int
    decreases items.len() - i,
{
    if i >= items.len() {
        items.len() as int
    } else if items[i] is Some {
        i
    } else {
        first_pop(items, i + 1)
    }
}

/// After full reduction, exactly one populated slot must remain and hold a
/// literal; anything else is an internal invariant violation.
pub open spec fn spec_finalize(items: Seq<Option<NodeV>>) -> Result<int, ErrView> {
    if count_pop(items, items.len() as int) == 1 {
        match items[first_pop(items, 0)] {
            Some(NodeV::Literal(v)) => Ok(v),
            _ => Err(ErrView::Internal),
        }
    } else {
        Err(ErrView::Internal)
    }
}

/// The staged reduction of an expression's slots to a single value.
pub open spec fn seval_expr(items: Seq<Option<NodeV>>, env: CtxView) -> Result<int, ErrView>
    decreases items, 1int, 0int,
{
    match stage_group(items, env, items.len() as int) {
        Err(e) => Err(e),
        Ok(s1) => match stage_tier(s1, env, Tier::Pow, 0) {
            Err(e) => Err(e),
            Ok(s2) => match stage_tier(s2, env, Tier::MulDiv, 0) {
                Err(e) => Err(e),
                Ok(s3) => match stage_tier(s3, env, Tier::AddSub, 0) {
                    Err(e) => Err(e),
                    Ok(s4) => match stage_vars(s4, env, 0) {
                        Err(e) => Err(e),
                        Ok(s5) => spec_finalize(s5),
                    },
                },
            },
        },
    }
}

/// An error found by the grouping stage persists to any longer prefix.
pub proof fn lemma_stage_group_err(items: Seq<Option<NodeV>>, env: CtxView, k: int, n: int)
    requires
        0 < k <= n <= items.len(),
        stage_group(items, env, k) is Err,
    ensures
        stage_group(items, env, n) == stage_group(items, env, k),
    decreases n - k,
{
    if k < n {
        lemma_stage_group_err(items, env, k, n - 1);
    }
}

/// A prefix holds no populated slot exactly when its count is zero.
pub proof fn lemma_count_pop_zero(items: Seq<Option<NodeV>>, k: int)
    ensures
        count_pop(items, k) >= 0,
        count_pop(items, k) == 0 <==> forall|m: int| 0 <= m < k ==> !(#[trigger] items[m] is Some),
    decreases k,
{
    if k > 0 {
        lemma_count_pop_zero(items, k - 1);
    }
}

/// Skipping an unpopulated prefix does not move the first populated slot.
pub proof fn lemma_first_pop_skip(items: Seq<Option<NodeV>>, i: int)
    requires
        0 <= i <= items.len(),
        forall|m: int| 0 <= m < i ==> !(#[trigger] items[m] is Some),
    ensures
        first_pop(items, 0) == first_pop(items, i),
    decreases i,
{
    if i > 0 {
        lemma_first_pop_skip_from(items, 0, i);
    }
}

/// Helper: moving the scan start right over unpopulated slots.
proof fn lemma_first_pop_skip_from(items: Seq<Option<NodeV>>, a: int, b: int)
    requires
        0 <= a <= b <= items.len(),
        forall|m: int| a <= m < b ==> !(#[trigger] items[m] is Some),
    ensures
        first_pop(items, a) == first_pop(items, b),
    decreases b - a,
{
    if a < b {
        lemma_first_pop_skip_from(items, a + 1, b);
    }
}

/// Reducing one node to a value against an environment, read-only.
pub open spec fn snode_eval(n: NodeV, env: CtxView) -> Result<int, ErrView>
    decreases n, 2int, 0int,
{
    match n {
        NodeV::Main(_, e) => snode_eval(*e, env),
        NodeV::Variable(x) => match spec_lookup(env, x) {
            Some(v) => Ok(v),
            None => Err(ErrView::VarNotFound(x)),
        },
        NodeV::Lhs(_) => Err(ErrView::Internal),
        NodeV::Operator(_) => Err(ErrView::Internal),
        NodeV::Parenthetical(e) => snode_eval(*e, env),
        NodeV::Negation(e) => match snode_eval(*e, env) {
            Ok(v) => Ok(-v),
            Err(e) => Err(e),
        },
        NodeV::Literal(v) => Ok(v),
        NodeV::Expression(items) => seval_expr(items, env),
    }
}

} // verus!
