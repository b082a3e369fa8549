//! General laws of the evaluation semantics, stated and proved once and
//! for all inputs: how an operator tier chains left-to-right, what an
//! oversized exponent does, and what a negative exponent degenerates to.

use vstd::prelude::*;
use crate::ast::NodeV;
use crate::ast::Operator;
use crate::bigint::abs_of;
use crate::bigint::tdiv;
use crate::error::ErrView;
use crate::sem::CtxView;
use crate::sem::Tier;
use crate::sem::count_pop;
use crate::sem::first_pop;
use crate::sem::in_tier;
use crate::sem::left_index;
use crate::sem::right_index;
use crate::sem::seval_expr;
use crate::sem::spec_apply_op;
use crate::sem::stage_group;
use crate::sem::stage_tier;
use crate::sem::stage_vars;
use crate::lex::TokV;
use crate::parse::sp_expr;
use crate::parse::sp_ops;
use crate::parse::sp_value;

verus! {

use vstd::arithmetic::power::pow;

/// An exponent whose magnitude exceeds the unsigned 32-bit range always
/// fails with `ExponentOverflow`, whatever the base.
pub proof fn lemma_exponent_overflow(l: int, r: int)
    requires
        abs_of(r) > u32::MAX,
    ensures
        spec_apply_op(Operator::Exponent, l, r) == Err::<int, ErrView>(
            ErrView::ExponentOverflow(r),
        ),
{
}

/// The magnitude of a power of a base of magnitude at least two is at
/// least two.
proof fn lemma_pow_abs_ge(b: int, k: nat)
    requires
        abs_of(b) >= 2,
        k >= 1,
    ensures
        abs_of(pow(b, k)) >= 2,
    decreases k,
{
    reveal(pow);
    if k == 1 {
        vstd::arithmetic::power::lemma_pow1(b);
    } else {
        lemma_pow_abs_ge(b, (k - 1) as nat);
        let p = pow(b, (k - 1) as nat);
        assert(pow(b, k) == b * p);
        assert(abs_of(b * p) >= 2) by (nonlinear_arith)
            requires
                abs_of(b) >= 2,
                abs_of(p) >= 2,
        ;
    }
}

/// Raising one to any power gives one.
proof fn lemma_pow_one(k: nat)
    ensures
        pow(1, k) == 1,
    decreases k,
{
    reveal(pow);
    if k > 0 {
        lemma_pow_one((k - 1) as nat);
    }
}

/// Negative exponent degeneracy: a negative exponent computes
/// `1 / base^(-e)` with truncating integer division, so every base of
/// magnitude above one gives zero.
pub proof fn lemma_negative_exponent_degenerate(b: int, e: int)
    requires
        e < 0,
        -e <= u32::MAX,
        abs_of(b) > 1,
    ensures
        spec_apply_op(Operator::Exponent, b, e) == Ok::<int, ErrView>(0),
{
    lemma_pow_abs_ge(b, (-e) as nat);
    let p = pow(b, (-e) as nat);
    vstd::arithmetic::div_mod::lemma_basic_div(1, abs_of(p));
    assert(tdiv(1, p) == 0);
}

/// Negative exponent degeneracy, the exceptional base: one to any
/// negative in-range exponent stays one.
pub proof fn lemma_negative_exponent_one(e: int)
    requires
        e < 0,
        -e <= u32::MAX,
    ensures
        spec_apply_op(Operator::Exponent, 1, e) == Ok::<int, ErrView>(1),
{
    lemma_pow_one((-e) as nat);
    assert(tdiv(1, 1) == 1);
}

/// A grouping pass over slots that hold no parenthetical and no negation
/// leaves the prefix unchanged.
proof fn lemma_group_passthrough(items: Seq<Option<NodeV>>, env: CtxView, k: int)
    requires
        0 <= k <= items.len(),
        forall|m: int|
            0 <= m < k ==> !(#[trigger] items[m] matches Some(nv) && (nv is Parenthetical
                || nv is Negation)),
    ensures
        stage_group(items, env, k) == Ok::<Seq<Option<NodeV>>, ErrView>(items.subrange(0, k)),
    decreases k,
{
    if k > 0 {
        lemma_group_passthrough(items, env, k - 1);
        assert(items.subrange(0, k) =~= items.subrange(0, k - 1).push(items[k - 1]));
    } else {
        assert(items.subrange(0, 0) =~= Seq::<Option<NodeV>>::empty());
    }
}

/// A tier pass over slots that hold no operator of that tier leaves them
/// unchanged.
proof fn lemma_tier_skip(items: Seq<Option<NodeV>>, env: CtxView, t: Tier, i: int)
    requires
        0 <= i,
        forall|m: int|
            i <= m < items.len() ==> !(#[trigger] items[m] matches Some(nv) && (
            nv matches NodeV::Operator(op) && in_tier(op, t))),
    ensures
        stage_tier(items, env, t, i) == Ok::<Seq<Option<NodeV>>, ErrView>(items),
    decreases items.len() - i,
{
    if i < items.len() {
        lemma_tier_skip(items, env, t, i + 1);
    }
}

/// A residual pass over slots that hold no bare identifier leaves them
/// unchanged.
proof fn lemma_vars_skip(items: Seq<Option<NodeV>>, env: CtxView, i: int)
    requires
        0 <= i,
        forall|m: int|
            i <= m < items.len() ==> !(#[trigger] items[m] matches Some(nv) && nv is Variable),
    ensures
        stage_vars(items, env, i) == Ok::<Seq<Option<NodeV>>, ErrView>(items),
    decreases items.len() - i,
{
    if i < items.len() {
        lemma_vars_skip(items, env, i + 1);
    }
}

/// Raising minus one to any power alternates between one and minus one.
proof fn lemma_pow_neg_one(k: nat)
    ensures
        pow(-1, k) == if k % 2 == 0 {
            1int
        } else {
            -1int
        },
    decreases k,
{
    reveal(pow);
    if k > 0 {
        lemma_pow_neg_one((k - 1) as nat);
    }
}

/// Negative exponent degeneracy, the other exceptional base: minus one
/// to a negative in-range exponent is one or minus one by the exponent's
/// parity.
pub proof fn lemma_negative_exponent_neg_one(e: int)
    requires
        e < 0,
        -e <= u32::MAX,
    ensures
        spec_apply_op(Operator::Exponent, -1, e) == Ok::<int, ErrView>(
            if (-e) % 2 == 0 {
                1int
            } else {
                -1int
            },
        ),
{
    lemma_pow_neg_one((-e) as nat);
    assert(tdiv(1, 1) == 1);
    assert(tdiv(1, -1) == -1);
}

/// Left-associativity within a tier: an expression of three literals
/// joined by two operators of the same tier reduces as if parenthesized
/// to the left, and a failure of the left application is reported first.
pub proof fn lemma_tier_left_assoc(
    a: int,
    o1: Operator,
    b: int,
    o2: Operator,
    c: int,
    t: Tier,
    env: CtxView,
)
    requires
        in_tier(o1, t),
        in_tier(o2, t),
    ensures
        seval_expr(
            seq![
                Some(NodeV::Literal(a)),
                Some(NodeV::Operator(o1)),
                Some(NodeV::Literal(b)),
                Some(NodeV::Operator(o2)),
                Some(NodeV::Literal(c)),
            ],
            env,
        ) == match spec_apply_op(o1, a, b) {
            Err(e) => Err(e),
            Ok(x) => spec_apply_op(o2, x, c),
        },
{
    let items = seq![
        Some(NodeV::Literal(a)),
        Some(NodeV::Operator(o1)),
        Some(NodeV::Literal(b)),
        Some(NodeV::Operator(o2)),
        Some(NodeV::Literal(c)),
    ];
    lemma_group_passthrough(items, env, 5);
    assert(items.subrange(0, 5) =~= items);
    // the two tiers that do not hold these operators pass over the slots
    if t != Tier::Pow {
        lemma_tier_skip(items, env, Tier::Pow, 0);
    }
    if t != Tier::MulDiv {
        lemma_tier_skip(items, env, Tier::MulDiv, 0);
    }
    if t != Tier::AddSub {
        lemma_tier_skip(items, env, Tier::AddSub, 0);
    }
    // the operating tier: the first slot is a literal, so the scan moves on
    assert(stage_tier(items, env, t, 0) == stage_tier(items, env, t, 1));
    // the first operator consumes its neighbors at slots zero and two
    assert(left_index(items, 1) == 0);
    assert(right_index(items, 1) == 2);
    match spec_apply_op(o1, a, b) {
        Err(e) => {
            assert(stage_tier(items, env, t, 1) == Err::<Seq<Option<NodeV>>, ErrView>(e));
        },
        Ok(x) => {
            let it1 = items.update(0, None).update(2, None).update(1, Some(NodeV::Literal(x)));
            assert(stage_tier(items, env, t, 1) == stage_tier(it1, env, t, 2));
            assert(stage_tier(it1, env, t, 2) == stage_tier(it1, env, t, 3));
            // the second operator reaches the first result across the
            // emptied slot, which is what makes the chain left-associative
            assert(left_index(it1, 3) == 1);
            assert(right_index(it1, 3) == 4);
            match spec_apply_op(o2, x, c) {
                Err(e) => {
                    assert(stage_tier(it1, env, t, 3) == Err::<Seq<Option<NodeV>>, ErrView>(e));
                },
                Ok(y) => {
                    let it2 = it1.update(1, None).update(4, None).update(
                        3,
                        Some(NodeV::Literal(y)),
                    );
                    assert(stage_tier(it1, env, t, 3) == stage_tier(it2, env, t, 4));
                    assert(stage_tier(it2, env, t, 4) == stage_tier(it2, env, t, 5));
                    assert(stage_tier(it2, env, t, 5) == Ok::<Seq<Option<NodeV>>, ErrView>(it2));
                    if t != Tier::Pow {
                        lemma_tier_skip(it2, env, Tier::Pow, 0);
                    }
                    if t != Tier::MulDiv {
                        lemma_tier_skip(it2, env, Tier::MulDiv, 0);
                    }
                    if t != Tier::AddSub {
                        lemma_tier_skip(it2, env, Tier::AddSub, 0);
                    }
                    lemma_vars_skip(it2, env, 0);
                    reveal_with_fuel(count_pop, 7);
                    reveal_with_fuel(first_pop, 7);
                    assert(count_pop(it2, 5) == 1);
                    assert(first_pop(it2, 0) == 3);
                },
            }
        },
    }
}


/// Whether a node can stand in a value-bearing slot.
pub open spec fn is_value_node(n: NodeV) -> bool {
    n is Literal || n is Variable || n is Parenthetical || n is Negation
}

/// A well-formed expression: an odd number of slots, all populated,
/// alternating value-bearing nodes and operators.
pub open spec fn wf_slots(slots: Seq<Option<NodeV>>) -> bool {
    &&& slots.len() % 2 == 1
    &&& forall|m: int|
        0 <= m < slots.len() && m % 2 == 0 ==> (#[trigger] slots[m] matches Some(nv)
            && is_value_node(nv))
    &&& forall|m: int|
        0 <= m < slots.len() && m % 2 == 1 ==> (#[trigger] slots[m] matches Some(nv)
            && nv is Operator)
}

/// The parser only produces well-formed expressions: a non-empty,
/// odd-length alternation of value-bearing slots and operator slots, and
/// every value slot holds a value-bearing node.
pub proof fn lemma_parser_shape(toks: Seq<TokV>, i: int, eol: int)
    ensures
        sp_value(toks, i, eol) matches Ok(p) ==> is_value_node(p.0),
        sp_expr(toks, i, eol) matches Ok(q) ==> wf_slots(q.0),
    decreases toks.len() - i, 2int,
{
    if 0 <= i < toks.len() {
        match toks[i].kind {
            crate::lex::TokKV::Minus => {
                lemma_parser_shape(toks, i + 1, eol);
            },
            crate::lex::TokKV::LParen => {
                lemma_parser_shape(toks, i + 1, eol);
            },
            _ => {},
        }
        match sp_value(toks, i, eol) {
            Ok((n, j)) => {
                if i < j && j <= toks.len() {
                    lemma_ops_shape(toks, j, eol, seq![Some(n)]);
                }
            },
            Err(_) => {},
        }
    }
}

/// The operator-and-value tail keeps the alternation well-formed.
proof fn lemma_ops_shape(toks: Seq<TokV>, i: int, eol: int, acc: Seq<Option<NodeV>>)
    requires
        0 <= i <= toks.len(),
        wf_slots(acc),
    ensures
        sp_ops(toks, i, eol, acc) matches Ok(p) ==> wf_slots(p.0),
    decreases toks.len() - i, 3int,
{
    if i < toks.len() {
        match crate::parse::op_of(toks[i].kind) {
            Some(op) => {
                lemma_parser_shape(toks, i + 1, eol);
                match sp_value(toks, i + 1, eol) {
                    Ok((n, j)) => {
                        if i + 1 < j && j <= toks.len() {
                            let acc2 = acc + seq![Some(NodeV::Operator(op)), Some(n)];
                            assert(wf_slots(acc2)) by {
                                assert(forall|m: int|
                                    0 <= m < acc.len() ==> acc2[m] == #[trigger] acc[m]);
                                assert(acc2[acc.len() as int] == Some(NodeV::Operator(op)));
                                assert(acc2[acc.len() as int + 1] == Some(n));
                            }
                            lemma_ops_shape(toks, j, eol, acc2);
                        }
                    },
                    Err(_) => {},
                }
            },
            None => {},
        }
    }
}

/// Reduction never changes the number of slots: a tier's scan writes into
/// the operator's own slot and only empties the consumed neighbors.
pub proof fn lemma_stage_tier_len(items: Seq<Option<NodeV>>, env: CtxView, t: Tier, i: int)
    ensures
        stage_tier(items, env, t, i) matches Ok(its) ==> its.len() == items.len(),
    decreases items.len() - i,
{
    if 0 <= i < items.len() {
        match items[i] {
            Some(NodeV::Operator(op)) => {
                if in_tier(op, t) {
                    crate::sem::lemma_left_index(items, i);
                    crate::sem::lemma_right_index(items, i);
                    let li = crate::sem::left_index(items, i);
                    let ri = crate::sem::right_index(items, i);
                    if li >= 0 && ri < items.len() {
                        match flat_val_pair(items, li, ri, env) {
                            Some((l, r)) => {
                                match spec_apply_op(op, l, r) {
                                    Ok(v) => {
                                        lemma_stage_tier_len(
                                            items.update(li, None).update(ri, None).update(
                                                i,
                                                Some(NodeV::Literal(v)),
                                            ),
                                            env,
                                            t,
                                            i + 1,
                                        );
                                    },
                                    Err(_) => {},
                                }
                            },
                            None => {},
                        }
                    }
                } else {
                    lemma_stage_tier_len(items, env, t, i + 1);
                }
            },
            _ => {
                lemma_stage_tier_len(items, env, t, i + 1);
            },
        }
    }
}

/// The grouping stage yields exactly one slot per slot scanned.
pub proof fn lemma_stage_group_len(items: Seq<Option<NodeV>>, env: CtxView, k: int)
    requires
        k <= items.len(),
    ensures
        stage_group(items, env, k) matches Ok(p) ==> p.len() == if k < 0 {
            0int
        } else {
            k
        },
    decreases k,
{
    if 0 < k <= items.len() {
        lemma_stage_group_len(items, env, k - 1);
    }
}

/// The residual stage never changes the number of slots either.
pub proof fn lemma_stage_vars_len(items: Seq<Option<NodeV>>, env: CtxView, i: int)
    ensures
        stage_vars(items, env, i) matches Ok(its) ==> its.len() == items.len(),
    decreases items.len() - i,
{
    if 0 <= i < items.len() {
        match items[i] {
            Some(NodeV::Variable(x)) => {
                match crate::sem::spec_lookup(env, x) {
                    Some(v) => {
                        lemma_stage_vars_len(
                            items.update(i, Some(NodeV::Literal(v))),
                            env,
                            i + 1,
                        );
                    },
                    None => {},
                }
            },
            _ => {
                lemma_stage_vars_len(items, env, i + 1);
            },
        }
    }
}

/// The two operand values of a tier step, when both resolve.
spec fn flat_val_pair(items: Seq<Option<NodeV>>, li: int, ri: int, env: CtxView) -> Option<
    (int, int),
> {
    match (
        crate::sem::flat_val(items[li].unwrap(), env),
        crate::sem::flat_val(items[ri].unwrap(), env),
    ) {
        (Ok(l), Ok(r)) => Some((l, r)),
        _ => None,
    }
}

/// Referencing an identifier that has no bound value and is not the
/// reserved name `_` fails with `VarNotFound`.
pub proof fn lemma_unbound_variable(x: Seq<char>, env: CtxView)
    requires
        x != seq!['_'],
        !env.vars.contains_key(x),
    ensures
        seval_expr(seq![Some(NodeV::Variable(x))], env) == Err::<int, ErrView>(
            ErrView::VarNotFound(x),
        ),
{
    let items = seq![Some(NodeV::Variable(x))];
    lemma_group_passthrough(items, env, 1);
    assert(items.subrange(0, 1) =~= items);
    lemma_tier_skip(items, env, Tier::Pow, 0);
    lemma_tier_skip(items, env, Tier::MulDiv, 0);
    lemma_tier_skip(items, env, Tier::AddSub, 0);
    assert(stage_vars(items, env, 0) == Err::<Seq<Option<NodeV>>, ErrView>(
        ErrView::VarNotFound(x),
    ));
}


} // verus!
