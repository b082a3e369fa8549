//! The math environment: a variable table, a last-value slot, and the
//! staged expression reducer that evaluates parsed lines against them.

use vstd::prelude::*;
use crate::ast::Node;
use crate::ast::NodeV;
use crate::ast::Operator;
use crate::ast::node_view;
use crate::ast::slots_view;
use crate::bigint::Integer;
use crate::bigint::big_add;
use crate::bigint::big_clone;
use crate::bigint::big_div_trunc;
use crate::bigint::big_from_u64;
use crate::bigint::big_is_neg;
use crate::bigint::big_is_zero;
use crate::bigint::big_mul;
use crate::bigint::big_neg;
use crate::bigint::big_pow;
use crate::bigint::big_sub;
use crate::bigint::big_to_u32;
use crate::error::Error;
use crate::error::ErrView;
use crate::lex::lex_line;
use crate::parse::p_line;
use crate::parse::spec_parse_line;
use crate::sem::CtxView;
use crate::sem::Tier;
use crate::sem::flat_val;
use crate::sem::in_tier;
use crate::sem::left_index;
use crate::sem::right_index;
use crate::sem::lemma_left_index;
use crate::sem::lemma_right_index;
use crate::sem::seval_expr;
use crate::sem::snode_eval;
use crate::sem::spec_apply_op;
use crate::sem::spec_lookup;
use crate::sem::spec_var_valid;
use crate::sem::stage_group;
use crate::sem::stage_tier;
use crate::sem::stage_vars;
use crate::sem::count_pop;
use crate::sem::first_pop;
use crate::sem::spec_finalize;
use vstd::string::StrSliceExecFns;
use vstd::string::StringExecFns;

verus! {

/// The variable table of one environment, as a sequence of bindings.
pub open spec fn vars_map(s: Seq<(String, Integer)>) -> Map<Seq<char>, int>
    decreases s.len(),
{
    if s.len() == 0 {
        Map::empty()
    } else {
        vars_map(s.drop_last()).insert(s.last().0@, s.last().1@)
    }
}

/// A math environment: named variables and the last evaluated value.
///
/// Create a blank environment with `MathContext::new()`, add variables
/// with `var_set()`, and evaluate lines with `eval()`.
pub struct MathContext {
    var_tab: Vec<(String, Integer)>,
    last: Integer,
}

impl View for MathContext {
    type V = CtxView;

    closed spec fn view(&self) -> CtxView {
        CtxView { vars: vars_map(self.var_tab@), last: self.last@ }
    }
}

/// The outcome of one mutating evaluation: the value, and the name it was
/// stored under, if any.
#[derive(Debug)]
pub struct Eval {
    pub value: Integer,
    pub var: Option<String>,
}

/// Relates an executable result to its specification-level counterpart.
pub open spec fn res_rel(r: Result<Integer, Error>, s: Result<int, ErrView>) -> bool {
    match (r, s) {
        (Ok(b), Ok(v)) => b@ == v,
        (Err(e), Err(ev)) => e@ == ev,
        _ => false,
    }
}

/// Evaluating one line of text against an environment: parse it, then
/// reduce the expression; the optional assignment target is handed back
/// with the value.
pub open spec fn spec_eval_line(s: Seq<char>, env: CtxView) -> Result<
    (Option<Seq<char>>, int),
    ErrView,
> {
    match spec_parse_line(s) {
        Err(f) => Err(ErrView::Parse { line: s, at: f.at, expected: f.expected }),
        Ok((t, slots)) => match seval_expr(slots, env) {
            Err(e) => Err(e),
            Ok(v) => Ok((t, v)),
        },
    }
}

/// Compares two strings character by character.
fn str_eq(a: &str, b: &str) -> (r: bool)
    ensures
        r == (a@ == b@),
{
    let la = a.unicode_len();
    let lb = b.unicode_len();
    if la != lb {
        return false;
    }
    let mut i: usize = 0;
    loop
        invariant
            i <= la,
            la == a@.len(),
            la == b@.len(),
            forall|m: int| 0 <= m < i ==> a@[m] == b@[m],
        ensures
            i == la,
            forall|m: int| 0 <= m < i ==> a@[m] == b@[m],
        decreases la - i,
    {
        if i >= la {
            break ;
        }
        let ca = a.get_char(i);
        let cb = b.get_char(i);
        if ca != cb {
            return false;
        }
        i = i + 1;
    }
    proof {
        assert(a@ =~= b@);
    }
    true
}

impl MathContext {
    /// Every binding in the table has a distinct name.
    pub closed spec fn wf(&self) -> bool {
        forall|i: int, j: int|
            0 <= i < j < self.var_tab@.len() ==> #[trigger] self.var_tab@[i].0@
                != #[trigger] self.var_tab@[j].0@
    }

    /// Creates a new math environment with a blank variable table and a
    /// last value of zero.
    pub fn new() -> (r: MathContext)
        ensures
            r.wf(),
            r@.vars == Map::<Seq<char>, int>::empty(),
            r@.last == 0,
    {
        MathContext { var_tab: Vec::new(), last: big_from_u64(0) }
    }

    /// Returns the result of the last (non-discarded) evaluation,
    /// initially zero.
    pub fn last(&self) -> (r: &Integer)
        ensures
            r@ == self@.last,
    {
        &self.last
    }

    /// Checks whether `name` is a valid variable name: ASCII alphanumeric
    /// and starting with a letter, or exactly the reserved name `_`.
    pub fn var_valid(name: &str) -> (r: bool)
        ensures
            r == spec_var_valid(name@),
    {
        let n = name.unicode_len();
        if n == 0 {
            proof {
                assert(name@ != seq!['_']);
            }
            return false;
        }
        let c0 = name.get_char(0);
        let u0 = c0 as u32;
        if (65 <= u0 && u0 <= 90) || (97 <= u0 && u0 <= 122) {
            let mut i: usize = 1;
            loop
                invariant
                    1 <= i <= n,
                    n == name@.len(),
                    forall|m: int| 0 <= m < i ==> crate::sem::is_alnum(#[trigger] name@[m]),
                ensures
                    i == n || !crate::sem::is_alnum(name@[i as int]),
                    forall|m: int| 0 <= m < i ==> crate::sem::is_alnum(#[trigger] name@[m]),
                decreases n - i,
            {
                if i >= n {
                    break ;
                }
                let c = name.get_char(i);
                let u = c as u32;
                if (65 <= u && u <= 90) || (97 <= u && u <= 122) || (48 <= u && u <= 57) {
                    i = i + 1;
                } else {
                    break ;
                }
            }
            if i == n {
                true
            } else {
                proof {
                    assert(!crate::sem::is_alnum(name@[i as int]));
                    assert(name@ != seq!['_']) by {
                        if name@ == seq!['_'] {
                            assert(name@[0] == '_');
                        }
                    }
                }
                false
            }
        } else {
            if n == 1 && u0 == 95 {
                proof {
                    assert(name@ =~= seq!['_']);
                }
                true
            } else {
                proof {
                    if name@ == seq!['_'] {
                        assert(name@.len() == 1 && name@[0] == '_');
                    }
                }
                false
            }
        }
    }

    /// The index of a binding with this name, if one exists.
    fn find_var(&self, name: &str) -> (r: Option<usize>)
        ensures
            match r {
                Some(i) => i < self.var_tab@.len() && self.var_tab@[i as int].0@ == name@,
                None => forall|m: int|
                    0 <= m < self.var_tab@.len() ==> #[trigger] self.var_tab@[m].0@ != name@,
            },
    {
        let mut i: usize = 0;
        let n = self.var_tab.len();
        loop
            invariant
                i <= n,
                n == self.var_tab@.len(),
                forall|m: int| 0 <= m < i ==> #[trigger] self.var_tab@[m].0@ != name@,
            ensures
                i == n,
                forall|m: int| 0 <= m < i ==> #[trigger] self.var_tab@[m].0@ != name@,
            decreases n - i,
        {
            if i >= n {
                break ;
            }
            if str_eq(self.var_tab[i].0.as_str(), name) {
                return Some(i);
            }
            i = i + 1;
        }
        None
    }

    /// Adds a variable to the environment, overwriting any previous value
    /// under the same name. Writing to the reserved name `_` is a silent
    /// no-op; an invalid name is rejected with `NotValidVar`.
    pub fn var_set(&mut self, name: String, value: Integer) -> (r: Result<(), Error>)
        requires
            old(self).wf(),
        ensures
            final(self).wf(),
            if name@ == seq!['_'] {
                r is Ok && final(self)@ == old(self)@
            } else if spec_var_valid(name@) {
                r is Ok && final(self)@.vars == old(self)@.vars.insert(name@, value@)
                    && final(self)@.last == old(self)@.last
            } else {
                (r matches Err(e) && e@ == ErrView::NotValidVar(name@)) && final(self)@ == old(self)@
            },
    {
        proof {
            reveal_strlit("_");
            assert("_"@ =~= seq!['_']);
        }
        if str_eq(name.as_str(), "_") {
            return Ok(());
        }
        if !Self::var_valid(name.as_str()) {
            return Err(Error::NotValidVar(name));
        }
        match self.find_var(name.as_str()) {
            Some(i) => {
                let ghost tab0 = self.var_tab@;
                self.var_tab.remove(i);
                self.var_tab.insert(i, (name, value));
                proof {
                    assert(self.var_tab@ =~= tab0.update(i as int, self.var_tab@[i as int]));
                    lemma_vars_map_update(tab0, i as int, self.var_tab@[i as int]);
                }
                Ok(())
            },
            None => {
                let ghost tab0 = self.var_tab@;
                self.var_tab.push((name, value));
                proof {
                    assert(self.var_tab@.drop_last() =~= tab0);
                }
                Ok(())
            },
        }
    }

    /// Retrieves a variable. The reserved name `_` always reads the last
    /// value; any other name reads the table, and unknown and invalid
    /// names alike are absent.
    pub fn var_get(&self, name: &str) -> (r: Option<&Integer>)
        requires
            self.wf(),
        ensures
            match r {
                Some(v) => spec_lookup(self@, name@) == Some(v@),
                None => spec_lookup(self@, name@) is None,
            },
    {
        proof {
            reveal_strlit("_");
            assert("_"@ =~= seq!['_']);
        }
        if str_eq(name, "_") {
            return Some(&self.last);
        }
        match self.find_var(name) {
            Some(i) => {
                proof {
                    lemma_vars_map_get(self.var_tab@, i as int);
                }
                Some(&self.var_tab[i].1)
            },
            None => {
                proof {
                    lemma_vars_map_keys(self.var_tab@);
                }
                None
            },
        }
    }
}

/// Applies one binary operator to two reduced operands.
fn apply_binop(op: Operator, l: &Integer, r: &Integer) -> (res: Result<Integer, Error>)
    ensures
        res_rel(res, spec_apply_op(op, l@, r@)),
{
    match op {
        Operator::Addition => Ok(big_add(l, r)),
        Operator::Subtraction => Ok(big_sub(l, r)),
        Operator::Multiplication => Ok(big_mul(l, r)),
        Operator::Division => {
            if big_is_zero(r) {
                Err(Error::DivideByZero)
            } else {
                Ok(big_div_trunc(l, r))
            }
        },
        Operator::Exponent => {
            if big_is_neg(r) {
                let a = big_neg(r);
                match big_to_u32(&a) {
                    Some(e) => {
                        let p = big_pow(l, e);
                        if big_is_zero(&p) {
                            Err(Error::DivideByZero)
                        } else {
                            let one = big_from_u64(1);
                            Ok(big_div_trunc(&one, &p))
                        }
                    },
                    None => Err(Error::ExponentOverflow(big_clone(r))),
                }
            } else {
                match big_to_u32(r) {
                    Some(e) => Ok(big_pow(l, e)),
                    None => Err(Error::ExponentOverflow(big_clone(r))),
                }
            }
        },
    }
}

/// Takes the nearest populated slot strictly left of `i`, leaving that
/// slot empty.
fn node_left(line: &mut Vec<Option<Node>>, i: usize) -> (r: Result<Node, Error>)
    requires
        i <= old(line)@.len(),
    ensures
        ({
            let items = slots_view(old(line)@);
            let li = left_index(items, i as int);
            &&& li < 0 ==> (r matches Err(e) && e@ == ErrView::Internal) && final(line)@ == old(line)@
            &&& li >= 0 ==> (r matches Ok(n) && items[li] == Some(node_view(n))) && slots_view(
                final(line)@,
            ) == items.update(li, None) && final(line)@.len() == old(line)@.len()
        }),
{
    let ghost items = slots_view(line@);
    let mut j: usize = i;
    loop
        invariant
            j <= i,
            i <= line@.len(),
            line@ == old(line)@,
            items == slots_view(line@),
            left_index(items, i as int) == left_index(items, j as int),
        decreases j,
    {
        if j == 0 {
            proof {
                assert(left_index(items, 0) == -1);
            }
            return Err(Error::InternalAstFailure);
        }
        j = j - 1;
        if line[j].is_some() {
            proof {
                assert(items[j as int] is Some);
                assert(left_index(items, j as int + 1) == j as int);
            }
            let ghost before = line@;
            let cur = line.remove(j);
            line.insert(j, None);
            proof {
                assert(line@ =~= before.update(j as int, None));
            }
            match cur {
                Some(nd) => {
                    proof {
                        assert(items[j as int] == Some(node_view(nd)));
                        assert(slots_view(line@) =~= items.update(j as int, None));
                    }
                    return Ok(nd);
                },
                None => {
                    proof {
                        assert(false);
                    }
                    return Err(Error::InternalAstFailure);
                },
            }
        }
        proof {
            assert(left_index(items, j as int + 1) == left_index(items, j as int));
        }
    }
}

/// Takes the nearest populated slot strictly right of `i`, leaving that
/// slot empty.
fn node_right(line: &mut Vec<Option<Node>>, i: usize) -> (r: Result<Node, Error>)
    requires
        i < old(line)@.len(),
    ensures
        ({
            let items = slots_view(old(line)@);
            let ri = right_index(items, i as int);
            &&& ri >= items.len() ==> (r matches Err(e) && e@ == ErrView::Internal) && final(line)@ == old(line)@
            &&& ri < items.len() ==> (r matches Ok(n) && items[ri] == Some(node_view(n)))
                && slots_view(final(line)@) == items.update(ri, None) && final(line)@.len() == old(line)@.len()
        }),
{
    let ghost items = slots_view(line@);
    let n = line.len();
    let mut j: usize = i + 1;
    loop
        invariant
            i < j,
            j <= n,
            n == line@.len(),
            line@ == old(line)@,
            items == slots_view(line@),
            right_index(items, i as int) == if j < n && items[j as int] is Some {
                j as int
            } else {
                right_index(items, j as int - 1)
            },
            forall|m: int| i < m < j ==> !(#[trigger] items[m] is Some),
        decreases n - j,
    {
        if j >= n {
            proof {
                assert(right_index(items, j as int - 1) == n as int);
                assert(right_index(items, i as int) == n as int);
            }
            return Err(Error::InternalAstFailure);
        }
        if line[j].is_some() {
            proof {
                assert(items[j as int] is Some);
                assert(right_index(items, i as int) == j as int);
            }
            let ghost before = line@;
            let cur = line.remove(j);
            line.insert(j, None);
            proof {
                assert(line@ =~= before.update(j as int, None));
            }
            match cur {
                Some(nd) => {
                    proof {
                        assert(items[j as int] == Some(node_view(nd)));
                        assert(slots_view(line@) =~= items.update(j as int, None));
                    }
                    return Ok(nd);
                },
                None => {
                    proof {
                        assert(false);
                    }
                    return Err(Error::InternalAstFailure);
                },
            }
        }
        proof {
            assert(right_index(items, j as int - 1) == right_index(items, j as int));
        }
        j = j + 1;
    }
}

/// After full reduction, takes the single remaining literal.
#[verifier::loop_isolation(false)]
fn finalize_slots(line: Vec<Option<Node>>) -> (r: Result<Integer, Error>)
    ensures
        res_rel(r, spec_finalize(slots_view(line@))),
{
    let ghost items = slots_view(line@);
    let mut work = line;
    let n = work.len();
    let mut cnt: usize = 0;
    let mut fp: usize = 0;
    let mut i: usize = 0;
    while i < n
        invariant
            i <= n,
            n == work@.len(),
            items == slots_view(work@),
            cnt as int == count_pop(items, i as int),
            cnt <= i,
            cnt >= 1 ==> fp < i && items[fp as int] is Some && fp as int == first_pop(items, 0),
        decreases n - i,
    {
        if work[i].is_some() {
            if cnt == 0 {
                fp = i;
                proof {
                    crate::sem::lemma_count_pop_zero(items, i as int);
                    crate::sem::lemma_first_pop_skip(items, i as int);
                    assert(first_pop(items, i as int) == i as int);
                }
            }
            cnt = cnt + 1;
        }
        i = i + 1;
    }
    if cnt == 1 {
        let cur = work.remove(fp);
        proof {
            assert(items[fp as int] == slots_view(work@.insert(fp as int, cur))[fp as int]);
        }
        match cur {
            Some(nd) => {
                let lit = matches!(&nd, Node::Literal(_));
                if lit {
                    match nd {
                        Node::Literal(v) => Ok(v),
                        _ => {
                            proof {
                                assert(false);
                            }
                            Err(Error::InternalAstFailure)
                        },
                    }
                } else {
                    Err(Error::InternalAstFailure)
                }
            },
            None => {
                proof {
                    assert(false);
                }
                Err(Error::InternalAstFailure)
            },
        }
    } else {
        Err(Error::InternalAstFailure)
    }
}

impl MathContext {
    /// The value of an already-flattened operand: a literal or a variable.
    fn flat_value(&self, n: Node) -> (r: Result<Integer, Error>)
        requires
            self.wf(),
        ensures
            res_rel(r, flat_val(node_view(n), self@)),
    {
        match n {
            Node::Literal(v) => Ok(v),
            Node::Variable(x) => match self.var_get(x.as_str()) {
                Some(v) => Ok(big_clone(v)),
                None => Err(Error::VarNotFound(x)),
            },
            _ => Err(Error::InternalAstFailure),
        }
    }

    /// One operator tier's left-to-right scan over the slots.
    #[verifier::loop_isolation(false)]
    fn tier_pass(&self, line: &mut Vec<Option<Node>>, t: Tier) -> (r: Result<(), Error>)
        requires
            self.wf(),
        ensures
            match stage_tier(slots_view(old(line)@), self@, t, 0) {
                Ok(its) => r is Ok && slots_view(final(line)@) == its,
                Err(e) => r matches Err(er) && er@ == e,
            },
    {
        let ghost env = self@;
        let ghost goal = stage_tier(slots_view(line@), env, t, 0);
        let n = line.len();
        let mut i: usize = 0;
        while i < n
            invariant
                self.wf(),
                env == self@,
                i <= n,
                n == line@.len(),
                stage_tier(slots_view(line@), env, t, i as int) == goal,
            decreases n - i,
        {
            let ghost items = slots_view(line@);
            let found = match &line[i] {
                Some(Node::Operator(o)) => Some(*o),
                _ => None,
            };
            let hit = match found {
                Some(o) => match t {
                    Tier::Pow => matches!(o, Operator::Exponent),
                    Tier::MulDiv => matches!(o, Operator::Multiplication | Operator::Division),
                    Tier::AddSub => matches!(o, Operator::Addition | Operator::Subtraction),
                },
                None => false,
            };
            proof {
                assert(hit == (items[i as int] matches Some(NodeV::Operator(op)) && in_tier(
                    op,
                    t,
                )));
            }
            if hit {
                let op = match found {
                    Some(o) => o,
                    None => Operator::Addition,
                };
                let ghost li = left_index(items, i as int);
                proof {
                    lemma_left_index(items, i as int);
                }
                let ln = match node_left(line, i) {
                    Ok(x) => x,
                    Err(e) => {
                        proof {
                            assert(stage_tier(items, env, t, i as int) == Err::<
                                Seq<Option<NodeV>>,
                                ErrView,
                            >(ErrView::Internal));
                        }
                        return Err(e);
                    },
                };
                let ghost lnv = node_view(ln);
                let ghost items1 = items.update(li, None);
                let lv = match self.flat_value(ln) {
                    Ok(v) => v,
                    Err(e) => {
                        proof {
                            assert(items[li] == Some(lnv));
                            assert(flat_val(items[li].unwrap(), env) == Err::<int, ErrView>(e@));
                            assert(stage_tier(items, env, t, i as int) == Err::<
                                Seq<Option<NodeV>>,
                                ErrView,
                            >(e@));
                        }
                        return Err(e);
                    },
                };
                let ghost ri = right_index(items, i as int);
                proof {
                    assert(flat_val(items[li].unwrap(), env) == Ok::<int, ErrView>(lv@));
                    lemma_right_index(items, i as int);
                    lemma_right_index(items1, i as int);
                    assert(forall|m: int| i < m < items.len() ==> items1[m] == #[trigger] items[m]);
                    assert(right_index(items1, i as int) == ri);
                }
                let rn = match node_right(line, i) {
                    Ok(x) => x,
                    Err(e) => {
                        proof {
                            assert(ri >= items.len());
                            assert(stage_tier(items, env, t, i as int) == Err::<
                                Seq<Option<NodeV>>,
                                ErrView,
                            >(ErrView::Internal));
                        }
                        return Err(e);
                    },
                };
                let ghost rnv = node_view(rn);
                let ghost items2 = items1.update(ri, None);
                let rv = match self.flat_value(rn) {
                    Ok(v) => v,
                    Err(e) => {
                        proof {
                            assert(items1[ri] == Some(rnv));
                            assert(items[ri] == Some(rnv));
                            assert(flat_val(items[ri].unwrap(), env) == Err::<int, ErrView>(e@));
                            assert(stage_tier(items, env, t, i as int) == Err::<
                                Seq<Option<NodeV>>,
                                ErrView,
                            >(e@));
                        }
                        return Err(e);
                    },
                };
                proof {
                    assert(items[ri] == Some(rnv));
                    assert(flat_val(items[ri].unwrap(), env) == Ok::<int, ErrView>(rv@));
                }
                let v = match apply_binop(op, &lv, &rv) {
                    Ok(v) => v,
                    Err(e) => {
                        proof {
                            assert(spec_apply_op(op, lv@, rv@) == Err::<int, ErrView>(e@));
                            assert(stage_tier(items, env, t, i as int) == Err::<
                                Seq<Option<NodeV>>,
                                ErrView,
                            >(e@));
                        }
                        return Err(e);
                    },
                };
                let ghost before = line@;
                line.remove(i);
                line.insert(i, Some(Node::Literal(v)));
                proof {
                    assert(line@ =~= before.update(i as int, Some(Node::Literal(v))));
                    assert(slots_view(line@) =~= items2.update(i as int, Some(NodeV::Literal(v@))));
                    assert(spec_apply_op(op, lv@, rv@) == Ok::<int, ErrView>(v@));
                    assert(stage_tier(items, env, t, i as int) == stage_tier(
                        slots_view(line@),
                        env,
                        t,
                        i as int + 1,
                    ));
                }
            } else {
                proof {
                    assert(stage_tier(items, env, t, i as int) == stage_tier(
                        items,
                        env,
                        t,
                        i as int + 1,
                    ));
                }
            }
            i = i + 1;
        }
        Ok(())
    }

    /// The residual scan resolving any slot that still holds a bare
    /// identifier.
    #[verifier::loop_isolation(false)]
    fn vars_pass(&self, line: &mut Vec<Option<Node>>) -> (r: Result<(), Error>)
        requires
            self.wf(),
        ensures
            match stage_vars(slots_view(old(line)@), self@, 0) {
                Ok(its) => r is Ok && slots_view(final(line)@) == its,
                Err(e) => r matches Err(er) && er@ == e,
            },
    {
        let ghost env = self@;
        let ghost goal = stage_vars(slots_view(line@), env, 0);
        let n = line.len();
        let mut i: usize = 0;
        while i < n
            invariant
                self.wf(),
                env == self@,
                i <= n,
                n == line@.len(),
                stage_vars(slots_view(line@), env, i as int) == goal,
            decreases n - i,
        {
            let ghost items = slots_view(line@);
            let name_opt = match &line[i] {
                Some(Node::Variable(x)) => Some(x.clone()),
                _ => None,
            };
            match name_opt {
                None => {
                    proof {
                        assert(!(items[i as int] matches Some(NodeV::Variable(x))));
                        assert(stage_vars(items, env, i as int) == stage_vars(
                            items,
                            env,
                            i as int + 1,
                        ));
                    }
                },
                Some(name) => {
                    proof {
                        assert(items[i as int] == Some(NodeV::Variable(name@)));
                    }
                    match self.var_get(name.as_str()) {
                        Some(v) => {
                            let lit = big_clone(v);
                            let ghost before = line@;
                            line.remove(i);
                            line.insert(i, Some(Node::Literal(lit)));
                            proof {
                                assert(line@ =~= before.update(
                                    i as int,
                                    Some(Node::Literal(lit)),
                                ));
                                assert(slots_view(line@) =~= items.update(
                                    i as int,
                                    Some(NodeV::Literal(lit@)),
                                ));
                                assert(stage_vars(items, env, i as int) == stage_vars(
                                    slots_view(line@),
                                    env,
                                    i as int + 1,
                                ));
                            }
                        },
                        None => {
                            proof {
                                assert(spec_lookup(env, name@) is None);
                                assert(stage_vars(items, env, i as int) == Err::<
                                    Seq<Option<NodeV>>,
                                    ErrView,
                                >(ErrView::VarNotFound(name@)));
                            }
                            return Err(Error::VarNotFound(name));
                        },
                    }
                },
            }
            i = i + 1;
        }
        Ok(())
    }

    /// Reduces an expression's slots to a single value by the ordered
    /// stages: groupings, exponentiation, multiplication and division,
    /// addition and subtraction, then residual identifiers.
    #[verifier::loop_isolation(false)]
    fn eval_expr(&self, slots: Vec<Option<Node>>) -> (r: Result<Integer, Error>)
        requires
            self.wf(),
        ensures
            res_rel(r, seval_expr(slots_view(slots@), self@)),
        decreases slots, 1int,
    {
        let ghost slots0 = slots;
        let ghost items0 = slots_view(slots@);
        let ghost env = self@;
        let mut work = slots;
        let n = work.len();
        let mut k: usize = 0;
        proof {
            assert(work@.subrange(0, 0) =~= Seq::<Option<Node>>::empty());
            assert(slots_view(work@.subrange(0, 0)) =~= Seq::<Option<NodeV>>::empty());
        }
        while k < n
            invariant
                self.wf(),
                env == self@,
                k <= n,
                n == work@.len(),
                n == slots0@.len(),
                items0 == slots_view(slots0@),
                forall|m: int| k <= m < n ==> work@[m] == slots0@[m],
                stage_group(items0, env, k as int) == Ok::<_, ErrView>(
                    slots_view(work@.subrange(0, k as int)),
                ),
            decreases n - k,
        {
            let ghost prefix = slots_view(work@.subrange(0, k as int));
            let ghost before = work@;
            let cur = work.remove(k);
            proof {
                assert(cur == slots0@[k as int]);
            }
            match cur {
                Some(nd) => {
                    let ghost ndv = node_view(nd);
                    proof {
                        assert(items0[k as int] == Some(ndv));
                    }
                    let grp = matches!(&nd, Node::Parenthetical(_) | Node::Negation(_));
                    if grp {
                        proof {
                            assert(ndv is Parenthetical || ndv is Negation);
                            assert(decreases_to!(slots0 => slots0@));
                            assert(decreases_to!(slots0@ => slots0@[k as int]));
                            assert(decreases_to!(slots0@[k as int] => nd));
                        }
                        match self.eval_ast(nd) {
                            Ok(v) => {
                                work.insert(k, Some(Node::Literal(v)));
                                proof {
                                    assert(snode_eval(ndv, env) == Ok::<int, ErrView>(v@));
                                    assert(stage_group(items0, env, k as int + 1) == Ok::<
                                        _,
                                        ErrView,
                                    >(prefix.push(Some(NodeV::Literal(v@)))));
                                    assert(work@ =~= before.update(
                                        k as int,
                                        Some(Node::Literal(v)),
                                    ));
                                    assert(work@.subrange(0, k as int + 1) =~= before.subrange(
                                        0,
                                        k as int,
                                    ).push(Some(Node::Literal(v))));
                                    assert(slots_view(work@.subrange(0, k as int + 1))
                                        =~= prefix.push(Some(NodeV::Literal(v@))));
                                }
                            },
                            Err(e) => {
                                proof {
                                    assert(snode_eval(ndv, env) == Err::<int, ErrView>(e@));
                                    assert(stage_group(items0, env, k as int + 1) == Err::<
                                        Seq<Option<NodeV>>,
                                        ErrView,
                                    >(e@));
                                    crate::sem::lemma_stage_group_err(
                                        items0,
                                        env,
                                        k as int + 1,
                                        n as int,
                                    );
                                    assert(items0.len() == n as int);
                                    assert(seval_expr(items0, env) == Err::<int, ErrView>(e@));
                                }
                                return Err(e);
                            },
                        }
                    } else {
                        proof {
                            assert(!(ndv is Parenthetical) && !(ndv is Negation));
                        }
                        work.insert(k, Some(nd));
                        proof {
                            assert(work@ =~= before);
                            assert(stage_group(items0, env, k as int + 1) == Ok::<_, ErrView>(
                                prefix.push(Some(ndv)),
                            ));
                            assert(work@.subrange(0, k as int + 1) =~= before.subrange(
                                0,
                                k as int,
                            ).push(work@[k as int]));
                            assert(slots_view(work@.subrange(0, k as int + 1)) =~= prefix.push(
                                Some(ndv),
                            ));
                        }
                    }
                },
                None => {
                    work.insert(k, None);
                    proof {
                        assert(items0[k as int] is None);
                        assert(stage_group(items0, env, k as int + 1) == Ok::<_, ErrView>(
                            prefix.push(None),
                        ));
                        assert(work@ =~= before);
                        assert(work@.subrange(0, k as int + 1) =~= before.subrange(
                            0,
                            k as int,
                        ).push(None));
                        assert(slots_view(work@.subrange(0, k as int + 1)) =~= prefix.push(None));
                    }
                },
            }
            k = k + 1;
        }
        let ghost w1 = slots_view(work@);
        proof {
            assert(work@.subrange(0, n as int) =~= work@);
            assert(items0.len() == n as int);
            assert(stage_group(items0, env, items0.len() as int) == Ok::<_, ErrView>(w1));
        }
        match self.tier_pass(&mut work, Tier::Pow) {
            Ok(_) => {},
            Err(e) => {
                proof {
                    assert(stage_tier(w1, env, Tier::Pow, 0) == Err::<Seq<Option<NodeV>>, ErrView>(
                        e@,
                    ));
                    assert(seval_expr(items0, env) == Err::<int, ErrView>(e@));
                }
                return Err(e);
            },
        }
        let ghost w2 = slots_view(work@);
        match self.tier_pass(&mut work, Tier::MulDiv) {
            Ok(_) => {},
            Err(e) => {
                proof {
                    assert(seval_expr(items0, env) == Err::<int, ErrView>(e@));
                }
                return Err(e);
            },
        }
        let ghost w3 = slots_view(work@);
        match self.tier_pass(&mut work, Tier::AddSub) {
            Ok(_) => {},
            Err(e) => {
                proof {
                    assert(seval_expr(items0, env) == Err::<int, ErrView>(e@));
                }
                return Err(e);
            },
        }
        let ghost w4 = slots_view(work@);
        match self.vars_pass(&mut work) {
            Ok(_) => {},
            Err(e) => {
                proof {
                    assert(seval_expr(items0, env) == Err::<int, ErrView>(e@));
                }
                return Err(e);
            },
        }
        let ghost w5 = slots_view(work@);
        proof {
            assert(seval_expr(items0, env) == spec_finalize(w5));
        }
                finalize_slots(work)
    }

    /// Reduces one node to a value against this environment, read-only.
    fn eval_ast(&self, ast: Node) -> (r: Result<Integer, Error>)
        requires
            self.wf(),
        ensures
            res_rel(r, snode_eval(node_view(ast), self@)),
        decreases ast, 2int,
    {
        match ast {
            Node::Main(_, body) => self.eval_ast(*body),
            Node::Variable(x) => match self.var_get(x.as_str()) {
                Some(v) => Ok(big_clone(v)),
                None => Err(Error::VarNotFound(x)),
            },
            Node::Lhs(_) => Err(Error::InternalAstFailure),
            Node::Operator(_) => Err(Error::InternalAstFailure),
            Node::Parenthetical(inner) => self.eval_ast(*inner),
            Node::Negation(inner) => match self.eval_ast(*inner) {
                Ok(v) => Ok(big_neg(&v)),
                Err(e) => Err(e),
            },
            Node::Literal(v) => Ok(v),
            Node::Expression(slots) => self.eval_expr(slots),
        }
    }

    /// Parses and reduces one line, without touching any state.
    fn eval_internal(&self, expr: &str) -> (r: Result<Eval, Error>)
        requires
            self.wf(),
        ensures
            match spec_eval_line(expr@, self@) {
                Ok(p) => r matches Ok(ev) && ev.value@ == p.1 && (match (ev.var, p.0) {
                    (Some(s), Some(tv)) => s@ == tv,
                    (None, None) => true,
                    _ => false,
                }),
                Err(e) => r matches Err(er) && er@ == e,
            },
    {
        let n = expr.unicode_len();
        let toks = match lex_line(expr) {
            Ok(t) => t,
            Err(f) => {
                return Err(
                    Error::ParseError { line: String::from_str(expr), parse_failure: f },
                );
            },
        };
        let ast = match p_line(&toks, n) {
            Ok(p) => p,
            Err(f) => {
                return Err(
                    Error::ParseError { line: String::from_str(expr), parse_failure: f },
                );
            },
        };
        match ast {
            Node::Main(lhs, body) => {
                let var = match lhs {
                    Some(bx) => match *bx {
                        Node::Lhs(x) => Some(x),
                        _ => {
                            proof {
                                assert(false);
                            }
                            return Err(Error::InternalAstFailure);
                        },
                    },
                    None => None,
                };
                let value = match self.eval_ast(*body) {
                    Ok(v) => v,
                    Err(e) => {
                        return Err(e);
                    },
                };
                Ok(Eval { value, var })
            },
            _ => {
                proof {
                    assert(false);
                }
                Err(Error::InternalAstFailure)
            },
        }
    }

    /// Evaluates one line, updating the last value and storing the result
    /// under the line's assignment target, if it has one. An assignment
    /// to the reserved name `_` is silently discarded and reported as no
    /// assignment; on any error, the environment is left unmodified.
    pub fn eval(&mut self, expr: &str) -> (r: Result<Eval, Error>)
        requires
            old(self).wf(),
        ensures
            final(self).wf(),
            match spec_eval_line(expr@, old(self)@) {
                Err(e) => (r matches Err(er) && er@ == e) && final(self)@ == old(self)@,
                Ok(p) => match p.0 {
                    Some(name) => if name == seq!['_'] {
                        (r matches Ok(ev) && ev.var is None && ev.value@ == p.1) && final(self)@.vars == old(self)@.vars && final(self)@.last == p.1
                    } else if spec_var_valid(name) {
                        (r matches Ok(ev) && (ev.var matches Some(nm) && nm@ == name)
                            && ev.value@ == p.1) && final(self)@.vars == old(self)@.vars.insert(
                            name,
                            p.1,
                        ) && final(self)@.last == p.1
                    } else {
                        (r matches Err(er) && er@ == ErrView::NotValidVar(name)) && final(self)@
                            == old(self)@
                    },
                    None => (r matches Ok(ev) && ev.var is None && ev.value@ == p.1) && final(self)@.vars == old(self)@.vars && final(self)@.last == p.1,
                },
            },
    {
        let res = self.eval_internal(expr);
        match res {
            Err(e) => Err(e),
            Ok(ev) => {
                let Eval { value, var } = ev;
                let mut var_out: Option<String> = None;
                match var {
                    Some(name) => {
                        proof {
                            reveal_strlit("_");
                            assert("_"@ =~= seq!['_']);
                        }
                        if !str_eq(name.as_str(), "_") {
                            let val2 = big_clone(&value);
                            let nm = name.clone();
                            match self.var_set(nm, val2) {
                                Ok(_) => {},
                                Err(e) => {
                                    return Err(e);
                                },
                            }
                            var_out = Some(name);
                        }
                    },
                    None => {},
                }
                self.last = big_clone(&value);
                Ok(Eval { value, var: var_out })
            },
        }
    }

    /// Evaluates one line and discards the outcome: the last value is not
    /// updated and any assignment target is ignored.
    pub fn eval_disregard(&self, expr: &str) -> (r: Result<Integer, Error>)
        requires
            self.wf(),
        ensures
            match spec_eval_line(expr@, self@) {
                Ok(p) => r matches Ok(b) && b@ == p.1,
                Err(e) => r matches Err(er) && er@ == e,
            },
    {
        match self.eval_internal(expr) {
            Ok(ev) => Ok(ev.value),
            Err(e) => Err(e),
        }
    }
}

/// A table's map contains exactly the names of its bindings.
proof fn lemma_vars_map_keys(s: Seq<(String, Integer)>)
    ensures
        forall|k: Seq<char>|
            #[trigger] vars_map(s).contains_key(k) <==> exists|i: int|
                0 <= i < s.len() && #[trigger] s[i].0@ == k,
    decreases s.len(),
{
    if s.len() > 0 {
        let st = s.drop_last();
        lemma_vars_map_keys(st);
        assert forall|k: Seq<char>| #[trigger] vars_map(s).contains_key(k) implies exists|i: int|
            0 <= i < s.len() && #[trigger] s[i].0@ == k by {
            if k == s.last().0@ {
                assert(s[s.len() - 1].0@ == k);
            } else {
                assert(vars_map(st).contains_key(k));
                let i = choose|i: int| 0 <= i < st.len() && #[trigger] st[i].0@ == k;
                assert(st[i] == s[i]);
                assert(s[i].0@ == k);
            }
        }
        assert forall|k: Seq<char>|
            (exists|i: int| 0 <= i < s.len() && #[trigger] s[i].0@ == k) implies #[trigger] vars_map(
            s,
        ).contains_key(k) by {
            let i = choose|i: int| 0 <= i < s.len() && #[trigger] s[i].0@ == k;
            if i < s.len() - 1 {
                assert(st[i] == s[i]);
                assert(st[i].0@ == k);
                assert(vars_map(st).contains_key(k));
            } else {
                assert(k == s.last().0@);
            }
        }
    }
}

/// With distinct names, the map's value for a binding's name is that
/// binding's value.
proof fn lemma_vars_map_get(s: Seq<(String, Integer)>, i: int)
    requires
        0 <= i < s.len(),
        forall|a: int, b: int| 0 <= a < b < s.len() ==> #[trigger] s[a].0@ != #[trigger] s[b].0@,
    ensures
        vars_map(s).contains_key(s[i].0@),
        vars_map(s)[s[i].0@] == s[i].1@,
    decreases s.len(),
{
    if i < s.len() - 1 {
        assert(s.drop_last()[i] == s[i]);
        lemma_vars_map_get(s.drop_last(), i);
        assert(s[i].0@ != s.last().0@);
    }
}

/// Overwriting a binding in place updates the map at that name alone.
proof fn lemma_vars_map_update(s: Seq<(String, Integer)>, i: int, p: (String, Integer))
    requires
        0 <= i < s.len(),
        forall|a: int, b: int| 0 <= a < b < s.len() ==> #[trigger] s[a].0@ != #[trigger] s[b].0@,
        p.0@ == s[i].0@,
    ensures
        vars_map(s.update(i, p)) == vars_map(s).insert(p.0@, p.1@),
    decreases s.len(),
{
    let su = s.update(i, p);
    if i == s.len() - 1 {
        assert(su.drop_last() =~= s.drop_last());
        assert(su.last() == p);
        assert(vars_map(s).insert(p.0@, p.1@) =~= vars_map(s.drop_last()).insert(p.0@, p.1@));
    } else {
        assert(su.drop_last() =~= s.drop_last().update(i, p));
        assert(s.drop_last()[i] == s[i]);
        lemma_vars_map_update(s.drop_last(), i, p);
        assert(su.last() == s.last());
        assert(s[i].0@ != s.last().0@);
        assert(vars_map(s.drop_last()).insert(p.0@, p.1@).insert(s.last().0@, s.last().1@)
            =~= vars_map(s.drop_last()).insert(s.last().0@, s.last().1@).insert(p.0@, p.1@));
    }
}

} // verus!
