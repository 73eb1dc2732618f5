//! Integer Expression Membership.
//!
//! An integer expression is built from positive atoms, unions and sums; it
//! denotes a set of integers. Decide whether a target belongs to that set. A
//! configuration picks a branch (0 = left, 1 = right) for every union node
//! met while evaluating the expression from left to right.
use crate::types::Or;
use crate::util::{all_below, check_all_below};
use vstd::prelude::*;

verus! {

/// An integer expression.
#[derive(Debug, PartialEq, Eq)]
pub enum IntExpr {
    /// A single positive integer.
    Atom(u64),
    /// The union of the two sets.
    Union(Box<IntExpr>, Box<IntExpr>),
    /// All sums of one element of each set.
    Sum(Box<IntExpr>, Box<IntExpr>),
}

impl Clone for IntExpr {
    fn clone(&self) -> (r: Self)
        ensures
            r == *self,
    {
        clone_expr(self)
    }
}

/// A deep copy of an expression.
fn clone_expr(e: &IntExpr) -> (r: IntExpr)
    ensures
        r == *e,
    decreases e,
{
    match e {
        IntExpr::Atom(n) => IntExpr::Atom(*n),
        IntExpr::Union(l, r) => IntExpr::Union(Box::new(clone_expr(l)), Box::new(clone_expr(r))),
        IntExpr::Sum(l, r) => IntExpr::Sum(Box::new(clone_expr(l)), Box::new(clone_expr(r))),
    }
}

/// Every atom is positive.
pub open spec fn atoms_positive(e: IntExpr) -> bool
    decreases e,
{
    match e {
        IntExpr::Atom(n) => n > 0,
        IntExpr::Union(l, r) => atoms_positive(*l) && atoms_positive(*r),
        IntExpr::Sum(l, r) => atoms_positive(*l) && atoms_positive(*r),
    }
}

/// Number of nodes.
pub open spec fn expr_size(e: IntExpr) -> nat
    decreases e,
{
    match e {
        IntExpr::Atom(_) => 1,
        IntExpr::Union(l, r) => 1 + expr_size(*l) + expr_size(*r),
        IntExpr::Sum(l, r) => 1 + expr_size(*l) + expr_size(*r),
    }
}

/// Number of union nodes.
pub open spec fn union_count(e: IntExpr) -> nat
    decreases e,
{
    match e {
        IntExpr::Atom(_) => 0,
        IntExpr::Union(l, r) => 1 + union_count(*l) + union_count(*r),
        IntExpr::Sum(l, r) => union_count(*l) + union_count(*r),
    }
}

/// Number of atoms.
pub open spec fn atom_count(e: IntExpr) -> nat
    decreases e,
{
    match e {
        IntExpr::Atom(_) => 1,
        IntExpr::Union(l, r) => atom_count(*l) + atom_count(*r),
        IntExpr::Sum(l, r) => atom_count(*l) + atom_count(*r),
    }
}

/// Length of the longest root-to-atom path.
pub open spec fn expr_depth(e: IntExpr) -> nat
    decreases e,
{
    match e {
        IntExpr::Atom(_) => 0,
        IntExpr::Union(l, r) => 1 + (if expr_depth(*l) >= expr_depth(*r) { expr_depth(*l) } else { expr_depth(*r) }),
        IntExpr::Sum(l, r) => 1 + (if expr_depth(*l) >= expr_depth(*r) { expr_depth(*l) } else { expr_depth(*r) }),
    }
}

/// Value chosen by `config` (reading branch choices from position `c` on)
/// and the position after the choices used; `None` when a choice is missing
/// or invalid or a sum exceeds `u64`.
pub open spec fn eval_expr(e: IntExpr, config: Seq<usize>, c: int) -> (Option<u64>, int)
    decreases e,
{
    match e {
        IntExpr::Atom(n) => (Some(n), c),
        IntExpr::Union(l, r) => if c < 0 || c >= config.len() {
            (None, c + 1)
        } else if config[c] == 0 {
            eval_expr(*l, config, c + 1)
        } else if config[c] == 1 {
            eval_expr(*r, config, c + 1)
        } else {
            (None, c + 1)
        },
        IntExpr::Sum(l, r) => {
            let (lv, c1) = eval_expr(*l, config, c);
            match lv {
                None => (None, c1),
                Some(a) => {
                    let (rv, c2) = eval_expr(*r, config, c1);
                    match rv {
                        None => (None, c2),
                        Some(b) => (if a + b <= u64::MAX { Some((a + b) as u64) } else { None }, c2),
                    }
                },
            }
        },
    }
}

/// Evaluation uses at most as many choices as there are union nodes.
proof fn lemma_eval_counter(e: IntExpr, config: Seq<usize>, c: int)
    ensures
        c <= eval_expr(e, config, c).1 <= c + union_count(e),
    decreases e,
{
    match e {
        IntExpr::Atom(_) => {},
        IntExpr::Union(l, r) => {
            lemma_eval_counter(*l, config, c + 1);
            lemma_eval_counter(*r, config, c + 1);
        },
        IntExpr::Sum(l, r) => {
            lemma_eval_counter(*l, config, c);
            let c1 = eval_expr(*l, config, c).1;
            lemma_eval_counter(*r, config, c1);
        },
    }
}

/// Choices placed after the ones an evaluation reads do not change it.
proof fn lemma_eval_extend(e: IntExpr, config: Seq<usize>, extra: Seq<usize>, c: int)
    requires
        eval_expr(e, config, c).0 is Some,
    ensures
        eval_expr(e, config + extra, c) == eval_expr(e, config, c),
    decreases e,
{
    match e {
        IntExpr::Atom(_) => {},
        IntExpr::Union(l, r) => {
            assert((config + extra)[c] == config[c]);
            if config[c] == 0 {
                lemma_eval_extend(*l, config, extra, c + 1);
            } else {
                lemma_eval_extend(*r, config, extra, c + 1);
            }
        },
        IntExpr::Sum(l, r) => {
            lemma_eval_extend(*l, config, extra, c);
            let c1 = eval_expr(*l, config, c).1;
            lemma_eval_extend(*r, config, extra, c1);
        },
    }
}

/// Putting choices in front shifts where an evaluation reads, and nothing else.
proof fn lemma_eval_shift(e: IntExpr, pre: Seq<usize>, config: Seq<usize>, c: int)
    requires
        0 <= c,
    ensures
        eval_expr(e, pre + config, c + pre.len()).0 == eval_expr(e, config, c).0,
        eval_expr(e, pre + config, c + pre.len()).1 == eval_expr(e, config, c).1 + pre.len(),
    decreases e,
{
    match e {
        IntExpr::Atom(_) => {},
        IntExpr::Union(l, r) => {
            if c < config.len() {
                assert((pre + config)[c + pre.len()] == config[c]);
            }
            lemma_eval_shift(*l, pre, config, c + 1);
            lemma_eval_shift(*r, pre, config, c + 1);
        },
        IntExpr::Sum(l, r) => {
            lemma_eval_shift(*l, pre, config, c);
            lemma_eval_counter(*l, config, c);
            let c1 = eval_expr(*l, config, c).1;
            lemma_eval_shift(*r, pre, config, c1);
        },
    }
}

/// A union reads its own choice first: `0` followed by the choices of the
/// left operand evaluates as the left operand, `1` followed by the choices
/// of the right operand as the right operand.
pub proof fn lemma_union_reads_its_choice_first(l: IntExpr, r: IntExpr, config: Seq<usize>)
    ensures
        eval_expr(IntExpr::Union(Box::new(l), Box::new(r)), seq![0usize] + config, 0).0 == eval_expr(l, config, 0).0,
        eval_expr(IntExpr::Union(Box::new(l), Box::new(r)), seq![1usize] + config, 0).0 == eval_expr(r, config, 0).0,
{
    lemma_eval_shift(l, seq![0usize], config, 0);
    lemma_eval_shift(r, seq![1usize], config, 0);
    assert((seq![0usize] + config)[0] == 0);
    assert((seq![1usize] + config)[0] == 1);
}

/// In a sum the left operand's choices come first: if the choices `p` are
/// exactly those the left operand reads and `q` exactly those the right
/// operand reads, the sum over `p + q` reads all of them and adds the two
/// values.
pub proof fn lemma_sum_reads_left_then_right(l: IntExpr, r: IntExpr, p: Seq<usize>, q: Seq<usize>, a: u64, b: u64)
    requires
        eval_expr(l, p, 0) == (Some(a), p.len() as int),
        eval_expr(r, q, 0) == (Some(b), q.len() as int),
        a + b <= u64::MAX,
    ensures
        eval_expr(IntExpr::Sum(Box::new(l), Box::new(r)), p + q, 0) == (Some((a + b) as u64), (p.len() + q.len()) as int),
{
    lemma_eval_extend(l, p, q, 0);
    lemma_eval_shift(r, p, q, 0);
}

impl IntExpr {
    /// Whether every atom is positive.
    pub fn all_atoms_positive(&self) -> (r: bool)
        ensures
            r == atoms_positive(*self),
        decreases self,
    {
        match self {
            IntExpr::Atom(n) => *n > 0,
            IntExpr::Union(l, r) => l.all_atoms_positive() && r.all_atoms_positive(),
            IntExpr::Sum(l, r) => l.all_atoms_positive() && r.all_atoms_positive(),
        }
    }

    /// Number of nodes.
    pub fn size(&self) -> (r: usize)
        requires
            expr_size(*self) <= usize::MAX,
        ensures
            r == expr_size(*self),
        decreases self,
    {
        match self {
            IntExpr::Atom(_) => 1,
            IntExpr::Union(l, r) => 1 + l.size() + r.size(),
            IntExpr::Sum(l, r) => 1 + l.size() + r.size(),
        }
    }

    /// Number of union nodes.
    pub fn count_union_nodes(&self) -> (r: usize)
        requires
            union_count(*self) <= usize::MAX,
        ensures
            r == union_count(*self),
        decreases self,
    {
        match self {
            IntExpr::Atom(_) => 0,
            IntExpr::Union(l, r) => 1 + l.count_union_nodes() + r.count_union_nodes(),
            IntExpr::Sum(l, r) => l.count_union_nodes() + r.count_union_nodes(),
        }
    }

    /// Number of atoms.
    pub fn count_atoms(&self) -> (r: usize)
        requires
            atom_count(*self) <= usize::MAX,
        ensures
            r == atom_count(*self),
        decreases self,
    {
        match self {
            IntExpr::Atom(_) => 1,
            IntExpr::Union(l, r) => l.count_atoms() + r.count_atoms(),
            IntExpr::Sum(l, r) => l.count_atoms() + r.count_atoms(),
        }
    }

    /// Length of the longest root-to-atom path.
    pub fn depth(&self) -> (r: usize)
        requires
            expr_depth(*self) <= usize::MAX,
        ensures
            r == expr_depth(*self),
        decreases self,
    {
        match self {
            IntExpr::Atom(_) => 0,
            IntExpr::Union(l, r) => {
                let a = l.depth();
                let b = r.depth();
                1 + if a >= b { a } else { b }
            },
            IntExpr::Sum(l, r) => {
                let a = l.depth();
                let b = r.depth();
                1 + if a >= b { a } else { b }
            },
        }
    }

    fn evaluate_with_config(&self, config: &[usize], counter: &mut usize) -> (r: Option<u64>)
        requires
            *old(counter) + union_count(*self) <= usize::MAX,
        ensures
            (r, *final(counter) as int) == eval_expr(*self, config@, *old(counter) as int),
        decreases self,
    {
        proof {
            lemma_eval_counter(*self, config@, *counter as int);
        }
        match self {
            IntExpr::Atom(n) => Some(*n),
            IntExpr::Union(left, right) => {
                let idx = *counter;
                *counter = *counter + 1;
                if idx >= config.len() {
                    return None;
                }
                if config[idx] == 0 {
                    left.evaluate_with_config(config, counter)
                } else if config[idx] == 1 {
                    right.evaluate_with_config(config, counter)
                } else {
                    None
                }
            },
            IntExpr::Sum(left, right) => {
                proof {
                    lemma_eval_counter(**left, config@, *counter as int);
                }
                let l = match left.evaluate_with_config(config, counter) {
                    Some(v) => v,
                    None => {
                        return None;
                    },
                };
                let r = match right.evaluate_with_config(config, counter) {
                    Some(v) => v,
                    None => {
                        return None;
                    },
                };
                l.checked_add(r)
            },
        }
    }
}

/// Mathematical model of an [`IntegerExpressionMembership`] instance.
pub struct ExpressionMembershipView {
    pub expression: IntExpr,
    pub target: u64,
}

/// The configuration makes exactly one valid choice per union node and
/// selects an element of the expression's set equal to the target.
pub open spec fn selects_target(m: ExpressionMembershipView, config: Seq<usize>) -> bool {
    &&& config.len() == union_count(m.expression)
    &&& all_below(config, 2)
    &&& eval_expr(m.expression, config, 0).0 == Some(m.target)
}

/// The Integer Expression Membership problem.
#[derive(Debug, Clone)]
pub struct IntegerExpressionMembership {
    expression: IntExpr,
    target: u64,
}

impl View for IntegerExpressionMembership {
    type V = ExpressionMembershipView;

    closed spec fn view(&self) -> ExpressionMembershipView {
        ExpressionMembershipView { expression: self.expression, target: self.target }
    }
}

impl IntegerExpressionMembership {
    /// Create a new instance with a positive target and positive atoms.
    pub fn new(expression: IntExpr, target: u64) -> (r: Self)
        requires
            target > 0,
            atoms_positive(expression),
        ensures
            r@ == (ExpressionMembershipView { expression, target }),
    {
        IntegerExpressionMembership { expression, target }
    }

    /// Get the expression.
    pub fn expression(&self) -> (r: &IntExpr)
        ensures
            *r == self@.expression,
    {
        &self.expression
    }

    /// Get the target.
    pub fn target(&self) -> (r: u64)
        ensures
            r == self@.target,
    {
        self.target
    }

    /// Number of nodes of the expression.
    pub fn expression_size(&self) -> (r: usize)
        requires
            expr_size(self@.expression) <= usize::MAX,
        ensures
            r == expr_size(self@.expression),
    {
        self.expression.size()
    }

    /// Number of union nodes of the expression.
    pub fn num_union_nodes(&self) -> (r: usize)
        requires
            union_count(self@.expression) <= usize::MAX,
        ensures
            r == union_count(self@.expression),
    {
        self.expression.count_union_nodes()
    }

    /// Number of atoms of the expression.
    pub fn num_atoms(&self) -> (r: usize)
        requires
            atom_count(self@.expression) <= usize::MAX,
        ensures
            r == atom_count(self@.expression),
    {
        self.expression.count_atoms()
    }

    /// Depth of the expression.
    pub fn expression_depth(&self) -> (r: usize)
        requires
            expr_depth(self@.expression) <= usize::MAX,
        ensures
            r == expr_depth(self@.expression),
    {
        self.expression.depth()
    }

    /// The value the configuration selects, if its choices are usable.
    pub fn evaluate_config(&self, config: &[usize]) -> (r: Option<u64>)
        requires
            union_count(self@.expression) <= usize::MAX,
        ensures
            r == eval_expr(self@.expression, config@, 0).0,
    {
        let mut counter: usize = 0;
        self.expression.evaluate_with_config(config, &mut counter)
    }

    /// One binary variable per union node.
    pub fn dims(&self) -> (r: Vec<usize>)
        requires
            union_count(self@.expression) <= usize::MAX,
        ensures
            r@ == Seq::new(union_count(self@.expression), |i: int| 2usize),
    {
        crate::util::repeat_usize(2, self.num_union_nodes())
    }

    /// Whether the configuration selects the target.
    pub fn evaluate(&self, config: &[usize]) -> (r: Or)
        requires
            union_count(self@.expression) <= usize::MAX,
        ensures
            r == Or(selects_target(self@, config@)),
    {
        if config.len() != self.num_union_nodes() {
            return Or(false);
        }
        if !check_all_below(config, 2) {
            return Or(false);
        }
        match self.evaluate_config(config) {
            Some(value) => Or(value == self.target),
            None => Or(false),
        }
    }
}

} // verus!
