//! The expression tree and its meaning.

use vstd::prelude::*;

verus! {

/// A propositional formula as an owned tree.
///
/// Binary nodes hold their left operand first.  A `Variable` is a leaf; the
/// trees that the parser builds hold upper-case letters only, which
/// [`Evaluator::well_formed`] states.
#[derive(Debug, PartialEq, Eq)]
pub enum Evaluator {
    Variable(char),
    And(Box<Evaluator>, Box<Evaluator>),
    Or(Box<Evaluator>, Box<Evaluator>),
    Not(Box<Evaluator>),
    Xor(Box<Evaluator>, Box<Evaluator>),
    Equivalence(Box<Evaluator>, Box<Evaluator>),
    Conditional(Box<Evaluator>, Box<Evaluator>),
}

/// An assignment gives every variable a truth value.
pub type Assignment = spec_fn(char) -> bool;

/// The variables of a formula are the upper-case letters `A` to `Z`.
pub open spec fn is_variable(c: char) -> bool {
    'A' <= c <= 'Z'
}

impl Evaluator {
    /// The truth value of the formula when each variable `c` has the value
    /// `env(c)`.
    pub open spec fn eval(self, env: Assignment) -> bool
        decreases self,
    {
        match self {
            Evaluator::Variable(c) => env(c),
            Evaluator::Not(a) => !a.eval(env),
            Evaluator::And(a, b) => a.eval(env) && b.eval(env),
            Evaluator::Or(a, b) => a.eval(env) || b.eval(env),
            Evaluator::Xor(a, b) => a.eval(env) != b.eval(env),
            Evaluator::Equivalence(a, b) => a.eval(env) == b.eval(env),
            Evaluator::Conditional(a, b) => !a.eval(env) || b.eval(env),
        }
    }

    /// Every leaf is one of the 26 variables.
    pub open spec fn well_formed(self) -> bool
        decreases self,
    {
        match self {
            Evaluator::Variable(c) => is_variable(c),
            Evaluator::Not(a) => a.well_formed(),
            Evaluator::And(a, b)
            | Evaluator::Or(a, b)
            | Evaluator::Xor(a, b)
            | Evaluator::Equivalence(a, b)
            | Evaluator::Conditional(a, b) => a.well_formed() && b.well_formed(),
        }
    }

    /// The set of variables that occur in the formula.
    pub open spec fn variables(self) -> Set<char>
        decreases self,
    {
        match self {
            Evaluator::Variable(c) => set![c],
            Evaluator::Not(a) => a.variables(),
            Evaluator::And(a, b)
            | Evaluator::Or(a, b)
            | Evaluator::Xor(a, b)
            | Evaluator::Equivalence(a, b)
            | Evaluator::Conditional(a, b) => a.variables().union(b.variables()),
        }
    }

    /// The number of nodes of the tree.
    pub open spec fn size(self) -> nat
        decreases self,
    {
        match self {
            Evaluator::Variable(_) => 1,
            Evaluator::Not(a) => 1 + a.size(),
            Evaluator::And(a, b)
            | Evaluator::Or(a, b)
            | Evaluator::Xor(a, b)
            | Evaluator::Equivalence(a, b)
            | Evaluator::Conditional(a, b) => 1 + a.size() + b.size(),
        }
    }

    /// The number of leaves of the tree.
    pub open spec fn leaves(self) -> nat
        decreases self,
    {
        match self {
            Evaluator::Variable(_) => 1,
            Evaluator::Not(a) => a.leaves(),
            Evaluator::And(a, b)
            | Evaluator::Or(a, b)
            | Evaluator::Xor(a, b)
            | Evaluator::Equivalence(a, b)
            | Evaluator::Conditional(a, b) => a.leaves() + b.leaves(),
        }
    }

    /// The number of binary nodes of the tree.
    pub open spec fn binary_nodes(self) -> nat
        decreases self,
    {
        match self {
            Evaluator::Variable(_) => 0,
            Evaluator::Not(a) => a.binary_nodes(),
            Evaluator::And(a, b)
            | Evaluator::Or(a, b)
            | Evaluator::Xor(a, b)
            | Evaluator::Equivalence(a, b)
            | Evaluator::Conditional(a, b) => 1 + a.binary_nodes() + b.binary_nodes(),
        }
    }

    /// A tree with `n` leaves has `n - 1` binary nodes, however many
    /// negations it holds.
    pub proof fn lemma_leaf_count(self)
        ensures
            self.leaves() == self.binary_nodes() + 1,
        decreases self,
    {
        match self {
            Evaluator::Variable(_) => {},
            Evaluator::Not(a) => {
                a.lemma_leaf_count();
            },
            Evaluator::And(a, b)
            | Evaluator::Or(a, b)
            | Evaluator::Xor(a, b)
            | Evaluator::Equivalence(a, b)
            | Evaluator::Conditional(a, b) => {
                a.lemma_leaf_count();
                b.lemma_leaf_count();
            },
        }
    }

    /// Two assignments that agree on the variables of a formula give it the
    /// same value.
    pub proof fn lemma_eval_depends_on_variables(
        self,
        env1: Assignment,
        env2: Assignment,
    )
        requires
            forall|c: char| self.variables().contains(c) ==> #[trigger] env1(c) == env2(c),
        ensures
            self.eval(env1) == self.eval(env2),
        decreases self,
    {
        match self {
            Evaluator::Variable(c) => {
                assert(self.variables().contains(c));
            },
            Evaluator::Not(a) => {
                a.lemma_eval_depends_on_variables(env1, env2);
            },
            Evaluator::And(a, b)
            | Evaluator::Or(a, b)
            | Evaluator::Xor(a, b)
            | Evaluator::Equivalence(a, b)
            | Evaluator::Conditional(a, b) => {
                a.lemma_eval_depends_on_variables(env1, env2);
                b.lemma_eval_depends_on_variables(env1, env2);
            },
        }
    }

    /// A formula is well formed where each of its variables is an upper-case
    /// letter.
    pub proof fn lemma_well_formed_by_variables(self)
        ensures
            self.well_formed() == (forall|c: char| self.variables().contains(c) ==> is_variable(c)),
        decreases self,
    {
        match self {
            Evaluator::Variable(v) => {
                assert(self.variables().contains(v));
            },
            Evaluator::Not(a) => {
                a.lemma_well_formed_by_variables();
            },
            Evaluator::And(a, b)
            | Evaluator::Or(a, b)
            | Evaluator::Xor(a, b)
            | Evaluator::Equivalence(a, b)
            | Evaluator::Conditional(a, b) => {
                a.lemma_well_formed_by_variables();
                b.lemma_well_formed_by_variables();
            },
        }
    }
}

impl Clone for Evaluator {
    /// A deep copy: a tree equal to this one.
    fn clone(&self) -> (res: Self)
        ensures
            res == *self,
        decreases self,
    {
        match self {
            Evaluator::Variable(c) => Evaluator::Variable(*c),
            Evaluator::Not(a) => Evaluator::Not(Box::new((&**a).clone())),
            Evaluator::And(a, b) => Evaluator::And(
                Box::new((&**a).clone()),
                Box::new((&**b).clone()),
            ),
            Evaluator::Or(a, b) => Evaluator::Or(
                Box::new((&**a).clone()),
                Box::new((&**b).clone()),
            ),
            Evaluator::Xor(a, b) => Evaluator::Xor(
                Box::new((&**a).clone()),
                Box::new((&**b).clone()),
            ),
            Evaluator::Equivalence(a, b) => Evaluator::Equivalence(
                Box::new((&**a).clone()),
                Box::new((&**b).clone()),
            ),
            Evaluator::Conditional(a, b) => Evaluator::Conditional(
                Box::new((&**a).clone()),
                Box::new((&**b).clone()),
            ),
        }
    }
}

} // verus!
