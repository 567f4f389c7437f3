//! Negation normal form: only `&` and `|` remain, and `!` stands on variables
//! alone.

use vstd::prelude::*;
use crate::formula::{Assignment, Evaluator};
use crate::postfix::parse_spec;

verus! {

impl Evaluator {
    /// A variable or a negated variable.
    pub open spec fn is_literal(self) -> bool {
        match self {
            Evaluator::Variable(_) => true,
            Evaluator::Not(a) => *a is Variable,
            _ => false,
        }
    }

    /// The formula is in negation normal form: it is built from literals
    /// with `And` and `Or` alone.
    pub open spec fn is_nnf(self) -> bool
        decreases self,
    {
        match self {
            Evaluator::Variable(_) => true,
            Evaluator::Not(a) => *a is Variable,
            Evaluator::And(a, b) | Evaluator::Or(a, b) => a.is_nnf() && b.is_nnf(),
            _ => false,
        }
    }

    /// The negation of a formula in negation normal form, again in that
    /// form: literals flip, `And` and `Or` change places.
    pub open spec fn dual(self) -> Evaluator
        decreases self,
    {
        match self {
            Evaluator::Variable(c) => Evaluator::Not(Box::new(Evaluator::Variable(c))),
            Evaluator::Not(a) => *a,
            Evaluator::And(a, b) => Evaluator::Or(Box::new(a.dual()), Box::new(b.dual())),
            Evaluator::Or(a, b) => Evaluator::And(Box::new(a.dual()), Box::new(b.dual())),
            _ => self,
        }
    }

    /// The negation normal form of a formula.
    ///
    /// `a ^ b` becomes `(a | b) & (!a | !b)`, `a = b` becomes
    /// `(!a | b) & (!b | a)`, `a > b` becomes `!a | b`, and a negation is
    /// pushed down to the leaves.
    pub open spec fn spec_nnf(self) -> Evaluator
        decreases self,
    {
        match self {
            Evaluator::Variable(_) => self,
            Evaluator::Not(a) => a.spec_nnf().dual(),
            Evaluator::And(a, b) => Evaluator::And(
                Box::new(a.spec_nnf()),
                Box::new(b.spec_nnf()),
            ),
            Evaluator::Or(a, b) => Evaluator::Or(Box::new(a.spec_nnf()), Box::new(b.spec_nnf())),
            Evaluator::Xor(a, b) => Evaluator::And(
                Box::new(Evaluator::Or(Box::new(a.spec_nnf()), Box::new(b.spec_nnf()))),
                Box::new(
                    Evaluator::Or(Box::new(a.spec_nnf().dual()), Box::new(b.spec_nnf().dual())),
                ),
            ),
            Evaluator::Equivalence(a, b) => Evaluator::And(
                Box::new(Evaluator::Or(Box::new(a.spec_nnf().dual()), Box::new(b.spec_nnf()))),
                Box::new(Evaluator::Or(Box::new(b.spec_nnf().dual()), Box::new(a.spec_nnf()))),
            ),
            Evaluator::Conditional(a, b) => Evaluator::Or(
                Box::new(a.spec_nnf().dual()),
                Box::new(b.spec_nnf()),
            ),
        }
    }

    /// The number of leaves that the negation normal form will have.
    pub open spec fn nnf_leaves(self) -> nat
        decreases self,
    {
        match self {
            Evaluator::Variable(_) => 1,
            Evaluator::Not(a) => a.nnf_leaves(),
            Evaluator::And(a, b) | Evaluator::Or(a, b) | Evaluator::Conditional(a, b) => {
                a.nnf_leaves() + b.nnf_leaves()
            },
            Evaluator::Xor(a, b) | Evaluator::Equivalence(a, b) => 2 * (a.nnf_leaves()
                + b.nnf_leaves()),
        }
    }

    /// The number of `Xor`, `Equivalence` and `Conditional` nodes.
    pub open spec fn derived_nodes(self) -> nat
        decreases self,
    {
        match self {
            Evaluator::Variable(_) => 0,
            Evaluator::Not(a) => a.derived_nodes(),
            Evaluator::And(a, b) | Evaluator::Or(a, b) => a.derived_nodes() + b.derived_nodes(),
            Evaluator::Xor(a, b)
            | Evaluator::Equivalence(a, b)
            | Evaluator::Conditional(a, b) => 1 + a.derived_nodes() + b.derived_nodes(),
        }
    }

    /// The dual of a formula in negation normal form is in that form, has as
    /// many leaves, the same variables, and the opposite value under every
    /// assignment; the dual of the dual is the formula itself.
    pub proof fn lemma_dual(self)
        requires
            self.is_nnf(),
        ensures
            self.dual().is_nnf(),
            self.dual().dual() == self,
            self.dual().nnf_leaves() == self.nnf_leaves(),
            self.dual().variables() == self.variables(),
            self.dual().well_formed() == self.well_formed(),
            forall|env: Assignment| #[trigger] self.dual().eval(env) == !self.eval(env),
        decreases self,
    {
        match self {
            Evaluator::And(a, b) | Evaluator::Or(a, b) => {
                a.lemma_dual();
                b.lemma_dual();
                assert(self.dual().variables() =~= self.variables());
                assert forall|env: Assignment| #[trigger]
                    self.dual().eval(env) == !self.eval(env) by {
                    assert(a.dual().eval(env) == !a.eval(env));
                    assert(b.dual().eval(env) == !b.eval(env));
                }
            },
            Evaluator::Not(a) => {
                assert(a.dual() == self);
                assert(a.is_nnf());
                assert(a.nnf_leaves() == 1);
                assert(a.variables() == self.variables());
                assert(a.well_formed() == self.well_formed());
                assert forall|env: Assignment| #[trigger]
                    self.dual().eval(env) == !self.eval(env) by {
                    assert(a.eval(env) == !self.eval(env));
                }
            },
            Evaluator::Variable(c) => {
                let v = Evaluator::Variable(c);
                let d = Evaluator::Not(Box::new(v));
                assert(self.dual() == d);
                assert(d.dual() == v);
                assert(v.nnf_leaves() == 1);
                assert(d.nnf_leaves() == v.nnf_leaves());
                assert(d.variables() == v.variables());
                assert(d.well_formed() == v.well_formed());
                assert forall|env: Assignment| #[trigger] d.eval(env) == !self.eval(env) by {
                    assert(d.eval(env) == !v.eval(env));
                }
            },
            _ => {},
        }
    }

    /// A formula in negation normal form has no `Xor`, `Equivalence` or
    /// `Conditional` node and has `nnf_leaves` leaves.
    pub proof fn lemma_nnf_measures(self)
        requires
            self.is_nnf(),
        ensures
            self.derived_nodes() == 0,
            self.nnf_leaves() == self.leaves(),
            self.nnf_leaves() >= 1,
        decreases self,
    {
        match self {
            Evaluator::And(a, b) | Evaluator::Or(a, b) => {
                a.lemma_nnf_measures();
                b.lemma_nnf_measures();
            },
            Evaluator::Not(a) => {
                assert(a.derived_nodes() == 0);
                assert(a.nnf_leaves() == 1 && a.leaves() == 1);
            },
            _ => {},
        }
    }

    /// Every formula will have at least one leaf in negation normal form.
    pub proof fn lemma_nnf_leaves_positive(self)
        ensures
            self.nnf_leaves() >= 1,
        decreases self,
    {
        match self {
            Evaluator::Variable(_) => {},
            Evaluator::Not(a) => {
                a.lemma_nnf_leaves_positive();
            },
            Evaluator::And(a, b)
            | Evaluator::Or(a, b)
            | Evaluator::Xor(a, b)
            | Evaluator::Equivalence(a, b)
            | Evaluator::Conditional(a, b) => {
                a.lemma_nnf_leaves_positive();
                b.lemma_nnf_leaves_positive();
            },
        }
    }

    /// The shape law: the negation normal form of any formula is in negation
    /// normal form, so each of its `Not` nodes stands on a variable.  It has
    /// as many leaves as `nnf_leaves` foretells, and the variables of the
    /// formula.
    pub proof fn lemma_nnf_shape(self)
        ensures
            self.spec_nnf().is_nnf(),
            self.spec_nnf().nnf_leaves() == self.nnf_leaves(),
            self.spec_nnf().variables() == self.variables(),
            self.spec_nnf().well_formed() == self.well_formed(),
        decreases self,
    {
        reveal_with_fuel(Evaluator::is_nnf, 3);
        reveal_with_fuel(Evaluator::nnf_leaves, 3);
        reveal_with_fuel(Evaluator::well_formed, 3);
        reveal_with_fuel(Evaluator::variables, 3);
        match self {
            Evaluator::Variable(_) => {},
            Evaluator::Not(a) => {
                a.lemma_nnf_shape();
                a.spec_nnf().lemma_dual();
            },
            Evaluator::And(a, b)
            | Evaluator::Or(a, b)
            | Evaluator::Xor(a, b)
            | Evaluator::Equivalence(a, b)
            | Evaluator::Conditional(a, b) => {
                a.lemma_nnf_shape();
                b.lemma_nnf_shape();
                a.spec_nnf().lemma_dual();
                b.spec_nnf().lemma_dual();
                assert(self.spec_nnf().variables() =~= self.variables());
            },
        }
    }

    /// The soundness law: a formula and its negation normal form have the
    /// same value under every assignment.
    pub proof fn lemma_nnf_equivalent(self, env: Assignment)
        ensures
            self.spec_nnf().eval(env) == self.eval(env),
        decreases self,
    {
        match self {
            Evaluator::Variable(_) => {},
            Evaluator::Not(a) => {
                a.lemma_nnf_equivalent(env);
                a.lemma_nnf_shape();
                a.spec_nnf().lemma_dual();
                assert(a.spec_nnf().dual().eval(env) == !a.spec_nnf().eval(env));
            },
            Evaluator::And(a, b) | Evaluator::Or(a, b) => {
                a.lemma_nnf_equivalent(env);
                b.lemma_nnf_equivalent(env);
            },
            Evaluator::Xor(a, b) => {
                let (na, nb) = (a.spec_nnf(), b.spec_nnf());
                a.lemma_nnf_equivalent(env);
                b.lemma_nnf_equivalent(env);
                a.lemma_nnf_shape();
                b.lemma_nnf_shape();
                na.lemma_dual();
                nb.lemma_dual();
                assert(na.dual().eval(env) == !na.eval(env));
                assert(nb.dual().eval(env) == !nb.eval(env));
                let p = Evaluator::Or(Box::new(na), Box::new(nb));
                let q = Evaluator::Or(Box::new(na.dual()), Box::new(nb.dual()));
                assert(p.eval(env) == (na.eval(env) || nb.eval(env)));
                assert(q.eval(env) == (!na.eval(env) || !nb.eval(env)));
                assert(self.spec_nnf().eval(env) == (p.eval(env) && q.eval(env)));
            },
            Evaluator::Equivalence(a, b) => {
                let (na, nb) = (a.spec_nnf(), b.spec_nnf());
                a.lemma_nnf_equivalent(env);
                b.lemma_nnf_equivalent(env);
                a.lemma_nnf_shape();
                b.lemma_nnf_shape();
                na.lemma_dual();
                nb.lemma_dual();
                assert(na.dual().eval(env) == !na.eval(env));
                assert(nb.dual().eval(env) == !nb.eval(env));
                let p = Evaluator::Or(Box::new(na.dual()), Box::new(nb));
                let q = Evaluator::Or(Box::new(nb.dual()), Box::new(na));
                assert(p.eval(env) == (!na.eval(env) || nb.eval(env)));
                assert(q.eval(env) == (!nb.eval(env) || na.eval(env)));
                assert(self.spec_nnf().eval(env) == (p.eval(env) && q.eval(env)));
            },
            Evaluator::Conditional(a, b) => {
                let na = a.spec_nnf();
                a.lemma_nnf_equivalent(env);
                b.lemma_nnf_equivalent(env);
                a.lemma_nnf_shape();
                na.lemma_dual();
                assert(na.dual().eval(env) == !na.eval(env));
            },
        }
    }

    /// A formula that is in negation normal form is its own negation normal
    /// form.
    pub proof fn lemma_nnf_fixed_point(self)
        requires
            self.is_nnf(),
        ensures
            self.spec_nnf() == self,
        decreases self,
    {
        match self {
            Evaluator::And(a, b) | Evaluator::Or(a, b) => {
                a.lemma_nnf_fixed_point();
                b.lemma_nnf_fixed_point();
            },
            Evaluator::Not(a) => {
                assert(a.spec_nnf() == *a);
                assert(a.dual() == self);
            },
            _ => {},
        }
    }

    /// The idempotence law: normalising twice gives what normalising once
    /// gives.
    pub proof fn lemma_nnf_idempotent(self)
        ensures
            self.spec_nnf().spec_nnf() == self.spec_nnf(),
    {
        self.lemma_nnf_shape();
        self.spec_nnf().lemma_nnf_fixed_point();
    }

    /// The rewrite rules that `spec_nnf` obeys: a double negation falls
    /// away, a negation moves through `And` and `Or` by De Morgan's laws and
    /// through any other operand once that operand is normalised, and the
    /// three derived connectives are normalised as the `And`, `Or` and `Not`
    /// formulas that define them.
    pub proof fn lemma_nnf_rules(a: Evaluator, b: Evaluator)
        ensures
            Evaluator::Not(Box::new(Evaluator::Not(Box::new(a)))).spec_nnf() == a.spec_nnf(),
            Evaluator::Not(Box::new(Evaluator::And(Box::new(a), Box::new(b)))).spec_nnf()
                == Evaluator::Or(
                Box::new(Evaluator::Not(Box::new(a)).spec_nnf()),
                Box::new(Evaluator::Not(Box::new(b)).spec_nnf()),
            ),
            Evaluator::Not(Box::new(Evaluator::Or(Box::new(a), Box::new(b)))).spec_nnf()
                == Evaluator::And(
                Box::new(Evaluator::Not(Box::new(a)).spec_nnf()),
                Box::new(Evaluator::Not(Box::new(b)).spec_nnf()),
            ),
            Evaluator::Not(Box::new(a)).spec_nnf() == Evaluator::Not(
                Box::new(a.spec_nnf()),
            ).spec_nnf(),
            Evaluator::Xor(Box::new(a), Box::new(b)).spec_nnf() == Evaluator::And(
                Box::new(Evaluator::Or(Box::new(a.spec_nnf()), Box::new(b.spec_nnf()))),
                Box::new(
                    Evaluator::Not(
                        Box::new(
                            Evaluator::And(Box::new(a.spec_nnf()), Box::new(b.spec_nnf())),
                        ),
                    ),
                ),
            ).spec_nnf(),
            Evaluator::Equivalence(Box::new(a), Box::new(b)).spec_nnf() == Evaluator::And(
                Box::new(Evaluator::Conditional(Box::new(a), Box::new(b))),
                Box::new(Evaluator::Conditional(Box::new(b), Box::new(a))),
            ).spec_nnf(),
            Evaluator::Conditional(Box::new(a), Box::new(b)).spec_nnf() == Evaluator::Or(
                Box::new(Evaluator::Not(Box::new(a))),
                Box::new(b),
            ).spec_nnf(),
    {
        let (na, nb) = (a.spec_nnf(), b.spec_nnf());
        a.lemma_nnf_shape();
        b.lemma_nnf_shape();
        na.lemma_dual();
        nb.lemma_dual();
        na.lemma_nnf_fixed_point();
        nb.lemma_nnf_fixed_point();
        let not_a = Evaluator::Not(Box::new(a));
        let not_b = Evaluator::Not(Box::new(b));
        assert(not_a.spec_nnf() == na.dual());
        assert(not_b.spec_nnf() == nb.dual());
        assert(Evaluator::Not(Box::new(not_a)).spec_nnf() == na.dual().dual());
        let and_ab = Evaluator::And(Box::new(a), Box::new(b));
        let or_ab = Evaluator::Or(Box::new(a), Box::new(b));
        assert(and_ab.spec_nnf() == Evaluator::And(Box::new(na), Box::new(nb)));
        assert(or_ab.spec_nnf() == Evaluator::Or(Box::new(na), Box::new(nb)));
        assert(Evaluator::Not(Box::new(and_ab)).spec_nnf() == and_ab.spec_nnf().dual());
        assert(Evaluator::Not(Box::new(or_ab)).spec_nnf() == or_ab.spec_nnf().dual());
        assert(Evaluator::Not(Box::new(na)).spec_nnf() == na.spec_nnf().dual());
        let and_n = Evaluator::And(Box::new(na), Box::new(nb));
        let or_n = Evaluator::Or(Box::new(na), Box::new(nb));
        let not_and_n = Evaluator::Not(Box::new(and_n));
        assert(and_n.spec_nnf() == and_n);
        assert(or_n.spec_nnf() == or_n);
        assert(not_and_n.spec_nnf() == and_n.dual());
        assert(Evaluator::And(Box::new(or_n), Box::new(not_and_n)).spec_nnf() == Evaluator::And(
            Box::new(or_n.spec_nnf()),
            Box::new(not_and_n.spec_nnf()),
        ));
        let forward = Evaluator::Conditional(Box::new(a), Box::new(b));
        let backward = Evaluator::Conditional(Box::new(b), Box::new(a));
        assert(forward.spec_nnf() == Evaluator::Or(Box::new(na.dual()), Box::new(nb)));
        assert(backward.spec_nnf() == Evaluator::Or(Box::new(nb.dual()), Box::new(na)));
        assert(Evaluator::And(Box::new(forward), Box::new(backward)).spec_nnf() == Evaluator::And(
            Box::new(forward.spec_nnf()),
            Box::new(backward.spec_nnf()),
        ));
        assert(Evaluator::Or(Box::new(not_a), Box::new(b)).spec_nnf() == Evaluator::Or(
            Box::new(not_a.spec_nnf()),
            Box::new(nb),
        ));
    }

    /// Rewrites the formula into negation normal form.
    ///
    /// The result is `spec_nnf` of the formula.  It is in negation normal
    /// form, holds the same variables, and has the value of the formula under
    /// every assignment.
    pub fn to_negation_normal_form(&self) -> (res: Self)
        ensures
            res == self.spec_nnf(),
            res.is_nnf(),
            res.variables() == self.variables(),
            res.well_formed() == self.well_formed(),
            forall|env: Assignment| #[trigger] res.eval(env) == self.eval(env),
        decreases self.nnf_leaves(), self.derived_nodes(), self.size(),
    {
        proof {
            self.lemma_nnf_shape();
            assert forall|env: Assignment| #[trigger]
                self.spec_nnf().eval(env) == self.eval(env) by {
                self.lemma_nnf_equivalent(env);
            }
        }
        match self {
            Evaluator::Variable(_) => self.clone(),
            Evaluator::Not(inner) => {
                match &**inner {
                    Evaluator::Variable(_) => {
                        proof {
                            assert(inner.spec_nnf() == **inner);
                        }
                        self.clone()
                    },
                    Evaluator::Not(inner_inner) => {
                        // Double negation elimination.
                        proof {
                            inner_inner.lemma_nnf_shape();
                            inner_inner.spec_nnf().lemma_dual();
                            assert(inner.spec_nnf() == inner_inner.spec_nnf().dual());
                            assert(inner.nnf_leaves() == inner_inner.nnf_leaves());
                            assert(inner.derived_nodes() == inner_inner.derived_nodes());
                            assert(inner.size() == 1 + inner_inner.size());
                        }
                        inner_inner.to_negation_normal_form()
                    },
                    Evaluator::And(left, right) => {
                        // De Morgan's law for a conjunction.
                        let left_not = Evaluator::Not(Box::new((&**left).clone()));
                        let right_not = Evaluator::Not(Box::new((&**right).clone()));
                        proof {
                            left.lemma_nnf_leaves_positive();
                            right.lemma_nnf_leaves_positive();
                            assert(inner.nnf_leaves() == left.nnf_leaves() + right.nnf_leaves());
                            assert(left_not.nnf_leaves() == left.nnf_leaves());
                            assert(right_not.nnf_leaves() == right.nnf_leaves());
                            assert(left_not.spec_nnf() == left.spec_nnf().dual());
                            assert(right_not.spec_nnf() == right.spec_nnf().dual());
                            assert(inner.spec_nnf().dual() == Evaluator::Or(
                                Box::new(left.spec_nnf().dual()),
                                Box::new(right.spec_nnf().dual()),
                            ));
                        }
                        Evaluator::Or(
                            Box::new(left_not.to_negation_normal_form()),
                            Box::new(right_not.to_negation_normal_form()),
                        )
                    },
                    Evaluator::Or(left, right) => {
                        // De Morgan's law for a disjunction.
                        let left_not = Evaluator::Not(Box::new((&**left).clone()));
                        let right_not = Evaluator::Not(Box::new((&**right).clone()));
                        proof {
                            left.lemma_nnf_leaves_positive();
                            right.lemma_nnf_leaves_positive();
                            assert(inner.nnf_leaves() == left.nnf_leaves() + right.nnf_leaves());
                            assert(left_not.nnf_leaves() == left.nnf_leaves());
                            assert(right_not.nnf_leaves() == right.nnf_leaves());
                            assert(left_not.spec_nnf() == left.spec_nnf().dual());
                            assert(right_not.spec_nnf() == right.spec_nnf().dual());
                            assert(inner.spec_nnf().dual() == Evaluator::And(
                                Box::new(left.spec_nnf().dual()),
                                Box::new(right.spec_nnf().dual()),
                            ));
                        }
                        Evaluator::And(
                            Box::new(left_not.to_negation_normal_form()),
                            Box::new(right_not.to_negation_normal_form()),
                        )
                    },
                    _ => {
                        // Normalise the operand, then push the negation
                        // through what came out.
                        let inner_nnf = inner.to_negation_normal_form();
                        let negated = Evaluator::Not(Box::new(inner_nnf));
                        proof {
                            inner.lemma_nnf_shape();
                            inner_nnf.lemma_nnf_measures();
                            inner_nnf.lemma_nnf_fixed_point();
                            assert(inner.derived_nodes() >= 1);
                            assert(negated.nnf_leaves() == inner_nnf.nnf_leaves());
                            assert(negated.derived_nodes() == inner_nnf.derived_nodes());
                            assert(negated.spec_nnf() == inner_nnf.spec_nnf().dual());
                        }
                        negated.to_negation_normal_form()
                    },
                }
            },
            Evaluator::And(left, right) => {
                proof {
                    left.lemma_nnf_leaves_positive();
                    right.lemma_nnf_leaves_positive();
                }
                let left_nnf = left.to_negation_normal_form();
                let right_nnf = right.to_negation_normal_form();
                Evaluator::And(Box::new(left_nnf), Box::new(right_nnf))
            },
            Evaluator::Or(left, right) => {
                proof {
                    left.lemma_nnf_leaves_positive();
                    right.lemma_nnf_leaves_positive();
                }
                let left_nnf = left.to_negation_normal_form();
                let right_nnf = right.to_negation_normal_form();
                Evaluator::Or(Box::new(left_nnf), Box::new(right_nnf))
            },
            Evaluator::Xor(left, right) => {
                // a ^ b is (a | b) & !(a & b).
                proof {
                    left.lemma_nnf_leaves_positive();
                    right.lemma_nnf_leaves_positive();
                }
                let left_nnf = left.to_negation_normal_form();
                let right_nnf = right.to_negation_normal_form();
                let or_part = Evaluator::Or(
                    Box::new(left_nnf.clone()),
                    Box::new(right_nnf.clone()),
                );
                let and_part = Evaluator::And(Box::new(left_nnf), Box::new(right_nnf));
                let not_and = Evaluator::Not(Box::new(and_part));
                proof {
                    left.lemma_nnf_shape();
                    right.lemma_nnf_shape();
                    left_nnf.lemma_nnf_fixed_point();
                    right_nnf.lemma_nnf_fixed_point();
                    assert(and_part.nnf_leaves() == left.nnf_leaves() + right.nnf_leaves());
                    assert(not_and.nnf_leaves() == and_part.nnf_leaves());
                    assert(and_part.spec_nnf() == and_part);
                    assert(not_and.spec_nnf() == and_part.dual());
                    assert(and_part.dual() == Evaluator::Or(
                        Box::new(left_nnf.dual()),
                        Box::new(right_nnf.dual()),
                    ));
                }
                Evaluator::And(Box::new(or_part), Box::new(not_and.to_negation_normal_form()))
            },
            Evaluator::Equivalence(left, right) => {
                // a = b is (a > b) & (b > a).
                proof {
                    left.lemma_nnf_leaves_positive();
                    right.lemma_nnf_leaves_positive();
                }
                let left_nnf = left.to_negation_normal_form();
                let right_nnf = right.to_negation_normal_form();
                let forward = Evaluator::Conditional(
                    Box::new(left_nnf.clone()),
                    Box::new(right_nnf.clone()),
                );
                let backward = Evaluator::Conditional(Box::new(right_nnf), Box::new(left_nnf));
                proof {
                    left.lemma_nnf_shape();
                    right.lemma_nnf_shape();
                    left_nnf.lemma_nnf_fixed_point();
                    right_nnf.lemma_nnf_fixed_point();
                    assert(forward.nnf_leaves() == left.nnf_leaves() + right.nnf_leaves());
                    assert(backward.nnf_leaves() == left.nnf_leaves() + right.nnf_leaves());
                    assert(forward.spec_nnf() == Evaluator::Or(
                        Box::new(left_nnf.dual()),
                        Box::new(right_nnf),
                    ));
                    assert(backward.spec_nnf() == Evaluator::Or(
                        Box::new(right_nnf.dual()),
                        Box::new(left_nnf),
                    ));
                }
                Evaluator::And(
                    Box::new(forward.to_negation_normal_form()),
                    Box::new(backward.to_negation_normal_form()),
                )
            },
            Evaluator::Conditional(left, right) => {
                // a > b is !a | b.
                proof {
                    left.lemma_nnf_leaves_positive();
                    right.lemma_nnf_leaves_positive();
                }
                let left_nnf = left.to_negation_normal_form();
                let right_nnf = right.to_negation_normal_form();
                let not_left = Evaluator::Not(Box::new(left_nnf));
                proof {
                    left.lemma_nnf_shape();
                    left_nnf.lemma_nnf_fixed_point();
                    assert(not_left.nnf_leaves() == left.nnf_leaves());
                    assert(not_left.spec_nnf() == left_nnf.dual());
                }
                Evaluator::Or(Box::new(not_left.to_negation_normal_form()), Box::new(right_nnf))
            },
        }
    }
}

/// Rewrites the text of a well-formed formula into the text of its negation
/// normal form.
pub fn negation_normal_form(formula: &str) -> (res: String)
    requires
        parse_spec(formula@) is Some,
    ensures
        res@ == parse_spec(formula@).unwrap().spec_nnf().postfix(),
{
    Evaluator::new(formula).to_negation_normal_form().to_string()
}

} // verus!
