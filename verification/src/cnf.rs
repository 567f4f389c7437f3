//! Conjunctive normal form: a conjunction of disjunctions of literals.

use vstd::prelude::*;
use crate::formula::{Assignment, Evaluator};

verus! {

/// The disjunction of two conjunctive normal forms, with `Or` distributed
/// over `And`.
///
/// A conjunction on the left is taken apart first: `(p & q) | r` is
/// `(p | r) & (q | r)`.  Then one on the right: `l | (p & q)` is
/// `(l | p) & (l | q)`.  Where neither side is a conjunction the disjunction
/// stays as it is.
pub open spec fn join(l: Evaluator, r: Evaluator) -> Evaluator
    decreases l, r,
{
    match l {
        Evaluator::And(p, q) => Evaluator::And(Box::new(join(*p, r)), Box::new(join(*q, r))),
        _ => match r {
            Evaluator::And(p, q) => Evaluator::And(Box::new(join(l, *p)), Box::new(join(l, *q))),
            _ => Evaluator::Or(Box::new(l), Box::new(r)),
        },
    }
}

impl Evaluator {
    /// A disjunction of literals.
    pub open spec fn is_clause(self) -> bool
        decreases self,
    {
        match self {
            Evaluator::Or(a, b) => a.is_clause() && b.is_clause(),
            _ => self.is_literal(),
        }
    }

    /// A conjunction of clauses: the formula is in conjunctive normal form.
    pub open spec fn is_cnf(self) -> bool
        decreases self,
    {
        match self {
            Evaluator::And(a, b) => a.is_cnf() && b.is_cnf(),
            _ => self.is_clause(),
        }
    }

    /// What distributing `Or` over `And` makes of a formula in negation
    /// normal form.  A conjunction keeps its shape, a disjunction is the
    /// `join` of its two sides, a literal stays.
    pub open spec fn spec_distributed(self) -> Evaluator
        decreases self,
    {
        match self {
            Evaluator::And(a, b) => Evaluator::And(
                Box::new(a.spec_distributed()),
                Box::new(b.spec_distributed()),
            ),
            Evaluator::Or(a, b) => join(a.spec_distributed(), b.spec_distributed()),
            _ => self,
        }
    }

    /// The conjunctive normal form of a formula: its negation normal form
    /// with `Or` distributed over `And`.
    pub open spec fn spec_cnf(self) -> Evaluator {
        self.spec_nnf().spec_distributed()
    }

    /// The number of clauses that distributing will make: the sum over a
    /// conjunction, the product over a disjunction.
    pub open spec fn clause_count(self) -> nat
        decreases self,
    {
        match self {
            Evaluator::And(a, b) => a.clause_count() + b.clause_count(),
            Evaluator::Or(a, b) => a.clause_count() * b.clause_count(),
            _ => 1,
        }
    }

    /// 0 for a formula in negation normal form, 1 for any other.
    pub open spec fn nnf_rank(self) -> nat {
        if self.is_nnf() {
            0
        } else {
            1
        }
    }

    /// Every formula will have at least one clause.
    pub proof fn lemma_clause_count_positive(self)
        ensures
            self.clause_count() >= 1,
        decreases self,
    {
        match self {
            Evaluator::And(a, b) => {
                a.lemma_clause_count_positive();
                b.lemma_clause_count_positive();
            },
            Evaluator::Or(a, b) => {
                a.lemma_clause_count_positive();
                b.lemma_clause_count_positive();
                assert(a.clause_count() * b.clause_count() >= 1) by (nonlinear_arith)
                    requires
                        a.clause_count() >= 1,
                        b.clause_count() >= 1,
                ;
            },
            _ => {},
        }
    }

    /// A clause is a conjunctive normal form, is no conjunction, and is in
    /// negation normal form.
    pub proof fn lemma_clause_is_cnf(self)
        requires
            self.is_clause(),
        ensures
            self.is_cnf(),
            self.is_nnf(),
            !(self is And),
        decreases self,
    {
        match self {
            Evaluator::Or(a, b) => {
                a.lemma_clause_is_cnf();
                b.lemma_clause_is_cnf();
            },
            _ => {},
        }
    }

    /// A conjunctive normal form is in negation normal form.
    pub proof fn lemma_cnf_is_nnf(self)
        requires
            self.is_cnf(),
        ensures
            self.is_nnf(),
        decreases self,
    {
        match self {
            Evaluator::And(a, b) => {
                a.lemma_cnf_is_nnf();
                b.lemma_cnf_is_nnf();
            },
            _ => {
                self.lemma_clause_is_cnf();
            },
        }
    }
}

/// The join of two conjunctive normal forms is a conjunctive normal form.
pub proof fn lemma_join_is_cnf(l: Evaluator, r: Evaluator)
    requires
        l.is_cnf(),
        r.is_cnf(),
    ensures
        join(l, r).is_cnf(),
    decreases l, r,
{
    match l {
        Evaluator::And(p, q) => {
            lemma_join_is_cnf(*p, r);
            lemma_join_is_cnf(*q, r);
        },
        _ => {
            assert(l.is_clause());
            match r {
                Evaluator::And(p, q) => {
                    lemma_join_is_cnf(l, *p);
                    lemma_join_is_cnf(l, *q);
                },
                _ => {
                    assert(r.is_clause());
                    let both = Evaluator::Or(Box::new(l), Box::new(r));
                    assert(both.is_clause());
                    assert(both.is_cnf());
                },
            }
        },
    }
}

/// The join is true where one of its sides is: `Or` distributes over `And`.
pub proof fn lemma_join_eval(l: Evaluator, r: Evaluator, env: Assignment)
    ensures
        join(l, r).eval(env) == (l.eval(env) || r.eval(env)),
    decreases l, r,
{
    match l {
        Evaluator::And(p, q) => {
            lemma_join_eval(*p, r, env);
            lemma_join_eval(*q, r, env);
            assert(join(l, r).eval(env) == (join(*p, r).eval(env) && join(*q, r).eval(env)));
        },
        _ => {
            match r {
                Evaluator::And(p, q) => {
                    lemma_join_eval(l, *p, env);
                    lemma_join_eval(l, *q, env);
                    assert(join(l, r).eval(env) == (join(l, *p).eval(env) && join(l, *q).eval(
                        env,
                    )));
                },
                _ => {
                    let both = Evaluator::Or(Box::new(l), Box::new(r));
                    assert(both.eval(env) == (l.eval(env) || r.eval(env)));
                },
            }
        },
    }
}

/// The join holds the variables of both sides.
pub proof fn lemma_join_variables(l: Evaluator, r: Evaluator)
    ensures
        join(l, r).variables() == l.variables().union(r.variables()),
    decreases l, r,
{
    match l {
        Evaluator::And(p, q) => {
            lemma_join_variables(*p, r);
            lemma_join_variables(*q, r);
            assert(join(l, r).variables() == join(*p, r).variables().union(
                join(*q, r).variables(),
            ));
            assert(l.variables() == p.variables().union(q.variables()));
            assert(join(l, r).variables() =~= l.variables().union(r.variables()));
        },
        _ => {
            match r {
                Evaluator::And(p, q) => {
                    lemma_join_variables(l, *p);
                    lemma_join_variables(l, *q);
                    assert(join(l, r).variables() == join(l, *p).variables().union(
                        join(l, *q).variables(),
                    ));
                    assert(r.variables() == p.variables().union(q.variables()));
                    assert(join(l, r).variables() =~= l.variables().union(r.variables()));
                },
                _ => {
                    let both = Evaluator::Or(Box::new(l), Box::new(r));
                    assert(both.variables() == l.variables().union(r.variables()));
                },
            }
        },
    }
}

/// The join has a clause for each pair of clauses of its sides.
pub proof fn lemma_join_clause_count(l: Evaluator, r: Evaluator)
    ensures
        join(l, r).clause_count() == l.clause_count() * r.clause_count(),
    decreases l, r,
{
    let (nl, nr) = (l.clause_count(), r.clause_count());
    match l {
        Evaluator::And(p, q) => {
            let (np, nq) = (p.clause_count(), q.clause_count());
            lemma_join_clause_count(*p, r);
            lemma_join_clause_count(*q, r);
            assert(join(l, r).clause_count() == join(*p, r).clause_count() + join(
                *q,
                r,
            ).clause_count());
            assert(np * nr + nq * nr == (np + nq) * nr) by (nonlinear_arith);
        },
        _ => {
            match r {
                Evaluator::And(p, q) => {
                    let (np, nq) = (p.clause_count(), q.clause_count());
                    lemma_join_clause_count(l, *p);
                    lemma_join_clause_count(l, *q);
                    assert(join(l, r).clause_count() == join(l, *p).clause_count() + join(
                        l,
                        *q,
                    ).clause_count());
                    assert(nl * np + nl * nq == nl * (np + nq)) by (nonlinear_arith);
                },
                _ => {
                    let both = Evaluator::Or(Box::new(l), Box::new(r));
                    assert(both.clause_count() == nl * nr);
                },
            }
        },
    }
}

impl Evaluator {
    /// Distributing keeps the value under every assignment, the variables
    /// and the number of clauses, and turns a negation normal form into a
    /// conjunctive normal form.
    pub proof fn lemma_distributed(self)
        ensures
            forall|env: Assignment| #[trigger] self.spec_distributed().eval(env) == self.eval(env),
            self.spec_distributed().variables() == self.variables(),
            self.spec_distributed().clause_count() == self.clause_count(),
            self.is_nnf() ==> self.spec_distributed().is_cnf(),
        decreases self,
    {
        match self {
            Evaluator::And(a, b) => {
                a.lemma_distributed();
                b.lemma_distributed();
                let res = Evaluator::And(
                    Box::new(a.spec_distributed()),
                    Box::new(b.spec_distributed()),
                );
                assert(res.variables() == a.spec_distributed().variables().union(
                    b.spec_distributed().variables(),
                ));
                assert(res.clause_count() == a.spec_distributed().clause_count()
                    + b.spec_distributed().clause_count());
                assert forall|env: Assignment| #[trigger] res.eval(env) == self.eval(env) by {
                    assert(a.spec_distributed().eval(env) == a.eval(env));
                    assert(b.spec_distributed().eval(env) == b.eval(env));
                }
                if self.is_nnf() {
                    assert(res.is_cnf());
                }
            },
            Evaluator::Or(a, b) => {
                let (da, db) = (a.spec_distributed(), b.spec_distributed());
                a.lemma_distributed();
                b.lemma_distributed();
                lemma_join_variables(da, db);
                lemma_join_clause_count(da, db);
                assert forall|env: Assignment| #[trigger] join(da, db).eval(env) == self.eval(
                    env,
                ) by {
                    lemma_join_eval(da, db, env);
                    assert(da.eval(env) == a.eval(env));
                    assert(db.eval(env) == b.eval(env));
                }
                if self.is_nnf() {
                    lemma_join_is_cnf(da, db);
                }
            },
            _ => {
                if self.is_nnf() {
                    assert(self.is_clause());
                }
            },
        }
    }

    /// Distributing leaves a conjunctive normal form as it is.
    pub proof fn lemma_distributed_fixed_point(self)
        requires
            self.is_cnf(),
        ensures
            self.spec_distributed() == self,
        decreases self,
    {
        match self {
            Evaluator::And(a, b) => {
                a.lemma_distributed_fixed_point();
                b.lemma_distributed_fixed_point();
            },
            Evaluator::Or(a, b) => {
                a.lemma_clause_is_cnf();
                b.lemma_clause_is_cnf();
                a.lemma_distributed_fixed_point();
                b.lemma_distributed_fixed_point();
                assert(join(*a, *b) == self);
            },
            _ => {},
        }
    }

    /// The shape law: the conjunctive normal form of any formula is a
    /// conjunction of disjunctions of literals, and holds the variables of
    /// the formula.
    pub proof fn lemma_cnf_shape(self)
        ensures
            self.spec_cnf().is_cnf(),
            self.spec_cnf().variables() == self.variables(),
            self.spec_cnf().well_formed() == self.well_formed(),
    {
        self.lemma_nnf_shape();
        self.spec_nnf().lemma_distributed();
        self.lemma_well_formed_by_variables();
        self.spec_cnf().lemma_well_formed_by_variables();
    }

    /// The soundness law: a formula and its conjunctive normal form have the
    /// same value under every assignment.
    pub proof fn lemma_cnf_equivalent(self, env: Assignment)
        ensures
            self.spec_cnf().eval(env) == self.eval(env),
    {
        self.lemma_nnf_equivalent(env);
        self.spec_nnf().lemma_distributed();
        assert(self.spec_nnf().spec_distributed().eval(env) == self.spec_nnf().eval(env));
    }

    /// A formula that is in conjunctive normal form is its own conjunctive
    /// normal form, so normalising a second time changes nothing.
    pub proof fn lemma_cnf_fixed_point(self)
        ensures
            self.is_cnf() ==> self.spec_cnf() == self,
            self.spec_cnf().spec_cnf() == self.spec_cnf(),
    {
        if self.is_cnf() {
            self.lemma_cnf_is_nnf();
            self.lemma_nnf_fixed_point();
            self.lemma_distributed_fixed_point();
        }
        let cnf = self.spec_cnf();
        self.lemma_cnf_shape();
        cnf.lemma_cnf_is_nnf();
        cnf.lemma_nnf_fixed_point();
        cnf.lemma_distributed_fixed_point();
    }

    /// The rewrite rules that `spec_cnf` obeys.  A conjunction is the
    /// conjunction of the normal forms of its sides.  A disjunction is the
    /// join of the normal forms of its sides, and the join of two normal
    /// forms is the normal form of their disjunction.  A join with a
    /// conjunction on the left is the conjunction of the joins of its parts;
    /// so is one with a conjunction on the right where the left is none; a
    /// join of two formulas that are no conjunctions is their disjunction.
    pub proof fn lemma_cnf_rules(p: Evaluator, q: Evaluator, r: Evaluator)
        ensures
            Evaluator::And(Box::new(p), Box::new(q)).spec_cnf() == Evaluator::And(
                Box::new(p.spec_cnf()),
                Box::new(q.spec_cnf()),
            ),
            Evaluator::Or(Box::new(p), Box::new(q)).spec_cnf() == join(p.spec_cnf(), q.spec_cnf()),
            p.is_cnf() && q.is_cnf() ==> Evaluator::Or(Box::new(p), Box::new(q)).spec_cnf() == join(
                p,
                q,
            ),
            join(Evaluator::And(Box::new(p), Box::new(q)), r) == Evaluator::And(
                Box::new(join(p, r)),
                Box::new(join(q, r)),
            ),
            !(r is And) ==> join(r, Evaluator::And(Box::new(p), Box::new(q))) == Evaluator::And(
                Box::new(join(r, p)),
                Box::new(join(r, q)),
            ),
            !(p is And) && !(q is And) ==> join(p, q) == Evaluator::Or(Box::new(p), Box::new(q)),
    {
        let and_pq = Evaluator::And(Box::new(p), Box::new(q));
        let or_pq = Evaluator::Or(Box::new(p), Box::new(q));
        assert(and_pq.spec_nnf() == Evaluator::And(
            Box::new(p.spec_nnf()),
            Box::new(q.spec_nnf()),
        ));
        assert(or_pq.spec_nnf() == Evaluator::Or(Box::new(p.spec_nnf()), Box::new(q.spec_nnf())));
        assert(and_pq.spec_nnf().spec_distributed() == Evaluator::And(
            Box::new(p.spec_nnf().spec_distributed()),
            Box::new(q.spec_nnf().spec_distributed()),
        ));
        assert(or_pq.spec_nnf().spec_distributed() == join(
            p.spec_nnf().spec_distributed(),
            q.spec_nnf().spec_distributed(),
        ));
        if p.is_cnf() && q.is_cnf() {
            p.lemma_cnf_fixed_point();
            q.lemma_cnf_fixed_point();
        }
    }

    /// Distributes `Or` over `And` until no `And` stands below an `Or`.
    ///
    /// A formula that is not in negation normal form is first brought into
    /// it.  The result is `spec_distributed` of the formula's negation
    /// normal form.
    fn to_conjunctive_normal_form_callback(&self) -> (res: Self)
        ensures
            res == self.spec_nnf().spec_distributed(),
            res.is_cnf(),
        decreases self.nnf_rank(), self.clause_count(), self.size(),
    {
        proof {
            self.lemma_nnf_shape();
            self.spec_nnf().lemma_distributed();
        }
        match self {
            Evaluator::Variable(_) => self.clone(),
            Evaluator::Not(inner) => {
                match &**inner {
                    Evaluator::Variable(_) => {
                        proof {
                            self.lemma_nnf_fixed_point();
                        }
                        self.clone()
                    },
                    _ => {
                        let nnf = self.to_negation_normal_form();
                        proof {
                            nnf.lemma_nnf_fixed_point();
                        }
                        nnf.to_conjunctive_normal_form_callback()
                    },
                }
            },
            Evaluator::And(left, right) => {
                proof {
                    left.lemma_clause_count_positive();
                    right.lemma_clause_count_positive();
                }
                let left_cnf = left.to_conjunctive_normal_form_callback();
                let right_cnf = right.to_conjunctive_normal_form_callback();
                Evaluator::And(Box::new(left_cnf), Box::new(right_cnf))
            },
            Evaluator::Or(left, right) => {
                proof {
                    let (nl, nr) = (left.clause_count(), right.clause_count());
                    left.lemma_clause_count_positive();
                    right.lemma_clause_count_positive();
                    assert(nl <= nl * nr && nr <= nl * nr) by (nonlinear_arith)
                        requires
                            nl >= 1,
                            nr >= 1,
                    ;
                }
                let left_cnf = left.to_conjunctive_normal_form_callback();
                let right_cnf = right.to_conjunctive_normal_form_callback();
                proof {
                    left_cnf.lemma_cnf_is_nnf();
                    right_cnf.lemma_cnf_is_nnf();
                    left_cnf.lemma_distributed_fixed_point();
                    right_cnf.lemma_distributed_fixed_point();
                    right_cnf.lemma_clause_count_positive();
                    left.spec_nnf().lemma_distributed();
                    right.spec_nnf().lemma_distributed();
                    if self.is_nnf() {
                        left.lemma_nnf_fixed_point();
                        right.lemma_nnf_fixed_point();
                    }
                    assert(self.spec_nnf().spec_distributed() == join(left_cnf, right_cnf));
                }
                // Distribute the disjunction over a conjunction on either side.
                match &left_cnf {
                    Evaluator::And(a, b) => {
                        // (a & b) | c is (a | c) & (b | c).
                        let a_or_right = Evaluator::Or(
                            Box::new((&**a).clone()),
                            Box::new(right_cnf.clone()),
                        );
                        let b_or_right = Evaluator::Or(
                            Box::new((&**b).clone()),
                            Box::new(right_cnf),
                        );
                        proof {
                            let (na, nb, nr) = (
                                a.clause_count(),
                                b.clause_count(),
                                right_cnf.clause_count(),
                            );
                            a.lemma_clause_count_positive();
                            b.lemma_clause_count_positive();
                            a.lemma_cnf_is_nnf();
                            b.lemma_cnf_is_nnf();
                            a.lemma_distributed_fixed_point();
                            b.lemma_distributed_fixed_point();
                            assert(a_or_right.is_nnf() && b_or_right.is_nnf());
                            a_or_right.lemma_nnf_fixed_point();
                            b_or_right.lemma_nnf_fixed_point();
                            assert(a_or_right.clause_count() == na * nr);
                            assert(b_or_right.clause_count() == nb * nr);
                            assert(left_cnf.clause_count() == na + nb);
                            assert(na * nr < (na + nb) * nr && nb * nr < (na + nb) * nr)
                                by (nonlinear_arith)
                                requires
                                    na >= 1,
                                    nb >= 1,
                                    nr >= 1,
                            ;
                            assert(a_or_right.spec_distributed() == join(**a, right_cnf));
                            assert(b_or_right.spec_distributed() == join(**b, right_cnf));
                        }
                        Evaluator::And(
                            Box::new(a_or_right.to_conjunctive_normal_form_callback()),
                            Box::new(b_or_right.to_conjunctive_normal_form_callback()),
                        )
                    },
                    _ => {
                        match &right_cnf {
                            Evaluator::And(a, b) => {
                                // a | (b & c) is (a | b) & (a | c).
                                let left_or_a = Evaluator::Or(
                                    Box::new(left_cnf.clone()),
                                    Box::new((&**a).clone()),
                                );
                                let left_or_b = Evaluator::Or(
                                    Box::new(left_cnf),
                                    Box::new((&**b).clone()),
                                );
                                proof {
                                    let (nl, na, nb) = (
                                        left_cnf.clause_count(),
                                        a.clause_count(),
                                        b.clause_count(),
                                    );
                                    left_cnf.lemma_clause_count_positive();
                                    a.lemma_clause_count_positive();
                                    b.lemma_clause_count_positive();
                                    a.lemma_cnf_is_nnf();
                                    b.lemma_cnf_is_nnf();
                                    a.lemma_distributed_fixed_point();
                                    b.lemma_distributed_fixed_point();
                                    assert(left_or_a.is_nnf() && left_or_b.is_nnf());
                                    left_or_a.lemma_nnf_fixed_point();
                                    left_or_b.lemma_nnf_fixed_point();
                                    assert(left_or_a.clause_count() == nl * na);
                                    assert(left_or_b.clause_count() == nl * nb);
                                    assert(right_cnf.clause_count() == na + nb);
                                    assert(nl * na < nl * (na + nb) && nl * nb < nl * (na + nb))
                                        by (nonlinear_arith)
                                        requires
                                            nl >= 1,
                                            na >= 1,
                                            nb >= 1,
                                    ;
                                    assert(left_or_a.spec_distributed() == join(left_cnf, **a));
                                    assert(left_or_b.spec_distributed() == join(left_cnf, **b));
                                }
                                Evaluator::And(
                                    Box::new(left_or_a.to_conjunctive_normal_form_callback()),
                                    Box::new(left_or_b.to_conjunctive_normal_form_callback()),
                                )
                            },
                            _ => {
                                // No conjunction on either side.
                                Evaluator::Or(Box::new(left_cnf), Box::new(right_cnf))
                            },
                        }
                    },
                }
            },
            Evaluator::Xor(_, _) | Evaluator::Equivalence(_, _) | Evaluator::Conditional(_, _) => {
                let nnf = self.to_negation_normal_form();
                proof {
                    nnf.lemma_nnf_fixed_point();
                }
                nnf.to_conjunctive_normal_form_callback()
            },
        }
    }

    /// Rewrites the formula into conjunctive normal form.
    ///
    /// The result is the formula's negation normal form with `Or`
    /// distributed over `And`: a conjunction of disjunctions of literals that
    /// has the value of the formula under every assignment.  A formula that
    /// is in conjunctive normal form already comes back unchanged.
    pub fn to_conjunctive_normal_form(&self) -> (res: Self)
        ensures
            res == self.spec_nnf().spec_distributed(),
            res == self.spec_cnf(),
            self.is_cnf() ==> res == *self,
            res.is_cnf(),
            res.variables() == self.variables(),
            res.well_formed() == self.well_formed(),
            forall|env: Assignment| #[trigger] res.eval(env) == self.eval(env),
    {
        proof {
            self.lemma_cnf_shape();
            self.lemma_cnf_fixed_point();
            assert forall|env: Assignment| #[trigger]
                self.spec_cnf().eval(env) == self.eval(env) by {
                self.lemma_cnf_equivalent(env);
            }
        }
        let nnf = self.to_negation_normal_form();
        proof {
            nnf.lemma_nnf_fixed_point();
        }
        nnf.to_conjunctive_normal_form_callback()
    }
}

} // verus!
