//! Postfix text: the alphabet, the parser and the serializer.

use vstd::prelude::*;
use vstd::string::StringExecFns;
use crate::error::MalformedFormula;
use crate::formula::{is_variable, Evaluator};

verus! {

/// The five connectives that take two operands.
pub open spec fn is_binary_operator(c: char) -> bool {
    c == '&' || c == '|' || c == '^' || c == '=' || c == '>'
}

/// A connective: `!`, which takes one operand, or a binary one.
pub open spec fn is_operator(c: char) -> bool {
    c == '!' || is_binary_operator(c)
}

/// The node that the binary connective `op` builds from two operands.
pub open spec fn binary_node(op: char, left: Evaluator, right: Evaluator) -> Evaluator
    recommends
        is_binary_operator(op),
{
    if op == '&' {
        Evaluator::And(Box::new(left), Box::new(right))
    } else if op == '|' {
        Evaluator::Or(Box::new(left), Box::new(right))
    } else if op == '^' {
        Evaluator::Xor(Box::new(left), Box::new(right))
    } else if op == '=' {
        Evaluator::Equivalence(Box::new(left), Box::new(right))
    } else {
        Evaluator::Conditional(Box::new(left), Box::new(right))
    }
}

/// The operand stack after one more character, or `None` where the
/// character is outside the alphabet or finds too few operands.
pub open spec fn parse_step(stack: Seq<Evaluator>, c: char) -> Option<Seq<Evaluator>> {
    if is_variable(c) {
        Some(stack.push(Evaluator::Variable(c)))
    } else if c == '!' {
        if stack.len() >= 1 {
            Some(stack.drop_last().push(Evaluator::Not(Box::new(stack.last()))))
        } else {
            None
        }
    } else if is_binary_operator(c) {
        if stack.len() >= 2 {
            Some(
                stack.take(stack.len() - 2).push(
                    binary_node(c, stack[stack.len() - 2], stack[stack.len() - 1]),
                ),
            )
        } else {
            None
        }
    } else {
        None
    }
}

/// The operand stack after the whole text, read from left to right.
pub open spec fn parse_stack(text: Seq<char>) -> Option<Seq<Evaluator>>
    decreases text.len(),
{
    if text.len() == 0 {
        Some(Seq::empty())
    } else {
        match parse_stack(text.drop_last()) {
            Some(stack) => parse_step(stack, text.last()),
            None => None,
        }
    }
}

/// The tree that a text denotes: the one operand that the text leaves on
/// the stack.  `None` where the text is malformed.
pub open spec fn parse_spec(text: Seq<char>) -> Option<Evaluator> {
    match parse_stack(text) {
        Some(stack) => if stack.len() == 1 {
            Some(stack[0])
        } else {
            None
        },
        None => None,
    }
}

/// Once a prefix of a text has failed, the text has failed.
pub proof fn lemma_parse_failure_persists(text: Seq<char>, n: int)
    requires
        0 <= n <= text.len(),
        parse_stack(text.take(n)) is None,
    ensures
        parse_stack(text) is None,
    decreases text.len(),
{
    if n == text.len() {
        assert(text.take(n) == text);
    } else {
        assert(text.drop_last().take(n) == text.take(n));
        lemma_parse_failure_persists(text.drop_last(), n);
    }
}

/// Every operand on the parser's stack is well formed.
pub proof fn lemma_parse_stack_well_formed(text: Seq<char>)
    requires
        parse_stack(text) is Some,
    ensures
        forall|i: int|
            0 <= i < parse_stack(text).unwrap().len() ==> (#[trigger] parse_stack(
                text,
            ).unwrap()[i]).well_formed(),
    decreases text.len(),
{
    if text.len() > 0 {
        lemma_parse_stack_well_formed(text.drop_last());
    }
}

impl Evaluator {
    /// The postfix text of the formula: the texts of the operands, left
    /// before right, then the connective.
    pub open spec fn postfix(self) -> Seq<char>
        decreases self,
    {
        match self {
            Evaluator::Variable(c) => seq![c],
            Evaluator::Not(a) => a.postfix().push('!'),
            Evaluator::And(a, b) => (a.postfix() + b.postfix()).push('&'),
            Evaluator::Or(a, b) => (a.postfix() + b.postfix()).push('|'),
            Evaluator::Xor(a, b) => (a.postfix() + b.postfix()).push('^'),
            Evaluator::Equivalence(a, b) => (a.postfix() + b.postfix()).push('='),
            Evaluator::Conditional(a, b) => (a.postfix() + b.postfix()).push('>'),
        }
    }

    /// Reading the postfix text of a well-formed formula after any text that
    /// parses puts that formula on top of the stack.
    pub proof fn lemma_parse_postfix(self, prefix: Seq<char>)
        requires
            self.well_formed(),
            parse_stack(prefix) is Some,
        ensures
            parse_stack(prefix + self.postfix()) == Some(parse_stack(prefix).unwrap().push(self)),
        decreases self,
    {
        let stack = parse_stack(prefix).unwrap();
        let text = prefix + self.postfix();
        match self {
            Evaluator::Variable(c) => {
                assert(text.drop_last() == prefix);
            },
            Evaluator::Not(a) => {
                a.lemma_parse_postfix(prefix);
                assert(text.drop_last() == prefix + a.postfix());
                assert(stack.push(*a).drop_last() == stack);
            },
            Evaluator::And(a, b)
            | Evaluator::Or(a, b)
            | Evaluator::Xor(a, b)
            | Evaluator::Equivalence(a, b)
            | Evaluator::Conditional(a, b) => {
                a.lemma_parse_postfix(prefix);
                b.lemma_parse_postfix(prefix + a.postfix());
                assert(text.drop_last() == (prefix + a.postfix()) + b.postfix());
                let full = stack.push(*a).push(*b);
                assert(full.take(full.len() - 2) == stack);
            },
        }
    }

    /// The round-trip law: the postfix text of a well-formed formula parses
    /// to that formula.
    pub proof fn lemma_round_trip(self)
        requires
            self.well_formed(),
        ensures
            parse_spec(self.postfix()) == Some(self),
    {
        self.lemma_parse_postfix(Seq::empty());
        assert(Seq::<char>::empty() + self.postfix() == self.postfix());
    }

    /// Parses a postfix formula.
    ///
    /// Succeeds exactly on the texts that `parse_spec` accepts, and returns
    /// the tree that it names; every other text is malformed.
    pub fn parse(formula: &str) -> (res: Result<Evaluator, MalformedFormula>)
        ensures
            match res {
                Ok(e) => parse_spec(formula@) == Some(e) && e.well_formed(),
                Err(_) => parse_spec(formula@) is None,
            },
    {
        let mut stack: Vec<Evaluator> = Vec::new();
        for c in it: formula.chars()
            invariant
                it.seq() == formula@,
                parse_stack(formula@.take(it.index())) == Some(stack@),
        {
            let ghost before = stack@;
            let ghost n = it.index();
            proof {
                assert(formula@.take(n + 1).drop_last() == formula@.take(n));
                assert(formula@.take(n + 1).last() == c);
            }
            if c >= 'A' && c <= 'Z' {
                stack.push(Evaluator::Variable(c));
            } else if c == '!' {
                match stack.pop() {
                    Some(operand) => {
                        stack.push(Evaluator::Not(Box::new(operand)));
                    },
                    None => {
                        proof {
                            lemma_parse_failure_persists(formula@, n + 1);
                        }
                        return Err(MalformedFormula);
                    },
                }
            } else if c == '&' || c == '|' || c == '^' || c == '=' || c == '>' {
                if stack.len() < 2 {
                    proof {
                        lemma_parse_failure_persists(formula@, n + 1);
                    }
                    return Err(MalformedFormula);
                }
                let right = stack.pop().unwrap();
                let left = stack.pop().unwrap();
                let node = if c == '&' {
                    Evaluator::And(Box::new(left), Box::new(right))
                } else if c == '|' {
                    Evaluator::Or(Box::new(left), Box::new(right))
                } else if c == '^' {
                    Evaluator::Xor(Box::new(left), Box::new(right))
                } else if c == '=' {
                    Evaluator::Equivalence(Box::new(left), Box::new(right))
                } else {
                    Evaluator::Conditional(Box::new(left), Box::new(right))
                };
                stack.push(node);
                proof {
                    assert(stack@ == before.take(before.len() - 2).push(
                        binary_node(c, before[before.len() - 2], before[before.len() - 1]),
                    ));
                }
            } else {
                proof {
                    lemma_parse_failure_persists(formula@, n + 1);
                }
                return Err(MalformedFormula);
            }
        }
        proof {
            assert(formula@.take(formula@.len() as int) == formula@);
            lemma_parse_stack_well_formed(formula@);
        }
        if stack.len() != 1 {
            return Err(MalformedFormula);
        }
        let root = stack.pop().unwrap();
        Ok(root)
    }

    /// Parses a postfix formula that is known to be well formed.
    pub fn new(formula: &str) -> (res: Evaluator)
        requires
            parse_spec(formula@) is Some,
        ensures
            parse_spec(formula@) == Some(res),
            res.well_formed(),
    {
        match Evaluator::parse(formula) {
            Ok(e) => e,
            Err(_) => vstd::pervasive::unreached(),
        }
    }

    /// Writes the formula as postfix text, the exact mirror of the tree.
    pub fn to_string(&self) -> (res: String)
        ensures
            res@ == self.postfix(),
        decreases self,
    {
        match self {
            Evaluator::Variable(c) => {
                let mut res = String::new();
                res.push(*c);
                proof {
                    assert(res@ == seq![*c]);
                }
                res
            },
            Evaluator::Not(operand) => {
                let mut res = operand.to_string();
                res.push('!');
                res
            },
            Evaluator::And(left, right) => {
                let mut res = left.to_string();
                let tail = right.to_string();
                res.append(tail.as_str());
                res.push('&');
                res
            },
            Evaluator::Or(left, right) => {
                let mut res = left.to_string();
                let tail = right.to_string();
                res.append(tail.as_str());
                res.push('|');
                res
            },
            Evaluator::Xor(left, right) => {
                let mut res = left.to_string();
                let tail = right.to_string();
                res.append(tail.as_str());
                res.push('^');
                res
            },
            Evaluator::Equivalence(left, right) => {
                let mut res = left.to_string();
                let tail = right.to_string();
                res.append(tail.as_str());
                res.push('=');
                res
            },
            Evaluator::Conditional(left, right) => {
                let mut res = left.to_string();
                let tail = right.to_string();
                res.append(tail.as_str());
                res.push('>');
                res
            },
        }
    }
}

} // verus!
