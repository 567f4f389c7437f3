use boolean_evaluator::{is_satisfiable, truth_table, Evaluator};

#[test]
fn test_evaluator_to_string() {
    let formula = Evaluator::new("AB&C|");
    assert_eq!(formula.to_string(), "AB&C|");
}

#[test]
fn test_negation_normal_form_and_not() {
    let formula = Evaluator::new("AB&!");
    let nnf = formula.to_negation_normal_form();
    assert_eq!(nnf.to_string(), "A!B!|");
}

#[test]
fn test_negation_normal_form_or_not() {
    let formula = Evaluator::new("AB|!");
    let nnf = formula.to_negation_normal_form();
    assert_eq!(nnf.to_string(), "A!B!&");
}

#[test]
fn test_negation_normal_form_conditional() {
    let formula = Evaluator::new("AB>");
    let nnf = formula.to_negation_normal_form();
    assert_eq!(nnf.to_string(), "A!B|");
}

#[test]
fn test_negation_normal_form_equivalence() {
    let formula = Evaluator::new("AB=");
    let nnf = formula.to_negation_normal_form();
    assert_eq!(nnf.to_string(), "A!B|B!A|&");
}

#[test]
fn test_negation_normal_form_or_and_not() {
    let formula = Evaluator::new("AB|C&!");
    let nnf = formula.to_negation_normal_form();
    assert_eq!(nnf.to_string(), "A!B!&C!|");
}

#[test]
fn test_conjunctive_normal_form_and_not() {
    let formula = Evaluator::new("AB&!");
    let cnf = formula.to_conjunctive_normal_form();
    assert_eq!(cnf.to_string(), "A!B!|");
}

#[test]
fn test_conjunctive_normal_form_or_not() {
    let formula = Evaluator::new("AB|!");
    let cnf = formula.to_conjunctive_normal_form();
    assert_eq!(cnf.to_string(), "A!B!&");
}

#[test]
fn test_conjunctive_normal_form_or_and() {
    let formula = Evaluator::new("AB|C&");
    let cnf = formula.to_conjunctive_normal_form();
    assert_eq!(cnf.to_string(), "AB|C&");
}

#[test]
fn test_conjunctive_normal_form_multiple_or() {
    let formula = Evaluator::new("AB|C|D|");
    let cnf = formula.to_conjunctive_normal_form();
    assert_eq!(cnf.to_string(), "AB|C|D|");
}

#[test]
fn test_conjunctive_normal_form_multiple_and() {
    let formula = Evaluator::new("AB&C&D&");
    let cnf = formula.to_conjunctive_normal_form();
    assert_eq!(cnf.to_string(), "AB&C&D&");
}

#[test]
fn test_conjunctive_normal_form_and_not_or() {
    let formula = Evaluator::new("AB&!C!|");
    let cnf = formula.to_conjunctive_normal_form();
    assert_eq!(cnf.to_string(), "A!B!|C!|");
}

#[test]
fn test_conjunctive_normal_form_or_not_and() {
    let formula = Evaluator::new("AB|!C!&");
    let cnf = formula.to_conjunctive_normal_form();
    assert_eq!(cnf.to_string(), "A!B!&C!&");
}

fn is_literal(e: &Evaluator) -> bool {
    match e {
        Evaluator::Variable(_) => true,
        Evaluator::Not(inner) => matches!(**inner, Evaluator::Variable(_)),
        _ => false,
    }
}

fn is_nnf(e: &Evaluator) -> bool {
    match e {
        Evaluator::And(a, b) | Evaluator::Or(a, b) => is_nnf(a) && is_nnf(b),
        other => is_literal(other),
    }
}

fn is_clause(e: &Evaluator) -> bool {
    match e {
        Evaluator::Or(a, b) => is_clause(a) && is_clause(b),
        other => is_literal(other),
    }
}

fn is_cnf(e: &Evaluator) -> bool {
    match e {
        Evaluator::And(a, b) => is_cnf(a) && is_cnf(b),
        other => is_clause(other),
    }
}

fn results(text: &str) -> Vec<bool> {
    truth_table(text).unwrap().results
}

const SAMPLES: [&str; 16] = [
    "A",
    "A!",
    "A!!",
    "AB&",
    "AB|!",
    "AB^",
    "AB=",
    "AB>",
    "AB^!",
    "AB=!",
    "AB>!",
    "AB&C|",
    "ABC&|",
    "AB&CD&|",
    "AB^C=D>!",
    "AB|C&D!E^>",
];

#[test]
fn negation_normal_form_rewrites_each_connective() {
    assert_eq!(Evaluator::new("A").to_negation_normal_form().to_string(), "A");
    assert_eq!(Evaluator::new("A!").to_negation_normal_form().to_string(), "A!");
    assert_eq!(Evaluator::new("A!!").to_negation_normal_form().to_string(), "A");
    assert_eq!(Evaluator::new("A!!!").to_negation_normal_form().to_string(), "A!");
    assert_eq!(
        Evaluator::new("AB^").to_negation_normal_form().to_string(),
        "AB|A!B!|&"
    );
    assert_eq!(
        Evaluator::new("AB^!").to_negation_normal_form().to_string(),
        "A!B!&AB&|"
    );
    assert_eq!(
        Evaluator::new("AB=!").to_negation_normal_form().to_string(),
        "AB!&BA!&|"
    );
    assert_eq!(Evaluator::new("AB>!").to_negation_normal_form().to_string(), "AB!&");
}

#[test]
fn negation_normal_form_has_negations_on_variables_only() {
    for text in SAMPLES {
        let nnf = Evaluator::new(text).to_negation_normal_form();
        assert!(is_nnf(&nnf), "{}", text);
    }
}

#[test]
fn negation_normal_form_is_idempotent() {
    for text in SAMPLES {
        let once = Evaluator::new(text).to_negation_normal_form();
        let twice = once.to_negation_normal_form();
        assert_eq!(once, twice, "{}", text);
    }
}

#[test]
fn negation_normal_form_keeps_the_truth_table() {
    for text in SAMPLES {
        let nnf = Evaluator::new(text).to_negation_normal_form().to_string();
        assert_eq!(results(text), results(&nnf), "{}", text);
    }
}

#[test]
fn negation_normal_form_leaves_the_formula_as_it_was() {
    let formula = Evaluator::new("AB^!");
    let _ = formula.to_negation_normal_form();
    assert_eq!(formula, Evaluator::new("AB^!"));
}

#[test]
fn conjunctive_normal_form_distributes_or_over_and() {
    assert_eq!(
        Evaluator::new("AB&C|").to_conjunctive_normal_form().to_string(),
        "AC|BC|&"
    );
    assert_eq!(
        Evaluator::new("ABC&|").to_conjunctive_normal_form().to_string(),
        "AB|AC|&"
    );
    assert_eq!(
        Evaluator::new("AB&CD&|").to_conjunctive_normal_form().to_string(),
        "AC|AD|&BC|BD|&&"
    );
}

#[test]
fn conjunctive_normal_form_distributes_over_the_right_side() {
    assert_eq!(
        Evaluator::new("ABC&D&|").to_conjunctive_normal_form().to_string(),
        "AB|AC|&AD|&"
    );
    assert_eq!(
        Evaluator::new("AB|CD&|").to_conjunctive_normal_form().to_string(),
        "AB|C|AB|D|&"
    );
}

#[test]
fn conjunctive_normal_form_leaves_a_normal_form_unchanged() {
    for text in [
        "A", "A!", "AB|", "AB&", "AB|C&", "AB&C&D&", "ABCD&&&", "AB|C|D|", "ABCD|||", "AB|C&D&",
        "AB|C|D&", "A!B|C!D|&", "AB|CD|&EF|&",
    ] {
        let formula = Evaluator::new(text);
        assert_eq!(formula.to_conjunctive_normal_form(), formula, "{}", text);
    }
}

#[test]
fn conjunctive_normal_form_keeps_the_nesting_of_the_tree() {
    let a = || Box::new(Evaluator::Not(Box::new(Evaluator::Variable('A'))));
    let b = || Box::new(Evaluator::Not(Box::new(Evaluator::Variable('B'))));
    let c = || Box::new(Evaluator::Not(Box::new(Evaluator::Variable('C'))));
    assert_eq!(
        Evaluator::new("AB|!C!&").to_conjunctive_normal_form(),
        Evaluator::And(Box::new(Evaluator::And(a(), b())), c())
    );
    assert_eq!(
        Evaluator::new("AB&!C!|").to_conjunctive_normal_form(),
        Evaluator::Or(Box::new(Evaluator::Or(a(), b())), c())
    );
}

#[test]
fn conjunctive_normal_form_of_literals() {
    assert_eq!(Evaluator::new("A").to_conjunctive_normal_form().to_string(), "A");
    assert_eq!(Evaluator::new("A!").to_conjunctive_normal_form().to_string(), "A!");
    assert_eq!(Evaluator::new("A!!").to_conjunctive_normal_form().to_string(), "A");
}

#[test]
fn conjunctive_normal_form_of_derived_connectives() {
    assert_eq!(
        Evaluator::new("AB>").to_conjunctive_normal_form().to_string(),
        "A!B|"
    );
    assert_eq!(
        Evaluator::new("AB=").to_conjunctive_normal_form().to_string(),
        "A!B|B!A|&"
    );
    assert_eq!(
        Evaluator::new("AB^").to_conjunctive_normal_form().to_string(),
        "AB|A!B!|&"
    );
    assert_eq!(
        Evaluator::new("AB^!").to_conjunctive_normal_form().to_string(),
        "A!A|A!B|&B!A|B!B|&&"
    );
}

#[test]
fn conjunctive_normal_form_is_a_conjunction_of_clauses() {
    for text in SAMPLES {
        let cnf = Evaluator::new(text).to_conjunctive_normal_form();
        assert!(is_cnf(&cnf), "{}", text);
    }
}

#[test]
fn conjunctive_normal_form_is_idempotent() {
    for text in SAMPLES {
        let once = Evaluator::new(text).to_conjunctive_normal_form();
        let twice = once.to_conjunctive_normal_form();
        assert_eq!(once, twice, "{}", text);
    }
}

#[test]
fn conjunctive_normal_form_keeps_the_truth_table() {
    for text in SAMPLES {
        let cnf = Evaluator::new(text).to_conjunctive_normal_form().to_string();
        assert_eq!(results(text), results(&cnf), "{}", text);
    }
}

#[test]
fn satisfiability_agrees_with_the_conjunctive_normal_form() {
    for text in SAMPLES.iter().chain(["AA!&", "AA^", "AB|", "AB&A!&"].iter()) {
        let cnf = Evaluator::new(text).to_conjunctive_normal_form().to_string();
        let by_rows = results(&cnf).iter().any(|row| *row);
        assert_eq!(is_satisfiable(text), Ok(by_rows), "{}", text);
    }
}
