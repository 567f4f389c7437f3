use boolean_evaluator::{
    evaluate, ground_format, is_satisfiable, rpn, rpn_format, sat, truth_table, MalformedFormula,
};

#[test]
fn test_rpn() {
    assert_eq!(rpn("1011||="), true);
    assert_eq!(rpn("1011||=0>"), false);
}

#[test]
fn test_sat_or() {
    assert_eq!(sat("AB|"), true);
}

#[test]
fn test_sat_and() {
    println!("{}", truth_table("AB&").unwrap().render());
    assert_eq!(sat("AB&"), true);
}

#[test]
fn test_sat_not_and() {
    assert_eq!(sat("AA!&"), false);
}

#[test]
fn test_sat_xor() {
    assert_eq!(sat("AA^"), false);
}

#[test]
fn evaluate_negation() {
    assert_eq!(evaluate("1!"), Ok(false));
    assert_eq!(evaluate("0!"), Ok(true));
    assert_eq!(evaluate("1!!"), Ok(true));
}

#[test]
fn evaluate_conjunction() {
    assert_eq!(evaluate("00&"), Ok(false));
    assert_eq!(evaluate("01&"), Ok(false));
    assert_eq!(evaluate("10&"), Ok(false));
    assert_eq!(evaluate("11&"), Ok(true));
}

#[test]
fn evaluate_disjunction() {
    assert_eq!(evaluate("00|"), Ok(false));
    assert_eq!(evaluate("01|"), Ok(true));
    assert_eq!(evaluate("10|"), Ok(true));
    assert_eq!(evaluate("11|"), Ok(true));
}

#[test]
fn evaluate_exclusive_or() {
    assert_eq!(evaluate("00^"), Ok(false));
    assert_eq!(evaluate("01^"), Ok(true));
    assert_eq!(evaluate("10^"), Ok(true));
    assert_eq!(evaluate("11^"), Ok(false));
}

#[test]
fn evaluate_conditional_takes_operands_in_push_order() {
    assert_eq!(evaluate("00>"), Ok(true));
    assert_eq!(evaluate("01>"), Ok(true));
    assert_eq!(evaluate("10>"), Ok(false));
    assert_eq!(evaluate("11>"), Ok(true));
}

#[test]
fn evaluate_equivalence() {
    assert_eq!(evaluate("00="), Ok(true));
    assert_eq!(evaluate("01="), Ok(false));
    assert_eq!(evaluate("10="), Ok(false));
    assert_eq!(evaluate("11="), Ok(true));
}

#[test]
fn evaluate_single_literal() {
    assert_eq!(evaluate("1"), Ok(true));
    assert_eq!(evaluate("0"), Ok(false));
}

#[test]
fn evaluate_rejects_unknown_character() {
    assert_eq!(evaluate("1A&"), Err(MalformedFormula));
    assert_eq!(evaluate("1 0&"), Err(MalformedFormula));
    assert_eq!(evaluate("12&"), Err(MalformedFormula));
}

#[test]
fn evaluate_rejects_too_few_operands() {
    assert_eq!(evaluate("1&"), Err(MalformedFormula));
    assert_eq!(evaluate("!"), Err(MalformedFormula));
    assert_eq!(evaluate("10&&"), Err(MalformedFormula));
}

#[test]
fn evaluate_rejects_leftover_operands() {
    assert_eq!(evaluate("10"), Err(MalformedFormula));
    assert_eq!(evaluate("101&"), Err(MalformedFormula));
    assert_eq!(evaluate(""), Err(MalformedFormula));
}

#[test]
fn rpn_format_accepts_variables_and_connectives_only() {
    assert_eq!(rpn_format("AB&C|!Z^Y=X>"), Ok(()));
    assert_eq!(rpn_format(""), Ok(()));
    assert_eq!(rpn_format("A&"), Ok(()));
    assert_eq!(rpn_format("A1&"), Err(MalformedFormula));
    assert_eq!(rpn_format("ab&"), Err(MalformedFormula));
    assert_eq!(rpn_format("A B&"), Err(MalformedFormula));
}

#[test]
fn ground_format_accepts_literals_and_connectives_only() {
    assert_eq!(ground_format("10&1|!0^1=0>"), Ok(()));
    assert_eq!(ground_format(""), Ok(()));
    assert_eq!(ground_format("1&"), Ok(()));
    assert_eq!(ground_format("1A&"), Err(MalformedFormula));
    assert_eq!(ground_format("12&"), Err(MalformedFormula));
    assert_eq!(ground_format("1 0&"), Err(MalformedFormula));
}

#[test]
fn truth_table_rows_count_up_with_the_first_variable_most_significant() {
    let table = truth_table("AB>").unwrap();
    assert_eq!(table.variables, vec!['A', 'B']);
    assert_eq!(table.results, vec![true, true, false, true]);
    assert!(table.satisfiable);
}

#[test]
fn truth_table_orders_variables_by_letter_not_by_occurrence() {
    let table = truth_table("BA>").unwrap();
    assert_eq!(table.variables, vec!['A', 'B']);
    assert_eq!(table.results, vec![true, false, true, true]);
}

#[test]
fn truth_table_lists_each_variable_once() {
    let table = truth_table("AA!&").unwrap();
    assert_eq!(table.variables, vec!['A']);
    assert_eq!(table.results, vec![false, false]);
    assert!(!table.satisfiable);
}

#[test]
fn truth_table_of_three_variables() {
    let table = truth_table("AB&C|").unwrap();
    assert_eq!(table.variables, vec!['A', 'B', 'C']);
    assert_eq!(
        table.results,
        vec![false, true, false, true, false, true, true, true]
    );
    assert!(table.satisfiable);
}

#[test]
fn truth_table_renders_header_and_rows() {
    let table = truth_table("AB&").unwrap();
    assert_eq!(
        table.render(),
        "| A | B | = |\n| 0 | 0 | 0 |\n| 0 | 1 | 0 |\n| 1 | 0 | 0 |\n| 1 | 1 | 1 |\n"
    );
}

#[test]
fn truth_table_rendering_leaves_the_table_as_it_was() {
    let table = truth_table("AB|").unwrap();
    let before = (table.variables.clone(), table.results.clone(), table.satisfiable);
    let _ = table.render();
    assert_eq!(before, (table.variables, table.results, table.satisfiable));
}

#[test]
fn truth_table_rejects_malformed_text() {
    assert!(matches!(truth_table("A1&"), Err(MalformedFormula)));
    assert!(matches!(truth_table("A&"), Err(MalformedFormula)));
    assert!(matches!(truth_table("AB"), Err(MalformedFormula)));
    assert!(matches!(truth_table(""), Err(MalformedFormula)));
    assert!(matches!(truth_table("10&"), Err(MalformedFormula)));
}

#[test]
fn is_satisfiable_concrete_cases() {
    assert_eq!(is_satisfiable("AA!&"), Ok(false));
    assert_eq!(is_satisfiable("AA^"), Ok(false));
    assert_eq!(is_satisfiable("AB|"), Ok(true));
    assert_eq!(is_satisfiable("AB&A!&"), Ok(false));
    assert_eq!(is_satisfiable("AB=AB^&"), Ok(false));
}

#[test]
fn is_satisfiable_rejects_malformed_text() {
    assert_eq!(is_satisfiable("AB&&"), Err(MalformedFormula));
    assert_eq!(is_satisfiable("A0|"), Err(MalformedFormula));
    assert_eq!(is_satisfiable("AB"), Err(MalformedFormula));
    assert_eq!(is_satisfiable(""), Err(MalformedFormula));
}

#[test]
fn is_satisfiable_over_all_twenty_six_variables_finds_the_first_row() {
    let mut formula = String::from("A!");
    for letter in 'B'..='Z' {
        formula.push(letter);
        formula.push('!');
        formula.push('&');
    }
    assert_eq!(is_satisfiable(&formula), Ok(true));
}
