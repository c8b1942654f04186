use eval::ast::{Expression, Operator};
use eval::fault::Fault;
use eval::input::Input;
use eval::parser::expression::{factor, integer, primary, term};

fn text(code: &str) -> Vec<char> {
    code.chars().collect()
}

fn literal(value: i64) -> Expression {
    Expression::Integer(value)
}

fn chain(first: Expression, others: Vec<(Operator, Expression)>) -> Expression {
    Expression::Binary { first: Box::new(first), others }
}

#[test]
fn integer_reads_a_literal() {
    let chars = text("12*3");
    let start = Input::new(&chars);
    assert_eq!(integer()(start), Some((literal(12), Input { text: &chars, pos: 2 })));
    assert_eq!(integer()(Input { text: &chars, pos: 2 }), None);
    let chars = text("9223372036854775808");
    assert_eq!(integer()(Input::new(&chars)).map(|m| m.0), Some(literal(i64::MIN)));
}

#[test]
fn primary_is_a_literal() {
    let chars = text("12*3");
    let start = Input::new(&chars);
    assert_eq!(primary()(start), Ok(Some((literal(12), Input { text: &chars, pos: 2 }))));
    assert_eq!(primary()(Input { text: &chars, pos: 2 }), Ok(None));
    assert_eq!(primary()(Input { text: &chars, pos: 4 }), Ok(None));
}

#[test]
fn factor_stops_before_a_plus() {
    let chars = text("2*3*4+5");
    let start = Input::new(&chars);
    assert_eq!(
        factor()(start),
        Ok(Some((
            chain(
                literal(2),
                vec![(Operator::Multiply, literal(3)), (Operator::Multiply, literal(4))]
            ),
            Input { text: &chars, pos: 5 }
        )))
    );
    assert_eq!(
        factor()(Input { text: &chars, pos: 6 }),
        Ok(Some((literal(5), Input { text: &chars, pos: 7 })))
    );
    assert_eq!(factor()(Input { text: &chars, pos: 5 }), Ok(None));
}

#[test]
fn term_takes_factors() {
    let chars = text("1+2*3+4)");
    let start = Input::new(&chars);
    assert_eq!(
        term()(start),
        Ok(Some((
            chain(
                literal(1),
                vec![
                    (Operator::Add, chain(literal(2), vec![(Operator::Multiply, literal(3))])),
                    (Operator::Add, literal(4)),
                ]
            ),
            Input { text: &chars, pos: 7 }
        )))
    );
}

#[test]
fn the_parser_is_the_term() {
    for code in ["", "7", "1+2*3", "2*", "2+x", "+", "12*34*56+78"] {
        let chars = text(code);
        let start = Input::new(&chars);
        assert_eq!(eval::parser::parser()(start), term()(start));
        assert_eq!(eval::parser::expression::parser()(start), term()(start));
    }
}

#[test]
fn a_missing_first_operand_is_no_match() {
    let chars = text("+2");
    let start = Input::new(&chars);
    assert_eq!(term()(start), Ok(None));
    assert_eq!(factor()(start), Ok(None));
    let empty = text("");
    assert_eq!(term()(Input::new(&empty)), Ok(None));
}

#[test]
fn a_missing_later_operand_is_a_fault() {
    let chars = text("2*+3");
    let start = Input::new(&chars);
    assert_eq!(factor()(start), Err(Fault::GrammarViolation { position: 2 }));
    assert_eq!(term()(start), Err(Fault::GrammarViolation { position: 2 }));
    let chars = text("1+2*");
    assert_eq!(term()(Input::new(&chars)), Err(Fault::GrammarViolation { position: 4 }));
    let chars = text("1+");
    assert_eq!(term()(Input::new(&chars)), Err(Fault::GrammarViolation { position: 2 }));
    let one = Ok(Some((literal(1), Input { text: &chars, pos: 1 })));
    assert_eq!(factor()(Input::new(&chars)), one);
}

#[test]
fn whitespace_is_not_skipped() {
    let chars = text("1 + 2");
    assert_eq!(term()(Input::new(&chars)), Ok(Some((literal(1), Input { text: &chars, pos: 1 }))));
}

#[test]
fn a_rule_can_be_run_again_on_the_same_cursor() {
    let chars = text("1+2*3+4");
    let start = Input::new(&chars);
    let rule = term();
    let first = rule(start);
    assert_eq!(first.as_ref().map(|m| m.as_ref().map(|m| m.1.pos)), Ok(Some(7)));
    assert_eq!(rule(start), first);
    assert_eq!(rule(start), first);
    let rule = factor();
    assert_eq!(rule(start), Ok(Some((literal(1), Input { text: &chars, pos: 1 }))));
    assert_eq!(rule(start), Ok(Some((literal(1), Input { text: &chars, pos: 1 }))));
    let later = Input { text: &chars, pos: 2 };
    let first = rule(later);
    assert_eq!(first.as_ref().map(|m| m.as_ref().map(|m| m.1.pos)), Ok(Some(5)));
    assert_eq!(rule(later), first);
}

#[test]
fn a_rule_serves_any_text() {
    let rule = eval::parser::parser();
    for (code, end) in [("1+2", 3), ("3*4*5", 5), ("6x", 1)] {
        let chars = text(code);
        let found = rule(Input::new(&chars));
        assert_eq!(found.map(|m| m.map(|m| m.1.pos)), Ok(Some(end)));
    }
}
