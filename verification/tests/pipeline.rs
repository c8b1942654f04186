use eval::ast::{Expression, Operator};
use eval::fault::Fault;
use eval::vm::{Instruction, Module};
use eval::{build, compile, evaluate, exec, parse, Eval};

fn instructions(module: &Module) -> Vec<Instruction> {
    let mut all = Vec::new();
    let mut index = 0;
    while let Ok(instruction) = module.get(index) {
        all.push(*instruction);
        index += 1;
    }
    all
}

fn literal(value: i64) -> Expression {
    Expression::Integer(value)
}

fn chain(first: Expression, others: Vec<(Operator, Expression)>) -> Expression {
    Expression::Binary { first: Box::new(first), others }
}

#[test]
fn multiplication_binds_tighter_than_addition() {
    assert_eq!(evaluate("2+2*2"), Ok(6));
    assert_eq!(evaluate("2*2+2"), Ok(6));
    assert_eq!(evaluate("1+2*3+4"), Ok(11));
    assert_eq!("2+2*2".eval(), Ok(6));
}

#[test]
fn precedence_shows_in_the_tree() {
    assert_eq!(
        parse("2+2*2"),
        Ok(chain(
            literal(2),
            vec![(Operator::Add, chain(literal(2), vec![(Operator::Multiply, literal(2))]))],
        ))
    );
}

#[test]
fn chains_group_to_the_left() {
    assert_eq!(evaluate("2+3+4"), Ok(9));
    assert_eq!(evaluate("2*3*4"), Ok(24));
    assert_eq!(
        parse("2+3+4"),
        Ok(chain(literal(2), vec![(Operator::Add, literal(3)), (Operator::Add, literal(4))]))
    );
}

#[test]
fn chains_compile_left_to_right() {
    assert_eq!(
        instructions(&build("2+3+4").unwrap()),
        vec![
            Instruction::PushInteger(2),
            Instruction::PushInteger(3),
            Instruction::Add,
            Instruction::PushInteger(4),
            Instruction::Add,
            Instruction::Halt,
        ]
    );
    assert_eq!(
        instructions(&build("2*3*4").unwrap()),
        vec![
            Instruction::PushInteger(2),
            Instruction::PushInteger(3),
            Instruction::Multiply,
            Instruction::PushInteger(4),
            Instruction::Multiply,
            Instruction::Halt,
        ]
    );
}

#[test]
fn mixed_levels_compile_in_post_order() {
    assert_eq!(
        instructions(&build("2+2*2").unwrap()),
        vec![
            Instruction::PushInteger(2),
            Instruction::PushInteger(2),
            Instruction::PushInteger(2),
            Instruction::Multiply,
            Instruction::Add,
            Instruction::Halt,
        ]
    );
}

#[test]
fn single_literal() {
    assert_eq!(evaluate("7"), Ok(7));
    assert_eq!(parse("7"), Ok(literal(7)));
    assert_eq!(
        instructions(&build("7").unwrap()),
        vec![Instruction::PushInteger(7), Instruction::Halt]
    );
}

#[test]
fn literals_take_all_their_digits() {
    assert_eq!(evaluate("12+3"), Ok(15));
    assert_eq!(evaluate("100*100"), Ok(10000));
    assert_eq!(evaluate("007"), Ok(7));
    assert_eq!(parse("12+3"), Ok(chain(literal(12), vec![(Operator::Add, literal(3))])));
}

#[test]
fn trailing_input_is_rejected() {
    assert_eq!(parse("2+2x"), Err(Fault::TrailingInput { position: 3, found: 'x' }));
    assert_eq!(evaluate("2+2x"), Err(Fault::TrailingInput { position: 3, found: 'x' }));
    assert_eq!(parse("7 "), Err(Fault::TrailingInput { position: 1, found: ' ' }));
    assert_eq!(parse("1-2"), Err(Fault::TrailingInput { position: 1, found: '-' }));
    assert_eq!(parse("2é"), Err(Fault::TrailingInput { position: 1, found: 'é' }));
}

#[test]
fn an_operator_needs_its_operand() {
    assert_eq!(parse("2+"), Err(Fault::GrammarViolation { position: 2 }));
    assert_eq!(parse("2*"), Err(Fault::GrammarViolation { position: 2 }));
    assert_eq!(parse("2+*3"), Err(Fault::GrammarViolation { position: 2 }));
    assert_eq!(parse("12+3*x"), Err(Fault::GrammarViolation { position: 5 }));
    assert_eq!(parse("2+ 2"), Err(Fault::GrammarViolation { position: 2 }));
    assert!(build("2+").is_err());
    assert_eq!(evaluate("2+"), Err(Fault::GrammarViolation { position: 2 }));
}

#[test]
fn an_expression_is_required_at_the_start() {
    assert_eq!(parse(""), Err(Fault::GrammarViolation { position: 0 }));
    assert_eq!(parse("x"), Err(Fault::GrammarViolation { position: 0 }));
    assert_eq!(parse("+2"), Err(Fault::GrammarViolation { position: 0 }));
    assert_eq!(parse(" 2"), Err(Fault::GrammarViolation { position: 0 }));
}

#[test]
fn only_ascii_digits_are_digits() {
    assert_eq!(parse("٣"), Err(Fault::GrammarViolation { position: 0 }));
    assert_eq!(parse("1+٣"), Err(Fault::GrammarViolation { position: 2 }));
    assert_eq!(parse("1٣"), Err(Fault::TrailingInput { position: 1, found: '٣' }));
    assert_eq!(parse("a"), Err(Fault::GrammarViolation { position: 0 }));
    assert_eq!(parse("1f"), Err(Fault::TrailingInput { position: 1, found: 'f' }));
}

#[test]
fn overflowing_operators_wrap() {
    assert_eq!(evaluate("9223372036854775807+1"), Ok(i64::MIN));
    assert_eq!(evaluate("9223372036854775807*2"), Ok(-2));
    assert_eq!(evaluate("3037000500*3037000500"), Ok(-9223372036709301616));
    assert_eq!(evaluate("4294967296*4294967296"), Ok(0));
    assert_eq!(evaluate("99999999999999999999*3"), Ok(4852094820647174141));
}

#[test]
fn overflowing_literals_wrap() {
    assert_eq!(evaluate("9223372036854775807"), Ok(i64::MAX));
    assert_eq!(evaluate("9223372036854775808"), Ok(i64::MIN));
    assert_eq!(evaluate("18446744073709551615"), Ok(-1));
    assert_eq!(evaluate("18446744073709551616"), Ok(0));
    assert_eq!(evaluate("18446744073709551617"), Ok(1));
    assert_eq!(evaluate("12345678901234567890123"), Ok(4807115922877859019));
}

#[test]
fn evaluation_is_repeatable() {
    let module = build("12+3*4+5").unwrap();
    let first = exec(&module);
    assert_eq!(first, Ok(29));
    for _ in 0..10 {
        assert_eq!(exec(&module), first);
        assert_eq!(evaluate("12+3*4+5"), first);
    }
    assert_eq!(instructions(&build("12+3*4+5").unwrap()), instructions(&module));
}

#[test]
fn the_stages_compose() {
    for code in ["7", "2+2*2", "2*3*4", "1+2+3*4*5+6", "18446744073709551615*2"] {
        let expression = parse(code).unwrap();
        let module = compile(&expression);
        assert_eq!(exec(&module), evaluate(code));
        assert_eq!(instructions(&module), instructions(&build(code).unwrap()));
        assert_eq!(code.eval(), evaluate(code));
    }
}

#[test]
fn a_program_ends_with_its_only_halt() {
    for code in ["7", "2+2*2", "1*2*3+4*5+6"] {
        let all = instructions(&build(code).unwrap());
        assert_eq!(all.last(), Some(&Instruction::Halt));
        assert_eq!(all.iter().filter(|i| **i == Instruction::Halt).count(), 1);
    }
}

#[test]
fn no_chain_is_empty() {
    fn check(expression: &Expression) {
        if let Expression::Binary { first, others } = expression {
            assert!(!others.is_empty());
            check(first);
            for (_, operand) in others {
                check(operand);
            }
        }
    }
    for code in ["7", "2+2*2", "1*2*3+4*5+6", "1+2", "3*4"] {
        check(&parse(code).unwrap());
    }
    assert_eq!(parse("3*4"), Ok(chain(literal(3), vec![(Operator::Multiply, literal(4))])));
}
