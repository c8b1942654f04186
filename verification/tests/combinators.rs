use eval::combinators::{and, any, filter, filter_map, fold, or};
use eval::input::{Input, Res};

fn text(code: &str) -> Vec<char> {
    code.chars().collect()
}

fn letter(wanted: char) -> impl Fn(Input) -> Res<char> {
    filter(any, move |c: &char| *c == wanted)
}

fn never(_: Input) -> Res<char> {
    None
}

#[test]
fn any_takes_one_character() {
    let chars = text("ab");
    let start = Input::new(&chars);
    assert_eq!(start.pos, 0);
    let (first, rest) = any(start).unwrap();
    assert_eq!(first, 'a');
    assert_eq!(rest, Input { text: &chars, pos: 1 });
    let (second, end) = any(rest).unwrap();
    assert_eq!(second, 'b');
    assert_eq!(end.pos, 2);
    assert_eq!(any(end), None);
    assert_eq!(any(start), Some(('a', rest)));
}

#[test]
fn any_fails_on_empty_input() {
    let chars = text("");
    assert_eq!(any(Input::new(&chars)), None);
    let other = text("abc");
    assert_eq!(any(Input { text: &other, pos: 3 }), None);
    assert_eq!(any(Input { text: &other, pos: 17 }), None);
}

#[test]
fn map_transforms_the_value() {
    let chars = text("ab");
    let start = Input::new(&chars);
    let upper = eval::combinators::map(any, |c: char| c.to_ascii_uppercase());
    assert_eq!(upper(start), Some(('A', Input { text: &chars, pos: 1 })));
    assert_eq!(upper(Input { text: &chars, pos: 2 }), None);
}

#[test]
fn filter_keeps_what_the_predicate_accepts() {
    let chars = text("ab");
    let start = Input::new(&chars);
    assert_eq!(letter('a')(start), Some(('a', Input { text: &chars, pos: 1 })));
    assert_eq!(letter('b')(start), None);
    let second = Input { text: &chars, pos: 1 };
    assert_eq!(letter('b')(second), Some(('b', Input { text: &chars, pos: 2 })));
    assert_eq!(letter('a')(Input { text: &chars, pos: 2 }), None);
}

#[test]
fn filter_map_keeps_what_the_function_accepts() {
    let chars = text("7x");
    let start = Input::new(&chars);
    let decimal = filter_map(any, |c: char| c.to_digit(10));
    assert_eq!(decimal(start), Some((7, Input { text: &chars, pos: 1 })));
    assert_eq!(decimal(Input { text: &chars, pos: 1 }), None);
    assert_eq!(decimal(Input { text: &chars, pos: 2 }), None);
}

#[test]
fn and_runs_one_parser_behind_the_other() {
    let chars = text("abc");
    let start = Input::new(&chars);
    let ab = and(letter('a'), letter('b'));
    assert_eq!(ab(start), Some((('a', 'b'), Input { text: &chars, pos: 2 })));
    let ac = and(letter('a'), letter('c'));
    assert_eq!(ac(start), None);
    let ba = and(letter('b'), letter('a'));
    assert_eq!(ba(start), None);
    assert_eq!(ab(Input { text: &chars, pos: 2 }), None);
}

#[test]
fn or_prefers_the_left_parser() {
    let chars = text("ab");
    let start = Input::new(&chars);
    let first = or(
        eval::combinators::map(any, |_: char| 1),
        eval::combinators::map(any, |_: char| 2),
    );
    assert_eq!(first(start), Some((1, Input { text: &chars, pos: 1 })));
}

#[test]
fn or_retries_on_the_same_cursor() {
    let chars = text("ab");
    let start = Input::new(&chars);
    let right = letter('a');
    // The left parser reads two characters before it fails.
    let left = and(letter('a'), letter('x'));
    let choice = or(eval::combinators::map(left, |pair: (char, char)| pair.0), letter('a'));
    assert_eq!(choice(start), right(start));
    assert_eq!(choice(start), Some(('a', Input { text: &chars, pos: 1 })));
    let neither = or(letter('x'), letter('y'));
    assert_eq!(neither(start), None);
    let second = or(never, any);
    assert_eq!(second(start), any(start));
    assert_eq!(second(Input { text: &chars, pos: 2 }), None);
}

#[test]
fn fold_collects_every_match() {
    let chars = text("aaab");
    let start = Input::new(&chars);
    let count = fold(letter('a'), || 0usize, |n: usize, _: char| n + 1);
    assert_eq!(count(start), Some((3, Input { text: &chars, pos: 3 })));
    assert_eq!(count(Input { text: &chars, pos: 3 }), Some((0, Input { text: &chars, pos: 3 })));
    let collect = fold(any, String::new, |mut all: String, c: char| {
        all.push(c);
        all
    });
    assert_eq!(collect(start), Some((String::from("aaab"), Input { text: &chars, pos: 4 })));
}

#[test]
fn fold_over_no_match_returns_the_seed() {
    let chars = text("abc");
    let start = Input { text: &chars, pos: 1 };
    let nothing = fold(never, || 42, |n: i32, _: char| n + 1);
    assert_eq!(nothing(start), Some((42, start)));
    let empty = text("");
    let at_end = fold(any, || 7, |n: i32, _: char| n + 1);
    assert_eq!(at_end(Input::new(&empty)), Some((7, Input::new(&empty))));
}

#[test]
fn a_parser_can_be_run_again_on_the_same_cursor() {
    let chars = text("aaab");
    let start = Input::new(&chars);
    let count = fold(any, || 0usize, |n: usize, _: char| n + 1);
    let first = count(start);
    assert_eq!(first, Some((4, Input { text: &chars, pos: 4 })));
    assert_eq!(count(start), first);
    assert_eq!(count(start), first);
    assert_eq!(start, Input { text: &chars, pos: 0 });
    let either = or(and(letter('a'), letter('b')), and(letter('a'), letter('a')));
    assert_eq!(either(start), Some((('a', 'a'), Input { text: &chars, pos: 2 })));
    assert_eq!(either(start), Some((('a', 'a'), Input { text: &chars, pos: 2 })));
    let folded = or(filter(count, |n: &usize| *n > 4), eval::combinators::map(any, |_: char| 0));
    assert_eq!(folded(start), Some((0, Input { text: &chars, pos: 1 })));
    assert_eq!(folded(start), Some((0, Input { text: &chars, pos: 1 })));
}

#[test]
fn a_parser_serves_any_text() {
    let twice = and(any, any);
    let first = text("ab");
    assert_eq!(twice(Input::new(&first)), Some((('a', 'b'), Input { text: &first, pos: 2 })));
    {
        let second = text("xyz");
        assert_eq!(twice(Input::new(&second)), Some((('x', 'y'), Input { text: &second, pos: 2 })));
    }
    let third = text("q");
    assert_eq!(twice(Input::new(&third)), None);
}
