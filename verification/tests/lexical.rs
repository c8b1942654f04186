use eval::input::Input;
use eval::lexical::{digit, integer};

fn text(code: &str) -> Vec<char> {
    code.chars().collect()
}

#[test]
fn digit_reads_one_decimal_digit() {
    let chars = text("42x");
    let start = Input::new(&chars);
    let decimal = digit(10);
    assert_eq!(decimal(start), Some((4, Input { text: &chars, pos: 1 })));
    assert_eq!(decimal(Input { text: &chars, pos: 1 }), Some((2, Input { text: &chars, pos: 2 })));
    assert_eq!(decimal(Input { text: &chars, pos: 2 }), None);
    assert_eq!(decimal(Input { text: &chars, pos: 3 }), None);
}

#[test]
fn digit_knows_letters_in_either_case() {
    let chars = text("fFzZg9");
    let hex = digit(16);
    assert_eq!(hex(Input { text: &chars, pos: 0 }).map(|m| m.0), Some(15));
    assert_eq!(hex(Input { text: &chars, pos: 1 }).map(|m| m.0), Some(15));
    assert_eq!(hex(Input { text: &chars, pos: 2 }), None);
    assert_eq!(hex(Input { text: &chars, pos: 4 }), None);
    let all = digit(36);
    assert_eq!(all(Input { text: &chars, pos: 2 }).map(|m| m.0), Some(35));
    assert_eq!(all(Input { text: &chars, pos: 3 }).map(|m| m.0), Some(35));
    assert_eq!(all(Input { text: &chars, pos: 4 }).map(|m| m.0), Some(16));
    let binary = digit(2);
    assert_eq!(binary(Input { text: &chars, pos: 5 }), None);
}

#[test]
fn digit_agrees_with_the_standard_library() {
    let mut chars: Vec<char> = (0u32..0x300).filter_map(char::from_u32).collect();
    chars.extend(['٣', '३', '０', 'Ａ', 'ａ', '\u{10ffff}']);
    for radix in 2..=36 {
        let parser = digit(radix);
        for pos in 0..chars.len() {
            let found = parser(Input { text: &chars, pos }).map(|m| m.0);
            assert_eq!(found, chars[pos].to_digit(radix), "{:?} in base {}", chars[pos], radix);
        }
    }
}

#[test]
fn integer_reads_all_digits() {
    let chars = text("12+3");
    let start = Input::new(&chars);
    let decimal = integer(10);
    assert_eq!(decimal(start), Some((12, Input { text: &chars, pos: 2 })));
    assert_eq!(decimal(Input { text: &chars, pos: 1 }), Some((2, Input { text: &chars, pos: 2 })));
    assert_eq!(decimal(Input { text: &chars, pos: 3 }), Some((3, Input { text: &chars, pos: 4 })));
}

#[test]
fn integer_needs_a_digit() {
    let chars = text("+12");
    let empty = text("");
    let decimal = integer(10);
    assert_eq!(decimal(Input::new(&chars)), None);
    assert_eq!(decimal(Input { text: &chars, pos: 3 }), None);
    assert_eq!(decimal(Input::new(&empty)), None);
}

#[test]
fn integer_reads_the_most_significant_digit_first() {
    let chars = text("ff 777 zz 1010");
    assert_eq!(integer(16)(Input::new(&chars)).map(|m| m.0), Some(255));
    assert_eq!(integer(8)(Input { text: &chars, pos: 3 }).map(|m| m.0), Some(511));
    assert_eq!(integer(36)(Input { text: &chars, pos: 7 }).map(|m| m.0), Some(1295));
    assert_eq!(integer(2)(Input { text: &chars, pos: 10 }).map(|m| m.0), Some(10));
    assert_eq!(integer(10)(Input { text: &chars, pos: 10 }).map(|m| m.0), Some(1010));
}

#[test]
fn integer_wraps_at_64_bits() {
    let chars = text("18446744073709551615");
    assert_eq!(integer(10)(Input::new(&chars)).map(|m| m.0), Some(u64::MAX));
    let chars = text("18446744073709551616");
    assert_eq!(integer(10)(Input::new(&chars)).map(|m| m.0), Some(0));
    let chars = text("12345678901234567890123");
    assert_eq!(
        integer(10)(Input::new(&chars)),
        Some((4807115922877859019, Input { text: &chars, pos: 23 }))
    );
    let chars = text("10000000000000000f");
    assert_eq!(integer(16)(Input::new(&chars)).map(|m| m.0), Some(15));
}

#[test]
fn integer_can_be_run_again_on_the_same_cursor() {
    let chars = text("1234x");
    let start = Input::new(&chars);
    let decimal = integer(10);
    assert_eq!(decimal(start), Some((1234, Input { text: &chars, pos: 4 })));
    assert_eq!(decimal(start), Some((1234, Input { text: &chars, pos: 4 })));
    assert_eq!(decimal(start), Some((1234, Input { text: &chars, pos: 4 })));
    assert_eq!(start.pos, 0);
}
