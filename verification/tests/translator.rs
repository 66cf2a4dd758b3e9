use piet::color::{ColorName, PietColor};
use piet::command::Command;
use piet::interpreter::PietProgram;
use piet::translator::Translator;

#[test]
fn a_new_translator_begins_with_the_preamble() {
    let t = Translator::new(String::from("a.f"), ": X ;");
    assert_eq!(t.text(), ": X ;\n");
    assert_eq!(t.output_file(), "a.f");
    let t = Translator::new(String::from("a.f"), "line\n");
    assert_eq!(t.text(), "line\n ");
}

#[test]
fn write_puts_a_space_after_a_digit_or_white_space() {
    let mut t = Translator::new(String::new(), "");
    assert_eq!(t.text(), "\n");
    t.write("12");
    assert_eq!(t.text(), "\n12 ");
    t.write("a ");
    assert_eq!(t.text(), "\n12 a  ");
    t.write("b\t");
    assert_eq!(t.text(), "\n12 a  b\t ");
}

#[test]
fn write_puts_a_newline_after_anything_else() {
    let mut t = Translator::new(String::new(), "0");
    t.write("DUP");
    t.write("+");
    t.write("");
    t.write("x\u{b2}");
    assert_eq!(t.text(), "0 DUP\n+\n\nx\u{b2}\n");
}

#[test]
fn no_word_is_followed_by_a_token_on_its_line() {
    let p = PietProgram::new(vec![vec![PietColor::of_name(ColorName::Red)]], String::new());
    let mut t = Translator::new(String::new(), "");
    let commands = [
        Command::Push,
        Command::Duplicate,
        Command::Add,
        Command::Push,
        Command::Push,
        Command::Roll,
        Command::OutChar,
        Command::Pointer,
        Command::InNumber,
    ];
    for c in commands.iter() {
        t.add_command(c, &p);
    }
    assert_eq!(t.text(), "\n0 DUP\n+\n0 0 PIET-ROLL\nEMIT\nDROP\nINTEGER-INPUT\n");
    for line in t.text().lines() {
        let tokens: Vec<&str> = line.split_whitespace().collect();
        for token in tokens.iter().rev().skip(1) {
            assert!(token.chars().last().unwrap().is_ascii_digit());
        }
    }
}

#[test]
fn add_base_appends_the_preamble() {
    let mut t = Translator::new(String::from("o"), "A");
    t.add_base("B 1");
    assert_eq!(t.text(), "A\nB 1 ");
}
