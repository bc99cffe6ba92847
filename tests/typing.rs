use holly::typing::{plan_typing, type_message, Keystroke};
use holly::typing::Keystroke::{Backspace, Char, Enter};

#[test]
fn slip_roll_types_and_erases_a_word_first() {
    let keys = plan_typing("hi", &vec![7, 1]);
    assert_eq!(
        keys,
        vec![
            Char('a'), Char('s'), Char('d'), Char('f'),
            Backspace, Backspace, Backspace, Backspace,
            Char('h'), Char('i'), Enter
        ]
    );
}

#[test]
fn plain_rolls_type_each_character() {
    assert_eq!(plan_typing("hé", &vec![3, 30]), vec![Char('h'), Char('é'), Enter]);
    assert_eq!(plan_typing("ab", &vec![]), vec![Char('a'), Char('b'), Enter]);
    assert_eq!(plan_typing("", &vec![7]), vec![Enter]);
}

#[test]
fn typed_message_comes_out_after_erasures() {
    let text = "hello there, how are you today?";
    let keys = type_message(text);
    assert_eq!(keys.last(), Some(&Keystroke::Enter));
    let mut typed: Vec<char> = Vec::new();
    for k in &keys {
        match k {
            Keystroke::Char(c) => typed.push(*c),
            Keystroke::Backspace => {
                typed.pop();
            }
            Keystroke::Enter => {}
        }
    }
    assert_eq!(typed.into_iter().collect::<String>(), text);
    let extra = keys.len() - text.chars().count() - 1;
    assert_eq!(extra % 8, 0);
}
