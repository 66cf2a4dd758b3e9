use piet::stack::Stack;

fn stack_of(values: &[i32]) -> Stack {
    let mut s = Stack::new();
    for v in values {
        s.push(*v);
    }
    s
}

#[test]
fn new_stack_is_empty() {
    let s = Stack::new();
    assert!(s.is_empty());
    assert_eq!(s.len(), 0);
    assert_eq!(s.to_vec(), Vec::<i32>::new());
    assert!(Stack::default().is_empty());
}

#[test]
fn push_then_pop_gives_the_values_back_in_reverse() {
    let mut s = stack_of(&[1, 2, 3]);
    assert_eq!(s.len(), 3);
    assert!(!s.is_empty());
    assert_eq!(s.peek(), Some(3));
    assert_eq!(s.pop(), Some(3));
    assert_eq!(s.pop(), Some(2));
    assert_eq!(s.pop(), Some(1));
    assert_eq!(s.pop(), None);
    assert_eq!(s.pop(), None);
    assert_eq!(s.len(), 0);
    assert_eq!(s.peek(), None);
}

#[test]
fn roll_buries_the_top_one_deep() {
    let mut s = stack_of(&[1, 2, 3]);
    s.push(3);
    s.push(1);
    s.roll();
    assert_eq!(s.to_vec(), vec![3, 1, 2]);
    assert_eq!(s.peek(), Some(2));
}

#[test]
fn roll_by_two_buries_the_top_two_deep() {
    let mut s = stack_of(&[9, 1, 2, 3, 4, 4, 2]);
    s.roll();
    assert_eq!(s.to_vec(), vec![9, 3, 4, 1, 2]);
}

#[test]
fn roll_with_a_negative_count_turns_the_other_way() {
    let mut s = stack_of(&[1, 2, 3, 3, -1]);
    s.roll();
    assert_eq!(s.to_vec(), vec![2, 3, 1]);
}

#[test]
fn roll_counts_modulo_the_depth() {
    let mut s = stack_of(&[1, 2, 3, 3, 7]);
    s.roll();
    assert_eq!(s.to_vec(), vec![3, 1, 2]);
    let mut s = stack_of(&[1, 2, 3, 3, -7]);
    s.roll();
    assert_eq!(s.to_vec(), vec![2, 3, 1]);
    let mut s = stack_of(&[1, 2, 3, 3, i32::MIN]);
    s.roll();
    assert_eq!(s.to_vec(), vec![3, 1, 2]);
}

#[test]
fn roll_without_motion_consumes_its_operands() {
    let mut s = stack_of(&[1, 2, 3, 3, 0]);
    s.roll();
    assert_eq!(s.to_vec(), vec![1, 2, 3]);
    let mut s = stack_of(&[1, 2, 3, 3, 6]);
    s.roll();
    assert_eq!(s.to_vec(), vec![1, 2, 3]);
    let mut s = stack_of(&[1, 2, 3, 0, 5]);
    s.roll();
    assert_eq!(s.to_vec(), vec![1, 2, 3]);
    let mut s = stack_of(&[1, 2, 3, 1, 5]);
    s.roll();
    assert_eq!(s.to_vec(), vec![1, 2, 3]);
}

#[test]
fn roll_with_a_negative_depth_is_ignored_and_consumes_its_operands() {
    let mut s = stack_of(&[1, 2, 3, -1, 1]);
    s.roll();
    assert_eq!(s.to_vec(), vec![1, 2, 3]);
}

#[test]
fn roll_deeper_than_the_stack_is_ignored_and_consumes_its_operands() {
    let mut s = stack_of(&[1, 2, 3, 4, 1]);
    s.roll();
    assert_eq!(s.to_vec(), vec![1, 2, 3]);
}

#[test]
fn roll_to_the_full_depth_turns_the_whole_stack() {
    let mut s = stack_of(&[1, 2, 3, 3, 2]);
    s.roll();
    assert_eq!(s.to_vec(), vec![2, 3, 1]);
}

#[test]
fn roll_with_too_few_values_leaves_the_stack() {
    let mut s = Stack::new();
    s.roll();
    assert_eq!(s.to_vec(), Vec::<i32>::new());
    let mut s = stack_of(&[7]);
    s.roll();
    assert_eq!(s.to_vec(), vec![7]);
}

#[test]
fn roll_and_the_opposite_roll_restore_the_stack() {
    for rolls in [-5, -1, 0, 1, 2, 3, 4, 11] {
        for depth in [0, 1, 2, 3, 4, 5] {
            let mut s = stack_of(&[10, 20, 30, 40, 50]);
            s.push(depth);
            s.push(rolls);
            s.roll();
            s.push(depth);
            s.push(-rolls);
            s.roll();
            assert_eq!(s.to_vec(), vec![10, 20, 30, 40, 50]);
        }
    }
}

#[test]
fn in_char_pushes_the_value_of_the_byte() {
    let mut s = Stack::new();
    s.in_char(b'A');
    s.in_char(0);
    s.in_char(255);
    assert_eq!(s.to_vec(), vec![65, 0, 255]);
}

#[test]
fn in_number_pushes_the_number_on_the_line() {
    let mut s = Stack::new();
    s.in_number("42\n");
    s.in_number("  -17  \r\n");
    s.in_number("+8");
    s.in_number("2147483647");
    s.in_number("-2147483648");
    s.in_number("007");
    assert_eq!(s.to_vec(), vec![42, -17, 8, 2147483647, -2147483648, 7]);
}

#[test]
fn in_number_ignores_a_line_without_a_number() {
    let mut s = stack_of(&[1]);
    for line in ["", "\n", "abc", "12a", "1 2", "-", "+", "--1", "2147483648", "-2147483649", "99999999999999999999", "1.5", "0x10"] {
        s.in_number(line);
    }
    assert_eq!(s.to_vec(), vec![1]);
}

#[test]
fn to_string_lists_the_values_top_first() {
    assert_eq!(Stack::new().to_string(), "");
    assert_eq!(stack_of(&[5]).to_string(), "5");
    assert_eq!(stack_of(&[1, 2, 3]).to_string(), "3 2 1");
    assert_eq!(stack_of(&[0, -12, 2147483647, -2147483648]).to_string(), "-2147483648 2147483647 -12 0");
}
