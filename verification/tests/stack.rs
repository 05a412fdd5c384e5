use rlox::stack::Stack;

#[test]
fn test_peek() {
    let mut stack: Stack<i32> = Stack::new();
    stack.push(1);
    stack.push(2);
    stack.push(3);

    assert_eq!(Some(&3), stack.peek(0));
    assert_eq!(Some(&2), stack.peek(1));
    assert_eq!(Some(&1), stack.peek(2));
}

#[test]
fn test_peek_empty() {
    let stack: Stack<i32> = Stack::new();

    assert_eq!(None, stack.peek(0));
    assert_eq!(None, stack.peek(1));
}

#[test]
fn test_peek_pushing_popping() {
    let mut stack: Stack<i32> = Stack::new();
    stack.push(1);
    assert_eq!(Some(&1), stack.peek(0));
    stack.push(2);
    assert_eq!(Some(&1), stack.peek(1));
    stack.push(3);
    assert_eq!(Some(&1), stack.peek(2));
    let _ = stack.pop();
    assert_eq!(None, stack.peek(2));
    assert_eq!(Some(&1), stack.peek(1));
}

#[test]
fn stack_reset_empties() {
    let mut stack: Stack<i32> = Stack::new();
    assert!(stack.is_empty());
    stack.push(1);
    stack.push(2);
    assert!(!stack.is_empty());
    assert_eq!(2, stack.len());
    stack.reset();
    assert!(stack.is_empty());
    assert_eq!(None, stack.pop());
}

#[test]
fn stack_slots_count_from_the_bottom() {
    let mut stack: Stack<i32> = Stack::new();
    stack.push(1);
    stack.push(2);
    assert_eq!(Some(&1), stack.get(0));
    stack.set(0, 9);
    assert_eq!(Some(&9), stack.get(0));
    assert_eq!(Some(2), stack.pop());
    assert_eq!(None, stack.get(1));
}
