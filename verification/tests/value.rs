use rlox::bytecode::{offset_from_bytes, offset_to_bytes, Chunk, OpCode, MAX_CONSTANTS};
use rlox::heap::Heap;
use rlox::object::Handle;
use rlox::string::String as LoxString;
use rlox::value::{bits_equal, bits_less, bits_negated, render, Output, Value};

fn samples() -> Vec<f64> {
    vec![
        0.0,
        -0.0,
        1.0,
        -1.0,
        0.5,
        -0.5,
        2.5,
        1e300,
        -1e300,
        5e-324,
        -5e-324,
        f64::MIN_POSITIVE,
        f64::MAX,
        f64::MIN,
        f64::INFINITY,
        f64::NEG_INFINITY,
        f64::NAN,
        -f64::NAN,
        3.0,
        7.65,
    ]
}

#[test]
fn numbers_compare_as_floats_do() {
    for a in samples() {
        for b in samples() {
            assert_eq!(a == b, bits_equal(a.to_bits(), b.to_bits()), "{} == {}", a, b);
            assert_eq!(a < b, bits_less(a.to_bits(), b.to_bits()), "{} < {}", a, b);
        }
    }
}

#[test]
fn negation_flips_the_sign() {
    for a in samples() {
        assert_eq!((-a).to_bits(), bits_negated(a.to_bits()));
    }
}

#[test]
fn values_are_equal_by_kind_and_content() {
    let one = Value::Number(1.0f64.to_bits());
    assert!(one.equals(&Value::Number(1.0f64.to_bits())));
    assert!(!one.equals(&Value::Number(2.0f64.to_bits())));
    assert!(Value::Number(0.0f64.to_bits()).equals(&Value::Number((-0.0f64).to_bits())));
    assert!(!Value::Number(f64::NAN.to_bits()).equals(&Value::Number(f64::NAN.to_bits())));
    assert!(Value::Nil.equals(&Value::nil()));
    assert!(!Value::Nil.equals(&Value::Boolean(false)));
    assert!(Value::true_value().equals(&Value::Boolean(true)));
    assert!(!Value::false_value().equals(&Value::Boolean(true)));
    assert!(Value::String(Handle::new(3)).equals(&Value::String(Handle::new(3))));
    assert!(!Value::String(Handle::new(3)).equals(&Value::String(Handle::new(4))));
    assert!(!one.equals(&Value::String(Handle::new(1))));
}

#[test]
fn only_nil_and_false_are_falsey() {
    assert!(Value::Nil.is_falsey());
    assert!(Value::Boolean(false).is_falsey());
    assert!(!Value::Boolean(true).is_falsey());
    assert!(!Value::Number(0.0f64.to_bits()).is_falsey());
    assert!(!Value::String(Handle::new(0)).is_falsey());
}

#[test]
fn values_know_their_kind() {
    let number = Value::Number(2.0f64.to_bits());
    assert!(number.is_number());
    assert_eq!(Some(2.0f64.to_bits()), number.as_number());
    assert_eq!(None, number.as_boolean());
    assert!(Value::Boolean(true).is_boolean());
    assert_eq!(Some(true), Value::Boolean(true).as_boolean());
    assert!(Value::Nil.is_nil());
    let string = Value::String(Handle::new(5));
    assert!(string.is_string());
    assert_eq!(5, string.as_string().unwrap().index());
    assert_eq!(None, string.as_number());
}

#[test]
fn interning_gives_one_handle_for_one_text() {
    let mut heap = Heap::new();
    let first = heap.intern("abc");
    let second = heap.allocate_string(LoxString::new("abc"));
    let other = heap.intern("abd");
    assert_eq!(first, second);
    assert_ne!(first, other);
    assert_eq!(2, heap.len());
    assert_eq!("abc", heap.get(first).unwrap().as_str());
    assert_eq!("abd", heap.get(other).unwrap().as_str());
    assert!(heap.get(Handle::new(2)).is_none());
}

#[test]
fn find_tells_whether_a_text_is_held() {
    let mut heap = Heap::new();
    assert_eq!(None, heap.find(&LoxString::new("abc")));
    let first = heap.allocate(LoxString::new("abc"));
    let second = heap.intern("abd");
    assert_eq!(Some(first), heap.find(&LoxString::new("abc")));
    assert_eq!(Some(second), heap.find(&LoxString::new("abd")));
    assert_eq!(None, heap.find(&LoxString::new("ab")));
    assert_eq!(2, heap.len());
}

#[test]
fn interned_concatenation_is_associative() {
    let mut heap = Heap::new();
    let (a, b, c) = (LoxString::new("a"), LoxString::new("b"), LoxString::new("c"));
    let left = heap.allocate_string(a.concat(&b).concat(&c));
    let right = heap.allocate_string(a.concat(&b.concat(&c)));
    assert_eq!(left, right);
    assert_eq!("abc", heap.get(left).unwrap().as_str());
}

#[test]
fn many_strings_are_interned() {
    let mut heap = Heap::new();
    let mut handles = Vec::new();
    for i in 0..500 {
        handles.push(heap.intern(&format!("s{}", i)));
    }
    for (i, handle) in handles.iter().enumerate() {
        assert_eq!(i, handle.index());
        assert_eq!(*handle, heap.intern(&format!("s{}", i)));
    }
    assert_eq!(500, heap.len());
}

#[test]
fn lox_strings_concat_and_compare() {
    let hello = LoxString::new("hello");
    let joined = hello.concat(&LoxString::new(" world"));
    assert_eq!("hello world", joined.as_str());
    assert!(joined.equals(&LoxString::new("hello world")));
    assert!(!joined.equals(&hello));
    assert_eq!(hello, hello.clone());
}

#[test]
fn values_are_rendered_for_printing() {
    let mut heap = Heap::new();
    let handle = heap.intern("text");
    assert_eq!(Some(Output::Text("nil".to_string())), render(&heap, Value::Nil));
    assert_eq!(Some(Output::Text("true".to_string())), render(&heap, Value::Boolean(true)));
    assert_eq!(Some(Output::Text("false".to_string())), render(&heap, Value::Boolean(false)));
    assert_eq!(Some(Output::Text("text".to_string())), render(&heap, Value::String(handle)));
    assert_eq!(Some(Output::Number(7)), render(&heap, Value::Number(7)));
    assert_eq!(None, render(&heap, Value::String(Handle::new(9))));
}

#[test]
fn opcodes_round_trip_through_bytes() {
    for byte in 0..=255u8 {
        match OpCode::from_repr(byte) {
            Some(op) => {
                assert!(byte < 24);
                assert_eq!(byte, op.byte());
            }
            None => assert!(byte >= 24),
        }
    }
    assert_eq!(Some(OpCode::Return), OpCode::from_repr(0));
    assert_eq!(Some(OpCode::Loop), OpCode::from_repr(23));
    assert_eq!("OP_SUBSTRACT", OpCode::Substract.name());
    assert_eq!(2, OpCode::Jump.operands());
    assert_eq!(1, OpCode::GetLocal.operands());
    assert_eq!(0, OpCode::AddNil.operands());
}

#[test]
fn jump_offsets_round_trip_through_bytes() {
    for offset in [0u16, 1, 255, 256, 4660, 65535] {
        let (low, high) = offset_to_bytes(offset);
        assert_eq!(offset, offset_from_bytes(low, high));
    }
    assert_eq!((0x34, 0x12), offset_to_bytes(0x1234));
}

#[test]
fn chunk_keeps_code_and_lines_in_step() {
    let mut chunk = Chunk::new();
    chunk.write(1, 10);
    chunk.write(2, 11);
    assert_eq!(2, chunk.len());
    assert_eq!(2, chunk.lines().len());
    assert_eq!(Some(2), chunk.byte_at(1));
    assert_eq!(Some(11), chunk.line_at(1));
    assert_eq!(None, chunk.byte_at(2));
    chunk.patch(0, 9);
    assert_eq!(Some(9), chunk.byte_at(0));
    assert_eq!(Some(10), chunk.line_at(0));
}

#[test]
fn chunk_holds_at_most_256_constants() {
    let mut chunk = Chunk::new();
    for i in 0..MAX_CONSTANTS {
        assert_eq!(Some(i), chunk.add_constant(Value::Number(i as u64)));
    }
    assert_eq!(None, chunk.add_constant(Value::Nil));
    assert_eq!(256, chunk.constants().len());
    assert_eq!(Some(Value::Number(255)), chunk.constants().get(255));
    assert_eq!(None, chunk.constants().get(256));
}
