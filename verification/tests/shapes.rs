//! Shapes, errors, text and bit patterns of single-precision numbers.

use mamba3::error::Error;
use mamba3::shape::Shape;
use mamba3::single;
use mamba3::text::{
    append_bracketed, append_decimal, append_left, append_right, comes_before, contains_text,
};

fn shape(dims: Vec<usize>) -> Shape {
    Shape::new(dims)
}

#[test]
fn broadcasting_stretches_ones() {
    let r = Shape::broadcast(&shape(vec![4, 1, 3]), &shape(vec![2, 1])).unwrap();
    assert_eq!(r.dims(), &vec![4, 2, 3]);
    let r = Shape::broadcast(&shape(vec![2, 1]), &shape(vec![4, 1, 3])).unwrap();
    assert_eq!(r.dims(), &vec![4, 2, 3]);
    let r = Shape::broadcast(&Shape::scalar(), &shape(vec![5])).unwrap();
    assert_eq!(r.dims(), &vec![5]);
}

#[test]
fn broadcasting_a_shape_with_itself_keeps_it() {
    let r = Shape::broadcast(&shape(vec![3, 0, 2]), &shape(vec![3, 0, 2])).unwrap();
    assert_eq!(r.dims(), &vec![3, 0, 2]);
}

#[test]
fn mismatched_shapes_do_not_broadcast() {
    match Shape::broadcast(&shape(vec![2, 3]), &shape(vec![4])) {
        Err(e) => {
            assert!(matches!(e, Error::Shape(_)));
            assert!(e.message().starts_with("shape error: "));
            assert!(contains_text(e.message().as_str(), "[2, 3]"));
            assert!(contains_text(e.message().as_str(), "[4]"));
        }
        Ok(_) => panic!("two and four do not broadcast"),
    }
}

#[test]
fn shape_arithmetic() {
    let s = shape(vec![2, 3, 4]);
    assert_eq!(s.rank(), 3);
    assert_eq!(s.num_elements(), 24);
    assert_eq!((s.dim_from_end(0), s.dim_from_end(1)), (4, 3));
    assert_eq!(s.without(1).dims(), &vec![2, 4]);
    assert_eq!(s.with_dim(0, 7).dims(), &vec![7, 3, 4]);
    assert_eq!(s.unsqueezed(3).dims(), &vec![2, 3, 4, 1]);
    assert_eq!(s.left_padded(5).dims(), &vec![1, 1, 2, 3, 4]);
    assert_eq!(Shape::scalar().num_elements(), 1);
    assert_eq!(shape(vec![usize::MAX, 2]).checked_elements(), None);
    assert_eq!(shape(vec![usize::MAX, 0, 2]).checked_elements(), Some(0));
}

#[test]
fn a_wrong_rank_names_both() {
    let e = shape(vec![2, 3]).expect_rank(3).unwrap_err();
    assert_eq!(e.message(), "expected rank 3, got 2 (shape [2, 3])");
    assert!(shape(vec![2, 3]).expect_rank(2).is_ok());
}

#[test]
fn errors_say_what_they_are() {
    let list = vec![
        (Error::config("x"), "invalid configuration: x"),
        (Error::shape("x"), "shape error: x"),
        (Error::Autodiff(String::from("x")), "autodiff error: x"),
        (Error::StateDict(String::from("x")), "state dict error: x"),
        (Error::Unsupported(String::from("x")), "unsupported: x"),
    ];
    for (e, want) in list {
        assert_eq!(e.message(), want);
    }
}

#[test]
fn numbers_are_written_in_decimal() {
    let mut t = String::new();
    append_decimal(&mut t, 0);
    append_decimal(&mut t, u64::MAX);
    assert_eq!(t, "018446744073709551615");
    let mut t = String::new();
    append_bracketed(&mut t, &vec![]);
    append_bracketed(&mut t, &vec![1, 20]);
    assert_eq!(t, "[][1, 20]");
}

#[test]
fn columns_are_padded() {
    let mut t = String::new();
    append_left(&mut t, "ab", 4);
    append_right(&mut t, "cd", 4);
    append_left(&mut t, "efghi", 4);
    assert_eq!(t, "ab    cdefghi");
}

#[test]
fn dictionary_order() {
    assert!(comes_before("a", "b"));
    assert!(comes_before("a", "aa"));
    assert!(comes_before("", "a"));
    assert!(!comes_before("a", "a"));
    assert!(!comes_before("b", "ab"));
    assert!(comes_before("layers.10", "layers.2"));
}

#[test]
fn patterns_are_substrings() {
    assert!(contains_text("layers.0.lora.a", "lora"));
    assert!(contains_text("abc", ""));
    assert!(!contains_text("abc", "ca"));
    assert!(!contains_text("", "a"));
}

#[test]
fn bit_patterns_order_like_numbers() {
    let list = [
        f32::NEG_INFINITY,
        -3.5,
        -f32::MIN_POSITIVE,
        -0.0,
        0.0,
        1e-40,
        1.0,
        2.5,
        f32::INFINITY,
        f32::NAN,
    ];
    for a in list {
        for b in list {
            let (p, q) = (a.to_bits(), b.to_bits());
            assert_eq!(single::lt(p, q), a < b);
            assert_eq!(single::le(p, q), a <= b);
            assert_eq!(single::eq(p, q), a == b);
        }
        assert_eq!(single::nan(a.to_bits()), a.is_nan());
    }
    assert_eq!(single::ONE, 1.0f32.to_bits());
    assert_eq!(single::ZERO, 0.0f32.to_bits());
}
