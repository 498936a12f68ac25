use sym_theory::signature::{FuncType, FuncTypeError};
use sym_theory::types::Type;

fn bin() -> Type {
    Type::new_prim("Bin")
}

#[test]
fn primitive_equality_goes_by_name() {
    assert!(Type::new_prim("Bin") == Type::new_prim("Bin"));
    assert!(Type::new_prim("Bin") != Type::new_prim("Nat"));
}

#[test]
fn sequence_equality_is_pairwise_and_order_sensitive() {
    let nat = Type::new_prim("Nat");
    let a = Type::new_seq(vec![bin(), nat.clone()]);
    let b = Type::new_seq(vec![bin(), nat.clone()]);
    let c = Type::new_seq(vec![nat.clone(), bin()]);
    let d = Type::new_seq(vec![bin()]);
    assert!(a == b);
    assert!(a != c);
    assert!(a != d);
}

#[test]
fn singleton_sequence_coerces_to_its_element() {
    let x = Type::new_prim("X");
    let single = Type::new_seq(vec![Type::new_prim("X")]);
    let double = Type::new_seq(vec![Type::new_prim("X"), Type::new_prim("X")]);
    assert!(x == single);
    assert!(single == x);
    assert!(x != double);
    assert!(double != x);
}

#[test]
fn nested_singleton_coerces_too() {
    let x = Type::new_prim("X");
    let nested = Type::new_seq(vec![Type::new_seq(vec![Type::new_prim("X")])]);
    assert!(x == nested);
    assert!(nested == x);
}

#[test]
fn equality_is_symmetric_on_samples() {
    let samples = vec![
        Type::new_prim("X"),
        Type::new_prim("Y"),
        Type::new_seq(vec![]),
        Type::new_seq(vec![Type::new_prim("X")]),
        Type::new_seq(vec![Type::new_prim("X"), Type::new_prim("Y")]),
        Type::new_seq(vec![Type::new_seq(vec![Type::new_prim("X")])]),
    ];
    for a in &samples {
        for b in &samples {
            assert_eq!(a == b, b == a);
            assert_eq!(a.same(b), b.same(a));
        }
    }
}

#[test]
fn same_agrees_with_equality() {
    let x = Type::new_prim("X");
    let single = Type::new_seq(vec![Type::new_prim("X")]);
    assert!(x.same(&single));
    assert!(!x.same(&Type::new_prim("Y")));
}

#[test]
fn dimension_of_primitive_is_one() {
    assert_eq!(bin().dimension(), 1);
}

#[test]
fn dimension_of_sequence_is_its_length() {
    assert_eq!(Type::new_seq(vec![]).dimension(), 0);
    assert_eq!(Type::new_seq(vec![bin()]).dimension(), 1);
    assert_eq!(Type::new_seq(vec![bin(), bin(), bin()]).dimension(), 3);
}

#[test]
fn only_the_empty_sequence_is_empty() {
    assert!(Type::new_seq(vec![]).is_empty());
    assert!(!bin().is_empty());
    assert!(!Type::new_seq(vec![bin()]).is_empty());
    let holds_empty = Type::new_seq(vec![Type::new_seq(vec![])]);
    assert!(!holds_empty.is_empty());
    assert!(holds_empty.has_empty());
    assert!(!Type::new_seq(vec![bin()]).has_empty());
}

#[test]
fn clone_preserves_shape() {
    let t = Type::new_seq(vec![bin(), Type::new_seq(vec![bin()])]);
    let c = t.clone();
    assert!(t == c);
    assert_eq!(t.dimension(), c.dimension());
}

#[test]
fn sequence_elements_iterate_in_order() {
    let t = Type::new_seq(vec![Type::new_prim("A"), Type::new_prim("B")]);
    match &t {
        Type::Sequence(ts) => {
            let mut it = ts.iter();
            assert!(it.next().unwrap() == Type::new_prim("A"));
            assert!(it.next().unwrap() == Type::new_prim("B"));
            assert!(it.next().is_none());
            assert!(it.next().is_none());
        }
        _ => panic!("a sequence type was built"),
    }
}

#[test]
fn type_traversal_is_preorder_with_depths() {
    let inner = Type::new_seq(vec![Type::new_prim("B")]);
    let t = Type::new_seq(vec![Type::new_prim("A"), inner.clone()]);
    let mut it = t.iter();

    let (d0, n0) = it.next().unwrap();
    assert_eq!(d0, 0);
    assert!(n0 == t);

    let (d1, n1) = it.next().unwrap();
    assert_eq!(d1, 1);
    assert!(n1 == Type::new_prim("A"));

    let (d2, n2) = it.next().unwrap();
    assert_eq!(d2, 1);
    assert!(n2 == inner);

    let (d3, n3) = it.next().unwrap();
    assert_eq!(d3, 2);
    assert!(n3 == Type::new_prim("B"));

    assert!(it.next().is_none());
}

#[test]
fn type_traversal_restarts_fresh_per_call() {
    let t = Type::new_seq(vec![Type::new_prim("A")]);
    let mut first = t.iter();
    first.next();
    first.next();
    assert!(first.next().is_none());
    let mut second = t.iter();
    let (d, n) = second.next().unwrap();
    assert_eq!(d, 0);
    assert!(n == t);
}

#[test]
fn signature_accepts_ordinary_types() {
    let ft = FuncType::new("f", &bin(), &bin()).ok().unwrap();
    assert!(*ft.output() == bin());
    assert!(*ft.input() == bin());
    assert_eq!(ft.label, "f");
}

#[test]
fn signature_equality_goes_by_label_and_types() {
    let pair = Type::new_seq(vec![bin(), bin()]);
    let f1 = FuncType::new("f", &pair, &bin()).ok().unwrap();
    let f2 = FuncType::new("f", &pair, &bin()).ok().unwrap();
    let g = FuncType::new("g", &pair, &bin()).ok().unwrap();
    let h = FuncType::new("f", &bin(), &bin()).ok().unwrap();
    assert!(f1 == f2);
    assert!(f1 != g);
    assert!(f1 != h);
    // The singleton coercion reaches the compared types.
    let f3 = FuncType::new("f", &pair, &Type::new_seq(vec![bin()])).ok().unwrap();
    assert!(f1 == f3);
}

#[test]
fn a_vector_of_types_converts_to_a_sequence_type() {
    let t = Type::from(vec![bin(), bin()]);
    assert_eq!(t.dimension(), 2);
    assert!(t == Type::new_seq(vec![bin(), bin()]));
}

#[test]
fn tuple_equality_is_pairwise() {
    let a = Type::new_seq(vec![bin(), bin()]);
    let b = Type::new_seq(vec![bin(), Type::new_seq(vec![bin()])]);
    let c = Type::new_seq(vec![bin(), Type::new_prim("Nat")]);
    match (&a, &b, &c) {
        (Type::Sequence(sa), Type::Sequence(sb), Type::Sequence(sc)) => {
            assert!(sa == sb);
            assert!(sa != sc);
        }
        _ => panic!("sequence types were built"),
    }
}

#[test]
fn signature_refuses_empty_output_first() {
    let empty = Type::new_seq(vec![]);
    let r = FuncType::new("f", &empty, &empty);
    assert!(matches!(r, Err(FuncTypeError::OutputEmpty)));
}

#[test]
fn signature_refuses_input_holding_an_empty() {
    let input = Type::new_seq(vec![bin(), Type::new_seq(vec![])]);
    let r = FuncType::new("f", &input, &bin());
    assert!(matches!(r, Err(FuncTypeError::InputMultipleEmpties)));
    let nested = Type::new_seq(vec![Type::new_seq(vec![Type::new_seq(vec![])])]);
    let r2 = FuncType::new("g", &nested, &bin());
    assert!(matches!(r2, Err(FuncTypeError::InputMultipleEmpties)));
}
