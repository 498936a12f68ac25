use sym_theory::func::{Function, InputSetError};
use sym_theory::ident::Identity;
use sym_theory::types::Type;

fn bin() -> Type {
    Type::new_prim("Bin")
}

/// Builds the sample tree NOT(OR(y, AND(x, TOP))) and hands back
/// (not, or, and, x, y, top).
fn sample() -> (Function, Function, Function, Function, Function, Function) {
    let x = Function::new_var("x", bin());
    let y = Function::new_var("y", bin());
    let top = Function::new_const("TOP", bin());
    let and = Function::new_concrete("AND", vec![x.clone(), top.clone()], bin());
    let or = Function::new_concrete("OR", vec![y.clone(), and.clone()], bin());
    let not = Function::new_concrete("NOT", vec![or.clone()], bin());
    (not, or, and, x, y, top)
}

#[test]
fn constructors_record_label_and_output_type() {
    let top = Function::new_const("TOP", bin());
    assert_eq!(top.label(), "TOP");
    assert!(top.output_ty() == bin());

    let x = Function::new_var("x", bin());
    assert_eq!(x.label(), "x");
    assert!(x.output_ty() == bin());

    let and = Function::new_concrete("AND", vec![x, top], bin());
    assert_eq!(and.label(), "AND");
    assert!(and.output_ty() == bin());
}

#[test]
fn concrete_derives_input_types_from_children() {
    let nat = Type::new_prim("Nat");
    let a = Function::new_var("a", bin());
    let b = Function::new_var("b", nat.clone());
    let node = Function::new_concrete("PAIR", vec![a.clone(), b.clone()], nat.clone());
    assert!(node.output_ty() == nat);
    let tys = node.input_tys();
    assert_eq!(tys.len(), 2);
    assert!(tys[0] == a.output_ty());
    assert!(tys[1] == b.output_ty());
}

#[test]
fn leaves_have_no_input_types_and_no_children() {
    let top = Function::new_const("TOP", bin());
    assert_eq!(top.input_tys().len(), 0);
    assert_eq!(top.input_as_ref().len(), 0);
    let x = Function::new_var("x", bin());
    assert_eq!(x.input_tys().len(), 0);
    assert_eq!(x.input_as_ref().len(), 0);
}

#[test]
fn input_as_ref_hands_out_the_children_in_order() {
    let (_, _, and, x, _, top) = sample();
    let kids = and.input_as_ref();
    assert_eq!(kids.len(), 2);
    assert!(kids[0].same(&x));
    assert!(kids[1].same(&top));
}

#[test]
fn input_len_counts_application_nodes() {
    // A constant or a variable counts 0; an application counts 1 plus its
    // children's counts. The sample tree holds the applications NOT, OR
    // and AND, so its count is 3, while it has 6 nodes in all.
    let (not, or, and, x, y, top) = sample();
    assert_eq!(x.input_len(), 0);
    assert_eq!(y.input_len(), 0);
    assert_eq!(top.input_len(), 0);
    assert_eq!(and.input_len(), 1);
    assert_eq!(or.input_len(), 2);
    assert_eq!(not.input_len(), 3);
}

#[test]
fn traverse_is_preorder_with_depths() {
    let (not, or, and, x, y, top) = sample();
    let items = not.traverse();
    assert_eq!(items.len(), 6);

    let labels: Vec<String> = items.iter().map(|p| p.1.label()).collect();
    assert_eq!(labels, vec!["NOT", "OR", "y", "AND", "x", "TOP"]);

    let depths: Vec<usize> = items.iter().map(|p| p.0).collect();
    assert_eq!(depths, vec![0, 1, 2, 2, 3, 3]);

    assert!(items[0].1.same(&not));
    assert!(items[1].1.same(&or));
    assert!(items[2].1.same(&y));
    assert!(items[3].1.same(&and));
    assert!(items[4].1.same(&x));
    assert!(items[5].1.same(&top));
}

#[test]
fn traverse_yields_each_node_exactly_once() {
    let (not, or, and, x, y, top) = sample();
    let items = not.traverse();
    let all = [&not, &or, &and, &x, &y, &top];
    for node in all {
        let hits = items.iter().filter(|p| p.1.same(node)).count();
        assert_eq!(hits, 1);
    }
}

#[test]
fn iter_walks_like_traverse_and_restarts() {
    let (not, ..) = sample();
    let items = not.traverse();
    let mut it = not.iter();
    for pair in &items {
        let (d, f) = it.next().unwrap();
        assert_eq!(d, pair.0);
        assert!(f.same(&pair.1));
    }
    assert!(it.next().is_none());
    assert!(it.next().is_none());

    let mut again = not.iter();
    let (d, f) = again.next().unwrap();
    assert_eq!(d, 0);
    assert!(f.same(&not));
}

#[test]
fn by_id_finds_the_node_itself() {
    let (not, ..) = sample();
    let found = not.by_id(&not.get_id()).unwrap();
    assert!(found.same(&not));
    assert!(found == not);
}

#[test]
fn by_id_finds_a_deep_subterm_structurally_equal_to_it() {
    let (not, _, _, x, _, _) = sample();
    let found = not.by_id(&x.get_id()).unwrap();
    assert!(found == x);
    assert!(found.same(&x));
}

#[test]
fn by_id_misses_a_fresh_identity() {
    let (not, ..) = sample();
    assert!(not.by_id(&Identity::fresh()).is_none());
}

#[test]
fn fresh_identities_differ() {
    let a = Identity::fresh();
    let b = Identity::fresh();
    assert!(a != b);
}

#[test]
fn structural_equality_ignores_identity() {
    let c1 = Function::new_const("TOP", bin());
    let c2 = Function::new_const("TOP", bin());
    assert!(c1.equals(&c2));
    assert!(c1 == c2);
    assert!(c1.get_id() != c2.get_id());
    assert!(!c1.same(&c2));
}

#[test]
fn structural_equality_compares_shape_labels_and_types() {
    let c1 = Function::new_const("TOP", bin());
    let c2 = Function::new_const("BOT", bin());
    assert!(c1 != c2);

    let v = Function::new_var("TOP", bin());
    assert!(c1 != v);

    let c3 = Function::new_const("TOP", Type::new_prim("Nat"));
    assert!(c1 != c3);

    // The singleton coercion reaches through structural equality.
    let c4 = Function::new_const("TOP", Type::new_seq(vec![bin()]));
    assert!(c1 == c4);
}

#[test]
fn structural_equality_recurses_into_children() {
    let a1 = Function::new_concrete("AND", vec![Function::new_var("x", bin())], bin());
    let a2 = Function::new_concrete("AND", vec![Function::new_var("x", bin())], bin());
    let a3 = Function::new_concrete("AND", vec![Function::new_var("z", bin())], bin());
    let a4 = Function::new_concrete("AND", vec![], bin());
    assert!(a1 == a2);
    assert!(!a1.same(&a2));
    assert!(a1 != a3);
    assert!(a1 != a4);
}

#[test]
fn set_input_replaces_one_child_and_keeps_the_identity() {
    let (_, _, and, x, _, top) = sample();
    let z = Function::new_var("z", bin());
    let swapped = and.set_input(0, z.clone()).ok().unwrap();
    assert!(swapped.same(&and));
    let kids = swapped.input_as_ref();
    assert_eq!(kids.len(), 2);
    assert!(kids[0].same(&z));
    assert!(kids[1].same(&top));
    // The original tree is untouched.
    assert!(and.input_as_ref()[0].same(&x));
}

#[test]
fn set_input_accepts_a_coercible_replacement() {
    let (_, _, and, _, _, _) = sample();
    let wrapped = Function::new_var("w", Type::new_seq(vec![bin()]));
    assert!(and.set_input(1, wrapped).is_ok());
}

#[test]
fn set_input_rejects_a_mismatched_replacement() {
    let (_, _, and, _, _, _) = sample();
    let wrong = Function::new_var("n", Type::new_prim("Nat"));
    let r = and.set_input(0, wrong);
    assert!(matches!(r, Err(InputSetError::TypeMismatch)));
}

#[test]
fn set_input_rejects_a_position_past_the_arity() {
    let (_, _, and, _, y, _) = sample();
    let r = and.set_input(2, y);
    assert!(matches!(r, Err(InputSetError::OutOfBounds)));
}

#[test]
fn set_input_rejects_leaves() {
    let (_, _, _, x, y, top) = sample();
    assert!(matches!(
        top.set_input(0, y.clone()),
        Err(InputSetError::CannotInputConstant)
    ));
    assert!(matches!(x.set_input(0, y), Err(InputSetError::OutOfBounds)));
}

#[test]
fn new_checked_accepts_agreeing_declared_types() {
    let x = Function::new_var("x", bin());
    let top = Function::new_const("TOP", bin());
    let node = Function::new_checked(
        "AND",
        vec![bin(), Type::new_seq(vec![bin()])],
        vec![x.clone(), top.clone()],
        bin(),
    )
    .ok()
    .unwrap();
    assert_eq!(node.label(), "AND");
    let derived = Function::new_concrete("AND", vec![x, top], bin());
    assert!(node.output_ty() == derived.output_ty());
    assert_eq!(node.input_as_ref().len(), 2);
}

#[test]
fn new_checked_rejects_a_disagreeing_declared_type() {
    let x = Function::new_var("x", bin());
    let r = Function::new_checked("AND", vec![Type::new_prim("Nat")], vec![x], bin());
    assert!(matches!(r, Err(InputSetError::TypeMismatch)));
}

#[test]
fn new_checked_rejects_a_length_mismatch() {
    let x = Function::new_var("x", bin());
    let r = Function::new_checked("AND", vec![], vec![x], bin());
    assert!(matches!(r, Err(InputSetError::TypeMismatch)));
}
