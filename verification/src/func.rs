//! The expression tree: terms built from nullary constants, nullary
//! variables, and n-ary applications of named operators to typed sub-terms.
//! Every node carries a process-unique identity; structural equality
//! ignores it, lookup and change detection go by it.

use crate::ident::Identity;
use crate::types::{seq_ty_view, ty_eq, ty_view, Type, TyView};
use vstd::multiset::Multiset;
use vstd::prelude::*;

verus! {

/// The mathematical shape of an expression node, identity included.
#[verifier::ext_equal]
pub enum FnView {
    Const { name: Seq<char>, out: TyView, id: u128 },
    Variable { tag: Seq<char>, out: TyView, id: u128 },
    Concrete { name: Seq<char>, ins: Seq<TyView>, out: TyView, children: Seq<FnView>, id: u128 },
}

impl FnView {
    /// The node's own label: its name, or for a variable its tag.
    pub open spec fn label(self) -> Seq<char> {
        match self {
            FnView::Const { name, .. } => name,
            FnView::Variable { tag, .. } => tag,
            FnView::Concrete { name, .. } => name,
        }
    }

    /// The node's output type.
    pub open spec fn out(self) -> TyView {
        match self {
            FnView::Const { out, .. } => out,
            FnView::Variable { out, .. } => out,
            FnView::Concrete { out, .. } => out,
        }
    }

    /// The node's identity token.
    pub open spec fn id(self) -> u128 {
        match self {
            FnView::Const { id, .. } => id,
            FnView::Variable { id, .. } => id,
            FnView::Concrete { id, .. } => id,
        }
    }

    /// The node's immediate sub-terms; empty for a constant or a variable.
    pub open spec fn children(self) -> Seq<FnView> {
        match self {
            FnView::Concrete { children, .. } => children,
            _ => Seq::empty(),
        }
    }

    /// The node's declared input types; empty for a constant or a variable.
    pub open spec fn ins(self) -> Seq<TyView> {
        match self {
            FnView::Concrete { ins, .. } => ins,
            _ => Seq::empty(),
        }
    }
}

/// The number of nodes in the subtree rooted at a node, the node itself
/// included.
pub open spec fn fn_size(v: FnView) -> nat
    decreases v,
{
    match v {
        FnView::Concrete { children, .. } => 1 + seq_fn_size(children),
        _ => 1,
    }
}

/// The total node count of a sequence of subtrees.
pub open spec fn seq_fn_size(s: Seq<FnView>) -> nat
    decreases s,
{
    if s.len() == 0 {
        0
    } else {
        fn_size(s[0]) + seq_fn_size(s.drop_first())
    }
}

/// A subtree counts for no more than the whole sequence.
pub proof fn lemma_seq_fn_size_elem(s: Seq<FnView>, i: int)
    requires
        0 <= i < s.len(),
    ensures
        fn_size(s[i]) <= seq_fn_size(s),
    decreases s.len(),
{
    if i > 0 {
        lemma_seq_fn_size_elem(s.drop_first(), i - 1);
        assert(s.drop_first()[i - 1] == s[i]);
    }
}

/// Type agreement: in every application node, the declared input types
/// match the children one for one, and each declared type equals the
/// child's output type; constructors establish this and rebuilding
/// operations preserve it.
pub open spec fn fn_wf(v: FnView) -> bool
    decreases v,
{
    match v {
        FnView::Concrete { ins, children, .. } => {
            &&& ins.len() == children.len()
            &&& (forall|i: int| 0 <= i < ins.len() ==> ty_eq(#[trigger] ins[i], children[i].out()))
            &&& (forall|i: int| 0 <= i < children.len() ==> fn_wf(#[trigger] children[i]))
        },
        _ => true,
    }
}

/// An expression node: a named constant, a named variable, or the
/// application of a named operator to typed sub-terms. Each node carries
/// the identity it was built with.
pub enum Function {
    Const { name: String, output_ty: Type, id: Identity },
    Variable { tag: String, output_ty: Type, id: Identity },
    Concrete { name: String, input_ty: Vec<Type>, output_ty: Type, input: Vec<Function>, id: Identity },
}

/// The shape of an expression node.
pub open spec fn fn_view(f: Function) -> FnView
    decreases f,
{
    match f {
        Function::Const { name, output_ty, id } => FnView::Const {
            name: name@,
            out: ty_view(output_ty),
            id: id@,
        },
        Function::Variable { tag, output_ty, id } => FnView::Variable {
            tag: tag@,
            out: ty_view(output_ty),
            id: id@,
        },
        Function::Concrete { name, input_ty, output_ty, input, id } => FnView::Concrete {
            name: name@,
            ins: seq_ty_view(input_ty@),
            out: ty_view(output_ty),
            children: seq_fn_view(input@),
            id: id@,
        },
    }
}

/// The shapes of a sequence of expression nodes, elementwise.
pub open spec fn seq_fn_view(s: Seq<Function>) -> Seq<FnView>
    decreases s,
{
    if s.len() == 0 {
        Seq::empty()
    } else {
        seq![fn_view(s[0])] + seq_fn_view(s.drop_first())
    }
}

/// `seq_fn_view` maps `fn_view` over the sequence, elementwise.
pub proof fn lemma_seq_fn_view(s: Seq<Function>)
    ensures
        seq_fn_view(s).len() == s.len(),
        forall|i: int| 0 <= i < s.len() ==> #[trigger] seq_fn_view(s)[i] == fn_view(s[i]),
    decreases s.len(),
{
    if s.len() > 0 {
        lemma_seq_fn_view(s.drop_first());
        assert forall|i: int| 0 <= i < s.len() implies #[trigger] seq_fn_view(s)[i] == fn_view(
            s[i],
        ) by {
            if i > 0 {
                assert(s.drop_first()[i - 1] == s[i]);
            }
        }
    }
}

/// Two equally long sequences of nodes with elementwise equal shapes have
/// equal shape sequences.
pub proof fn lemma_seq_fn_view_congruence(a: Seq<Function>, b: Seq<Function>)
    requires
        a.len() == b.len(),
        forall|i: int| 0 <= i < a.len() ==> fn_view(#[trigger] a[i]) == fn_view(b[i]),
    ensures
        seq_fn_view(a) == seq_fn_view(b),
{
    lemma_seq_fn_view(a);
    lemma_seq_fn_view(b);
    assert forall|i: int| 0 <= i < a.len() implies seq_fn_view(a)[i] == seq_fn_view(b)[i] by {
        assert(fn_view(a[i]) == fn_view(b[i]));
    }
    assert(seq_fn_view(a) =~= seq_fn_view(b));
}

impl View for Function {
    type V = FnView;

    open spec fn view(&self) -> FnView {
        fn_view(*self)
    }
}

impl DeepView for Function {
    type V = FnView;

    open spec fn deep_view(&self) -> FnView {
        fn_view(*self)
    }
}

impl Function {
    /// Builds a nullary constant with a fresh identity.
    pub fn new_const(name: &str, output_ty: Type) -> (r: Function)
        ensures
            r@ matches FnView::Const { name: n, out, .. } && n == name@ && out == output_ty@,
            fn_wf(r@),
    {
        Function::Const { name: name.to_owned(), output_ty, id: Identity::fresh() }
    }

    /// Builds a nullary variable with a fresh identity; it differs from a
    /// constant only in role, not in arity.
    pub fn new_var(tag: &str, output_ty: Type) -> (r: Function)
        ensures
            r@ matches FnView::Variable { tag: t, out, .. } && t == tag@ && out == output_ty@,
            fn_wf(r@),
    {
        Function::Variable { tag: tag.to_owned(), output_ty, id: Identity::fresh() }
    }

    /// The node's output type, whatever its variant.
    pub fn output_ty(&self) -> (r: Type)
        ensures
            r@ == self@.out(),
    {
        self.out_ref().clone()
    }

    /// A borrow of the node's output type.
    fn out_ref(&self) -> (r: &Type)
        ensures
            r@ == self@.out(),
    {
        match self {
            Function::Const { output_ty, .. } => output_ty,
            Function::Variable { output_ty, .. } => output_ty,
            Function::Concrete { output_ty, .. } => output_ty,
        }
    }

    /// The node's identity token.
    pub fn get_id(&self) -> (r: Identity)
        ensures
            r@ == self@.id(),
    {
        match self {
            Function::Const { id, .. } => *id,
            Function::Variable { id, .. } => *id,
            Function::Concrete { id, .. } => *id,
        }
    }

    /// The node's own label, as text: its name, or for a variable its tag.
    pub fn label(&self) -> (r: String)
        ensures
            r@ == self@.label(),
    {
        match self {
            Function::Const { name, .. } => name.clone(),
            Function::Variable { tag, .. } => tag.clone(),
            Function::Concrete { name, .. } => name.clone(),
        }
    }

    /// The "same data" relation: identity equality, strictly coarser than
    /// structural equality. Two nodes are the same iff they carry the same
    /// identity token.
    pub fn same(&self, other: &Function) -> (r: bool)
        ensures
            r == (self@.id() == other@.id()),
    {
        let a = self.get_id();
        let b = other.get_id();
        proof {
            crate::ident::lemma_identity_view(a, b);
        }
        a == b
    }
}

/// Recursive worker for cloning a node; the copy has the shape of the
/// original, identity included.
fn clone_function(f: &Function) -> (r: Function)
    ensures
        r@ == f@,
    decreases fn_size(f@), 0int,
{
    match f {
        Function::Const { name, output_ty, id } => Function::Const {
            name: name.clone(),
            output_ty: output_ty.clone(),
            id: *id,
        },
        Function::Variable { tag, output_ty, id } => Function::Variable {
            tag: tag.clone(),
            output_ty: output_ty.clone(),
            id: *id,
        },
        Function::Concrete { name, input_ty, output_ty, input, id } => {
            let tys = crate::types::clone_type_vec(input_ty);
            let kids = clone_function_vec(input);
            proof {
                crate::types::lemma_seq_ty_view_congruence(tys@, input_ty@);
                lemma_seq_fn_view_congruence(kids@, input@);
            }
            Function::Concrete {
                name: name.clone(),
                input_ty: tys,
                output_ty: output_ty.clone(),
                input: kids,
                id: *id,
            }
        },
    }
}

/// Clones every element of a vector of nodes, keeping every shape.
fn clone_function_vec(v: &Vec<Function>) -> (r: Vec<Function>)
    ensures
        r@.len() == v@.len(),
        forall|i: int| 0 <= i < v@.len() ==> (#[trigger] r@[i])@ == v@[i]@,
    decreases seq_fn_size(seq_fn_view(v@)), 1int,
{
    proof {
        lemma_seq_fn_view(v@);
    }
    let mut r: Vec<Function> = Vec::new();
    let n = v.len();
    let mut i: usize = 0;
    while i < n
        invariant
            0 <= i <= n,
            n == v@.len(),
            r@.len() == i,
            seq_fn_view(v@).len() == v@.len(),
            forall|j: int| 0 <= j < v@.len() ==> #[trigger] seq_fn_view(v@)[j] == fn_view(v@[j]),
            forall|j: int| 0 <= j < i ==> (#[trigger] r@[j])@ == v@[j]@,
        decreases n - i,
    {
        proof {
            lemma_seq_fn_size_elem(seq_fn_view(v@), i as int);
        }
        let c = clone_function(&v[i]);
        r.push(c);
        i = i + 1;
    }
    r
}

impl Clone for Function {
    /// A deep copy; the copy has the shape of the original, identity
    /// included.
    fn clone(&self) -> (r: Self)
        ensures
            r@ == self@,
    {
        clone_function(self)
    }
}

/// The arity count of a subtree: 0 for a constant or a variable, and 1
/// plus the children's counts for an application. Under this convention
/// the count is the number of application nodes in the subtree, not the
/// number of all its nodes; `fn_size` counts all of them, and is what a
/// traversal yields.
pub open spec fn input_len_spec(v: FnView) -> nat
    decreases v,
{
    match v {
        FnView::Concrete { children, .. } => 1 + seq_input_len(children),
        _ => 0,
    }
}

/// The total application-node count of a sequence of subtrees.
pub open spec fn seq_input_len(s: Seq<FnView>) -> nat
    decreases s,
{
    if s.len() == 0 {
        0
    } else {
        input_len_spec(s[0]) + seq_input_len(s.drop_first())
    }
}

/// The application-node count never exceeds the node count.
pub proof fn lemma_input_len_le_size(v: FnView)
    ensures
        input_len_spec(v) <= fn_size(v),
    decreases v,
{
    match v {
        FnView::Concrete { children, .. } => {
            lemma_seq_input_len_le_size(children);
        },
        _ => {},
    }
}

/// The application-node count of a sequence never exceeds its node count.
pub proof fn lemma_seq_input_len_le_size(s: Seq<FnView>)
    ensures
        seq_input_len(s) <= seq_fn_size(s),
    decreases s,
{
    if s.len() > 0 {
        lemma_input_len_le_size(s[0]);
        lemma_seq_input_len_le_size(s.drop_first());
    }
}

/// Unfolds the per-subtree sums one element at a time.
proof fn lemma_fn_skip_unfold(s: Seq<FnView>, i: int)
    requires
        0 <= i < s.len(),
    ensures
        s.skip(i).len() == s.len() - i,
        s.skip(i)[0] == s[i],
        s.skip(i + 1) =~= s.skip(i).drop_first(),
        seq_fn_size(s.skip(i)) == fn_size(s[i]) + seq_fn_size(s.skip(i + 1)),
        seq_input_len(s.skip(i)) == input_len_spec(s[i]) + seq_input_len(s.skip(i + 1)),
{
    assert(s.skip(i + 1) =~= s.skip(i).drop_first());
}

impl Function {
    /// Builds an application node with a fresh identity; the declared
    /// input types are derived from the children, one for one, so no type
    /// mismatch can arise. The children keep their own identities.
    pub fn new_concrete(name: &str, input: Vec<Function>, output_ty: Type) -> (r: Function)
        ensures
            r@ matches FnView::Concrete { name: n, ins, out, children, .. } && n == name@ && out
                == output_ty@ && children == seq_fn_view(input@) && ins.len() == input@.len() && (
            forall|i: int| 0 <= i < input@.len() ==> ins[i] == fn_view(#[trigger] input@[i]).out()),
            (forall|i: int| 0 <= i < input@.len() ==> fn_wf(fn_view(#[trigger] input@[i])))
                ==> fn_wf(r@),
    {
        let tys = derive_input_tys(&input);
        let r = Function::Concrete {
            name: name.to_owned(),
            input_ty: tys,
            output_ty,
            input,
            id: Identity::fresh(),
        };
        proof {
            match &r {
                Function::Concrete { input_ty, input, .. } => {
                    crate::types::lemma_seq_ty_view(input_ty@);
                    lemma_seq_fn_view(input@);
                    assert forall|i: int|
                        0 <= i < input@.len() implies #[trigger] seq_ty_view(input_ty@)[i]
                        == fn_view(input@[i]).out() by {}
                    if forall|i: int| 0 <= i < input@.len() ==> fn_wf(fn_view(#[trigger] input@[i])) {
                        assert forall|i: int|
                            0 <= i < seq_ty_view(input_ty@).len() implies ty_eq(
                            #[trigger] seq_ty_view(input_ty@)[i],
                            seq_fn_view(input@)[i].out(),
                        ) by {
                            crate::types::lemma_ty_eq_refl(seq_ty_view(input_ty@)[i]);
                        }
                    }
                },
                _ => {},
            }
        }
        r
    }

    /// The arity count of the subtree at this node: 0 for a constant or
    /// a variable, 1 plus the children's counts for an application — the
    /// number of application nodes below and including this one, not the
    /// subtree's node total.
    pub fn input_len(&self) -> (r: usize)
        requires
            fn_size(self@) <= usize::MAX,
        ensures
            r == input_len_spec(self@),
        decreases fn_size(self@), 0int,
    {
        match self {
            Function::Concrete { input, .. } => {
                proof {
                    lemma_seq_fn_view(input@);
                    lemma_seq_input_len_le_size(seq_fn_view(input@));
                    assert(seq_fn_view(input@).skip(0) =~= seq_fn_view(input@));
                }
                let rest = input_len_from(input, 0);
                1 + rest
            },
            _ => 0,
        }
    }
}

/// Collects the output types of the given nodes, in order.
fn derive_input_tys(v: &Vec<Function>) -> (r: Vec<Type>)
    ensures
        r@.len() == v@.len(),
        forall|i: int| 0 <= i < v@.len() ==> (#[trigger] r@[i])@ == fn_view(v@[i]).out(),
{
    let mut r: Vec<Type> = Vec::new();
    let n = v.len();
    let mut i: usize = 0;
    while i < n
        invariant
            0 <= i <= n,
            n == v@.len(),
            r@.len() == i,
            forall|j: int| 0 <= j < i ==> (#[trigger] r@[j])@ == fn_view(v@[j]).out(),
        decreases n - i,
    {
        let t = v[i].output_ty();
        r.push(t);
        i = i + 1;
    }
    r
}

/// Sums the application-node counts of the subtrees from position `i` on.
fn input_len_from(v: &Vec<Function>, i: usize) -> (r: usize)
    requires
        i <= v@.len(),
        seq_fn_size(seq_fn_view(v@).skip(i as int)) <= usize::MAX,
    ensures
        r == seq_input_len(seq_fn_view(v@).skip(i as int)),
    decreases seq_fn_size(seq_fn_view(v@).skip(i as int)), v@.len() - i,
{
    proof {
        lemma_seq_fn_view(v@);
    }
    if i == v.len() {
        proof {
            assert(seq_fn_view(v@).skip(i as int) =~= Seq::empty());
        }
        0
    } else {
        proof {
            lemma_fn_skip_unfold(seq_fn_view(v@), i as int);
            lemma_input_len_le_size(seq_fn_view(v@)[i as int]);
            lemma_seq_input_len_le_size(seq_fn_view(v@).skip(i + 1 as int));
        }
        let head = v[i].input_len();
        let rest = input_len_from(v, i + 1);
        head + rest
    }
}

/// The nodes of the subtree at `v`, in depth-first pre-order: the node
/// itself first, then each child's subtree, left to right.
pub open spec fn preorder(v: FnView) -> Seq<FnView>
    decreases v,
{
    match v {
        FnView::Concrete { children, .. } => seq![v] + seq_preorder(children),
        _ => seq![v],
    }
}

/// The pre-order nodes of a sequence of subtrees, left to right.
pub open spec fn seq_preorder(s: Seq<FnView>) -> Seq<FnView>
    decreases s,
{
    if s.len() == 0 {
        Seq::empty()
    } else {
        preorder(s[0]) + seq_preorder(s.drop_first())
    }
}

/// The pre-order nodes of the subtree at `v` paired with their depths,
/// the root itself at depth `d` and each child one deeper than its parent.
pub open spec fn pre_pairs(v: FnView, d: int) -> Seq<(int, FnView)>
    decreases v,
{
    match v {
        FnView::Concrete { children, .. } => seq![(d, v)] + seq_pre_pairs(children, d + 1),
        _ => seq![(d, v)],
    }
}

/// The depth-paired pre-order nodes of a sequence of subtrees, all their
/// roots at depth `d`.
pub open spec fn seq_pre_pairs(s: Seq<FnView>, d: int) -> Seq<(int, FnView)>
    decreases s,
{
    if s.len() == 0 {
        Seq::empty()
    } else {
        pre_pairs(s[0], d) + seq_pre_pairs(s.drop_first(), d)
    }
}

/// Pre-order lists as many nodes as the subtree holds, and the subtree's
/// root comes first.
pub proof fn lemma_preorder_len(v: FnView)
    ensures
        preorder(v).len() == fn_size(v),
        preorder(v)[0] == v,
    decreases v,
{
    match v {
        FnView::Concrete { children, .. } => {
            lemma_seq_preorder_len(children);
        },
        _ => {},
    }
}

/// A sequence of subtrees lists as many pre-order nodes as it holds.
pub proof fn lemma_seq_preorder_len(s: Seq<FnView>)
    ensures
        seq_preorder(s).len() == seq_fn_size(s),
    decreases s,
{
    if s.len() > 0 {
        lemma_preorder_len(s[0]);
        lemma_seq_preorder_len(s.drop_first());
    }
}

/// The depth-paired traversal runs parallel to the plain one: same length,
/// same nodes in the same order, and every depth lies between the root's
/// depth and the root's depth plus the subtree's node count.
pub proof fn lemma_pre_pairs_parallel(v: FnView, d: int)
    ensures
        pre_pairs(v, d).len() == fn_size(v),
        forall|i: int|
            0 <= i < pre_pairs(v, d).len() ==> ((#[trigger] pre_pairs(v, d)[i]).1 == preorder(v)[i]
                && d <= pre_pairs(v, d)[i].0 < d + fn_size(v)),
        pre_pairs(v, d)[0] == (d, v),
    decreases v,
{
    lemma_preorder_len(v);
    match v {
        FnView::Concrete { children, .. } => {
            lemma_seq_pre_pairs_parallel(children, d + 1);
            lemma_seq_preorder_len(children);
        },
        _ => {},
    }
}

/// The sequence form of `lemma_pre_pairs_parallel`.
pub proof fn lemma_seq_pre_pairs_parallel(s: Seq<FnView>, d: int)
    ensures
        seq_pre_pairs(s, d).len() == seq_fn_size(s),
        forall|i: int|
            0 <= i < seq_pre_pairs(s, d).len() ==> ((#[trigger] seq_pre_pairs(s, d)[i]).1
                == seq_preorder(s)[i] && d <= seq_pre_pairs(s, d)[i].0 < d + seq_fn_size(s)),
    decreases s,
{
    if s.len() > 0 {
        lemma_pre_pairs_parallel(s[0], d);
        lemma_seq_pre_pairs_parallel(s.drop_first(), d);
        lemma_preorder_len(s[0]);
        lemma_seq_preorder_len(s.drop_first());
    }
}

/// The multiset of nodes of the subtree at `v`: the root, and every node
/// of every child's subtree.
pub open spec fn node_multiset(v: FnView) -> Multiset<FnView>
    decreases v,
{
    match v {
        FnView::Concrete { children, .. } => Multiset::empty().insert(v).add(
            seq_node_multiset(children),
        ),
        _ => Multiset::empty().insert(v),
    }
}

/// The combined node multiset of a sequence of subtrees.
pub open spec fn seq_node_multiset(s: Seq<FnView>) -> Multiset<FnView>
    decreases s,
{
    if s.len() == 0 {
        Multiset::empty()
    } else {
        node_multiset(s[0]).add(seq_node_multiset(s.drop_first()))
    }
}

/// Pre-order yields every node of the subtree exactly once: as a multiset,
/// the traversal is the subtree.
pub proof fn lemma_preorder_complete(v: FnView)
    ensures
        preorder(v).to_multiset() == node_multiset(v),
    decreases v,
{
    broadcast use vstd::seq_lib::group_to_multiset_ensures;

    match v {
        FnView::Concrete { children, .. } => {
            lemma_seq_preorder_complete(children);
            vstd::seq_lib::lemma_multiset_commutative(seq![v], seq_preorder(children));
            assert(seq![v] =~= Seq::empty().push(v));
            assert(seq![v].to_multiset() =~= Multiset::empty().insert(v));
        },
        _ => {
            assert(seq![v] =~= Seq::empty().push(v));
            assert(seq![v].to_multiset() =~= Multiset::empty().insert(v));
        },
    }
}

/// The sequence form of `lemma_preorder_complete`.
pub proof fn lemma_seq_preorder_complete(s: Seq<FnView>)
    ensures
        seq_preorder(s).to_multiset() == seq_node_multiset(s),
    decreases s,
{
    if s.len() > 0 {
        lemma_preorder_complete(s[0]);
        lemma_seq_preorder_complete(s.drop_first());
        vstd::seq_lib::lemma_multiset_commutative(preorder(s[0]), seq_preorder(s.drop_first()));
    } else {
        broadcast use vstd::seq_lib::group_to_multiset_ensures;

        assert(seq_preorder(s).to_multiset() =~= Multiset::empty());
    }
}

/// The depth-paired shape of a vector of depth-and-node pairs.
pub open spec fn pairs_view(s: Seq<(usize, Function)>) -> Seq<(int, FnView)> {
    Seq::new(s.len(), |i: int| (s[i].0 as int, fn_view(s[i].1)))
}

/// Unfolds the per-subtree pair sequences one element at a time.
proof fn lemma_pre_pairs_skip_unfold(s: Seq<FnView>, i: int, d: int)
    requires
        0 <= i < s.len(),
    ensures
        seq_pre_pairs(s.skip(i), d) == pre_pairs(s[i], d) + seq_pre_pairs(s.skip(i + 1), d),
{
    assert(s.skip(i + 1) =~= s.skip(i).drop_first());
    assert(s.skip(i)[0] == s[i]);
}

impl Function {
    /// Flattens the subtree at this node into its depth-first pre-order,
    /// pairing each node with its depth: the node itself first at depth 0,
    /// then each child's subtree in order, one level deeper per step down.
    /// Each call walks the tree afresh; the result is independent of any
    /// earlier call.
    pub fn traverse(&self) -> (r: Vec<(usize, Function)>)
        requires
            fn_size(self@) <= usize::MAX,
        ensures
            pairs_view(r@) == pre_pairs(self@, 0),
    {
        let mut out: Vec<(usize, Function)> = Vec::new();
        push_pre(self, 0, &mut out);
        proof {
            assert(pairs_view(out@) =~= pairs_view(Seq::empty()) + pre_pairs(self@, 0));
            assert(pairs_view(Seq::empty()) + pre_pairs(self@, 0) =~= pre_pairs(self@, 0));
        }
        out
    }
}

/// Appends the depth-paired pre-order of the subtree at `f`, rooted at
/// depth `d`, to `out`.
fn push_pre(f: &Function, d: usize, out: &mut Vec<(usize, Function)>)
    requires
        d + fn_size(f@) <= usize::MAX,
    ensures
        pairs_view(final(out)@) == pairs_view(old(out)@) + pre_pairs(f@, d as int),
    decreases fn_size(f@), 0int,
{
    proof {
        lemma_pre_pairs_parallel(f@, d as int);
    }
    let c = clone_function(f);
    out.push((d, c));
    match f {
        Function::Concrete { input, .. } => {
            proof {
                lemma_seq_fn_view(input@);
                assert(seq_fn_view(input@).skip(0) =~= seq_fn_view(input@));
            }
            push_pre_seq(input, 0, d + 1, out);
            proof {
                assert(pairs_view(final(out)@) =~= pairs_view(old(out)@) + pre_pairs(
                    f@,
                    d as int,
                ));
            }
        },
        _ => {
            proof {
                assert(pairs_view(final(out)@) =~= pairs_view(old(out)@) + pre_pairs(
                    f@,
                    d as int,
                ));
            }
        },
    }
}

/// Appends the depth-paired pre-orders of the subtrees from position `i`
/// on, all their roots at depth `d`, to `out`.
fn push_pre_seq(v: &Vec<Function>, i: usize, d: usize, out: &mut Vec<(usize, Function)>)
    requires
        i <= v@.len(),
        d + seq_fn_size(seq_fn_view(v@).skip(i as int)) <= usize::MAX,
    ensures
        pairs_view(final(out)@) == pairs_view(old(out)@) + seq_pre_pairs(
            seq_fn_view(v@).skip(i as int),
            d as int,
        ),
    decreases seq_fn_size(seq_fn_view(v@).skip(i as int)), v@.len() - i,
{
    proof {
        lemma_seq_fn_view(v@);
    }
    if i == v.len() {
        proof {
            assert(seq_fn_view(v@).skip(i as int) =~= Seq::empty());
            assert(pairs_view(out@) =~= pairs_view(out@) + seq_pre_pairs(
                Seq::empty(),
                d as int,
            ));
        }
    } else {
        proof {
            lemma_fn_skip_unfold(seq_fn_view(v@), i as int);
            lemma_pre_pairs_skip_unfold(seq_fn_view(v@), i as int, d as int);
        }
        push_pre(&v[i], d, out);
        push_pre_seq(v, i + 1, d, out);
        proof {
            assert(pairs_view(final(out)@) =~= pairs_view(old(out)@) + seq_pre_pairs(
                seq_fn_view(v@).skip(i as int),
                d as int,
            ));
        }
    }
}

/// The first node of a pre-order listing that carries the given identity,
/// if any does.
pub open spec fn first_with_id(s: Seq<FnView>, id: u128) -> Option<FnView>
    decreases s.len(),
{
    if s.len() == 0 {
        None
    } else if s[0].id() == id {
        Some(s[0])
    } else {
        first_with_id(s.drop_first(), id)
    }
}

/// The lookup fails exactly when no node of the listing carries the
/// identity.
pub proof fn lemma_first_with_id_none(s: Seq<FnView>, id: u128)
    ensures
        (first_with_id(s, id) is None) <==> (forall|i: int|
            0 <= i < s.len() ==> (#[trigger] s[i]).id() != id),
    decreases s.len(),
{
    if s.len() > 0 && s[0].id() != id {
        lemma_first_with_id_none(s.drop_first(), id);
        if first_with_id(s, id) is None {
            assert forall|i: int| 0 <= i < s.len() implies (#[trigger] s[i]).id() != id by {
                if i > 0 {
                    assert(s.drop_first()[i - 1] == s[i]);
                }
            }
        } else {
            assert(exists|j: int|
                0 <= j < s.drop_first().len() && (#[trigger] s.drop_first()[j]).id() == id);
            let j = choose|j: int|
                0 <= j < s.drop_first().len() && (#[trigger] s.drop_first()[j]).id() == id;
            assert(s[j + 1].id() == id);
        }
    }
}

/// What a successful lookup hands back: the earliest node of the listing
/// that carries the identity.
pub proof fn lemma_first_with_id_found(s: Seq<FnView>, id: u128)
    requires
        first_with_id(s, id) is Some,
    ensures
        exists|i: int|
            0 <= i < s.len() && #[trigger] s[i] == first_with_id(s, id)->Some_0 && s[i].id() == id
                && (forall|j: int| 0 <= j < i ==> (#[trigger] s[j]).id() != id),
    decreases s.len(),
{
    if s[0].id() == id {
        assert(s[0] == first_with_id(s, id)->Some_0 && (forall|j: int|
            0 <= j < 0 ==> (#[trigger] s[j]).id() != id));
    } else {
        lemma_first_with_id_found(s.drop_first(), id);
        let i = choose|i: int|
            0 <= i < s.drop_first().len() && #[trigger] s.drop_first()[i] == first_with_id(
                s.drop_first(),
                id,
            )->Some_0 && s.drop_first()[i].id() == id && (forall|j: int|
                0 <= j < i ==> (#[trigger] s.drop_first()[j]).id() != id);
        assert forall|j: int| 0 <= j < i + 1 implies (#[trigger] s[j]).id() != id by {
            if j > 0 {
                assert(s.drop_first()[j - 1] == s[j]);
            }
        }
        assert(s[i + 1] == s.drop_first()[i]);
    }
}

/// Looking a subtree up by its own root's identity always finds the root:
/// the root is first in pre-order.
pub proof fn lemma_find_self(v: FnView)
    ensures
        first_with_id(preorder(v), v.id()) == Some(v),
{
    lemma_preorder_len(v);
}

/// Scanning on from a position where nothing has matched yet skips that
/// position when it does not match either.
proof fn lemma_first_with_id_step(s: Seq<FnView>, id: u128, i: int)
    requires
        0 <= i < s.len(),
        s[i].id() != id,
    ensures
        first_with_id(s.skip(i), id) == first_with_id(s.skip(i + 1), id),
{
    assert(s.skip(i + 1) =~= s.skip(i).drop_first());
    assert(s.skip(i)[0] == s[i]);
}

impl Function {
    /// Scans the subtree at this node in pre-order for the node with the
    /// given identity and hands back a copy of the first match, or `None`
    /// when no node of the subtree carries the identity. An absent
    /// identity is a normal outcome, not an error.
    pub fn by_id(&self, id: &Identity) -> (r: Option<Function>)
        requires
            fn_size(self@) <= usize::MAX,
        ensures
            match first_with_id(preorder(self@), id@) {
                Some(v) => r matches Some(f) && f@ == v,
                None => r is None,
            },
    {
        proof {
            lemma_pre_pairs_parallel(self@, 0);
            lemma_preorder_len(self@);
            assert(preorder(self@).skip(0) =~= preorder(self@));
        }
        let items = self.traverse();
        let ghost pre = preorder(self@);
        proof {
            assert forall|j: int|
                0 <= j < items@.len() implies fn_view((#[trigger] items@[j]).1) == pre[j] by {
                assert(pairs_view(items@)[j] == pre_pairs(self@, 0)[j]);
            }
            assert(items@.len() == pre.len());
        }
        let n = items.len();
        let mut i: usize = 0;
        while i < n
            invariant
                0 <= i <= n,
                n == items@.len(),
                pre == preorder(self@),
                pre.len() == n,
                fn_size(self@) <= usize::MAX,
                forall|j: int| 0 <= j < n ==> fn_view((#[trigger] items@[j]).1) == pre[j],
                first_with_id(pre, id@) == first_with_id(pre.skip(i as int), id@),
            decreases n - i,
        {
            let ident = items[i].1.get_id();
            proof {
                crate::ident::lemma_identity_view(ident, *id);
            }
            if ident == *id {
                proof {
                    assert(pre.skip(i as int)[0] == pre[i as int]);
                }
                let f = clone_function(&items[i].1);
                return Some(f);
            }
            proof {
                lemma_first_with_id_step(pre, id@, i as int);
            }
            i = i + 1;
        }
        proof {
            assert(pre.skip(n as int) =~= Seq::<FnView>::empty());
        }
        None
    }

    /// A restartable cursor over the depth-paired pre-order of the subtree
    /// at this node; each call starts an independent walk.
    pub fn iter(&self) -> (it: FuncIter)
        requires
            fn_size(self@) <= usize::MAX,
        ensures
            it@ == pre_pairs(self@, 0),
            it.position() == 0,
    {
        FuncIter { items: self.traverse(), ix: 0 }
    }

    /// The node's declared input types, in order; empty for a constant or
    /// a variable.
    pub fn input_tys(&self) -> (r: Vec<Type>)
        ensures
            r@.len() == self@.ins().len(),
            forall|i: int| 0 <= i < r@.len() ==> (#[trigger] r@[i])@ == self@.ins()[i],
    {
        match self {
            Function::Concrete { input_ty, .. } => {
                proof {
                    crate::types::lemma_seq_ty_view(input_ty@);
                }
                let r = crate::types::clone_type_vec(input_ty);
                proof {
                    crate::types::lemma_seq_ty_view(r@);
                }
                r
            },
            _ => Vec::new(),
        }
    }

    /// Borrows of the node's immediate children, in order; empty for a
    /// constant or a variable.
    pub fn input_as_ref(&self) -> (r: Vec<&Function>)
        ensures
            r@.len() == self@.children().len(),
            forall|i: int| 0 <= i < r@.len() ==> (#[trigger] r@[i])@ == self@.children()[i],
    {
        match self {
            Function::Concrete { input, .. } => {
                proof {
                    lemma_seq_fn_view(input@);
                }
                let mut r: Vec<&Function> = Vec::new();
                let n = input.len();
                let mut i: usize = 0;
                while i < n
                    invariant
                        0 <= i <= n,
                        n == input@.len(),
                        r@.len() == i,
                        seq_fn_view(input@).len() == input@.len(),
                        forall|j: int|
                            0 <= j < input@.len() ==> #[trigger] seq_fn_view(input@)[j] == fn_view(
                                input@[j],
                            ),
                        forall|j: int|
                            0 <= j < i ==> (#[trigger] r@[j])@ == seq_fn_view(input@)[j],
                    decreases n - i,
                {
                    r.push(&input[i]);
                    i = i + 1;
                }
                r
            },
            _ => Vec::new(),
        }
    }
}

/// A cursor over the depth-paired pre-order of a subtree; each call of
/// [`FuncIter::next`] hands out the next node with its depth, in order.
pub struct FuncIter {
    items: Vec<(usize, Function)>,
    ix: usize,
}

impl View for FuncIter {
    type V = Seq<(int, FnView)>;

    closed spec fn view(&self) -> Seq<(int, FnView)> {
        pairs_view(self.items@)
    }
}

impl FuncIter {
    /// How many pairs have been handed out so far.
    pub closed spec fn position(self) -> int {
        self.ix as int
    }

    #[verifier::type_invariant]
    spec fn in_range(self) -> bool {
        0 <= self.ix <= self.items@.len()
    }

    /// The next depth-and-node pair, or `None` once the walk is done.
    pub fn next(&mut self) -> (r: Option<(usize, Function)>)
        ensures
            final(self)@ == old(self)@,
            old(self).position() < old(self)@.len() ==> (
                r matches Some(p) && p.0 as int == old(self)@[old(self).position()].0
                && p.1@ == old(self)@[old(self).position()].1
                && final(self).position() == old(self).position() + 1),
            old(self).position() >= old(self)@.len() ==> (r is None && final(self).position()
                == old(self).position()),
    {
        proof {
            use_type_invariant(&*self);
        }
        if self.ix < self.items.len() {
            let d = self.items[self.ix].0;
            let f = clone_function(&self.items[self.ix].1);
            self.ix = self.ix + 1;
            Some((d, f))
        } else {
            None
        }
    }
}

/// Structural equality of nodes: same variant, same name or tag, equal
/// output types, and for an application equally many declared input types,
/// pairwise equal, and equally many children, pairwise structurally equal.
/// Identity is excluded: nodes built independently with the same shape are
/// structurally equal even though their identities differ.
pub open spec fn fn_eq(a: FnView, b: FnView) -> bool
    decreases fn_size(a) + fn_size(b),
{
    match (a, b) {
        (FnView::Const { name: n1, out: o1, .. }, FnView::Const { name: n2, out: o2, .. }) => n1
            == n2 && ty_eq(o1, o2),
        (
            FnView::Variable { tag: t1, out: o1, .. },
            FnView::Variable { tag: t2, out: o2, .. },
        ) => t1 == t2 && ty_eq(o1, o2),
        (
            FnView::Concrete { name: n1, ins: i1, out: o1, children: c1, .. },
            FnView::Concrete { name: n2, ins: i2, out: o2, children: c2, .. },
        ) => {
            n1 == n2 && ty_eq(o1, o2) && i1.len() == i2.len() && (forall|k: int|
                0 <= k < i1.len() ==> ty_eq(#[trigger] i1[k], i2[k])) && c1.len() == c2.len() && (
            forall|k: int|
                0 <= k < c1.len() ==> {
                    proof {
                        lemma_seq_fn_size_elem(c1, k);
                        lemma_seq_fn_size_elem(c2, k);
                    }
                    fn_eq(#[trigger] c1[k], c2[k])
                })
        },
        _ => false,
    }
}

impl Function {
    /// Structural equality as a named operation; the same relation as
    /// `==`. It ignores identity, where [`Function::same`] goes by
    /// nothing else.
    pub fn equals(&self, other: &Function) -> (r: bool)
        ensures
            r == fn_eq(self@, other@),
    {
        fn_eq_exec(self, other)
    }
}

/// Recursive worker for structural equality.
fn fn_eq_exec(a: &Function, b: &Function) -> (r: bool)
    ensures
        r == fn_eq(a@, b@),
    decreases fn_size(a@) + fn_size(b@), 0int,
{
    match a {
        Function::Const { name: n1, output_ty: o1, .. } => match b {
            Function::Const { name: n2, output_ty: o2, .. } => *n1 == *n2 && *o1 == *o2,
            _ => false,
        },
        Function::Variable { tag: t1, output_ty: o1, .. } => match b {
            Function::Variable { tag: t2, output_ty: o2, .. } => *t1 == *t2 && *o1 == *o2,
            _ => false,
        },
        Function::Concrete { name: n1, input_ty: t1, output_ty: o1, input: c1, .. } => match b {
            Function::Concrete { name: n2, input_ty: t2, output_ty: o2, input: c2, .. } => {
                proof {
                    crate::types::lemma_seq_ty_view(t1@);
                    crate::types::lemma_seq_ty_view(t2@);
                    lemma_seq_fn_view(c1@);
                    lemma_seq_fn_view(c2@);
                }
                if t1.len() == t2.len() && c1.len() == c2.len() {
                    *n1 == *n2 && *o1 == *o2 && tys_pairwise_eq(t1, t2) && fns_pairwise_eq(c1, c2)
                } else {
                    false
                }
            },
            _ => false,
        },
    }
}

/// Pairwise type equality of two equally long vectors of types.
fn tys_pairwise_eq(x: &Vec<Type>, y: &Vec<Type>) -> (r: bool)
    requires
        x@.len() == y@.len(),
    ensures
        r == (forall|k: int|
            0 <= k < x@.len() ==> ty_eq(#[trigger] seq_ty_view(x@)[k], seq_ty_view(y@)[k])),
{
    proof {
        crate::types::lemma_seq_ty_view(x@);
        crate::types::lemma_seq_ty_view(y@);
    }
    let n = x.len();
    let mut i: usize = 0;
    while i < n
        invariant
            0 <= i <= n,
            n == x@.len(),
            x@.len() == y@.len(),
            seq_ty_view(x@).len() == x@.len(),
            seq_ty_view(y@).len() == y@.len(),
            forall|k: int| 0 <= k < x@.len() ==> #[trigger] seq_ty_view(x@)[k] == ty_view(x@[k]),
            forall|k: int| 0 <= k < y@.len() ==> #[trigger] seq_ty_view(y@)[k] == ty_view(y@[k]),
            forall|k: int|
                0 <= k < i ==> ty_eq(#[trigger] seq_ty_view(x@)[k], seq_ty_view(y@)[k]),
        decreases n - i,
    {
        proof {
            assert(seq_ty_view(x@)[i as int] == ty_view(x@[i as int]));
            assert(seq_ty_view(y@)[i as int] == ty_view(y@[i as int]));
        }
        if !(&x[i] == &y[i]) {
            return false;
        }
        i = i + 1;
    }
    true
}

/// Pairwise structural equality of two equally long vectors of nodes.
fn fns_pairwise_eq(x: &Vec<Function>, y: &Vec<Function>) -> (r: bool)
    requires
        x@.len() == y@.len(),
    ensures
        r == (forall|k: int|
            0 <= k < x@.len() ==> fn_eq(#[trigger] seq_fn_view(x@)[k], seq_fn_view(y@)[k])),
    decreases seq_fn_size(seq_fn_view(x@)) + seq_fn_size(seq_fn_view(y@)), 1int,
{
    proof {
        lemma_seq_fn_view(x@);
        lemma_seq_fn_view(y@);
    }
    let n = x.len();
    let mut i: usize = 0;
    while i < n
        invariant
            0 <= i <= n,
            n == x@.len(),
            x@.len() == y@.len(),
            seq_fn_view(x@).len() == x@.len(),
            seq_fn_view(y@).len() == y@.len(),
            forall|k: int| 0 <= k < x@.len() ==> #[trigger] seq_fn_view(x@)[k] == fn_view(x@[k]),
            forall|k: int| 0 <= k < y@.len() ==> #[trigger] seq_fn_view(y@)[k] == fn_view(y@[k]),
            forall|k: int|
                0 <= k < i ==> fn_eq(#[trigger] seq_fn_view(x@)[k], seq_fn_view(y@)[k]),
        decreases n - i,
    {
        proof {
            lemma_seq_fn_size_elem(seq_fn_view(x@), i as int);
            lemma_seq_fn_size_elem(seq_fn_view(y@), i as int);
        }
        if !fn_eq_exec(&x[i], &y[i]) {
            return false;
        }
        i = i + 1;
    }
    true
}

impl PartialEq for Function {
    /// Structural equality; identity is excluded.
    fn eq(&self, other: &Self) -> (r: bool) {
        fn_eq_exec(self, other)
    }
}

impl vstd::std_specs::cmp::PartialEqSpecImpl for Function {
    open spec fn obeys_eq_spec() -> bool {
        true
    }

    open spec fn eq_spec(&self, other: &Self) -> bool {
        fn_eq(self@, other@)
    }
}

/// The same node shape with another identity token at the root.
pub open spec fn with_id(v: FnView, id: u128) -> FnView {
    match v {
        FnView::Const { name, out, .. } => FnView::Const { name, out, id },
        FnView::Variable { tag, out, .. } => FnView::Variable { tag, out, id },
        FnView::Concrete { name, ins, out, children, .. } => FnView::Concrete {
            name,
            ins,
            out,
            children,
            id,
        },
    }
}

/// Structural equality ignores identity: replacing either root's identity
/// token changes nothing about whether two nodes are structurally equal.
pub proof fn lemma_fn_eq_ignores_identity(a: FnView, b: FnView, i: u128, j: u128)
    ensures
        fn_eq(with_id(a, i), with_id(b, j)) == fn_eq(a, b),
{
}

/// One error kind for each way a positional child replacement can fail:
/// the position does not exist, the replacement's output type disagrees
/// with the declared input type there, or the node takes no input at all.
#[derive(Clone, Copy, PartialEq, Eq, Structural, Debug)]
pub enum InputSetError {
    OutOfBounds,
    TypeMismatch,
    CannotInputConstant,
}

/// The arity count follows the recursion stated of it: 0 for a constant
/// or a variable, and 1 plus the sum of the children's counts for an
/// application; `seq_input_len` is that sum, one child's count at a time.
pub proof fn lemma_input_arity(v: FnView)
    ensures
        v matches FnView::Concrete { children, .. } ==> input_len_spec(v) == 1 + seq_input_len(
            children,
        ),
        !(v is Concrete) ==> input_len_spec(v) == 0,
{
}

impl Function {
    /// Rebuilds this node with the child at position `ix` replaced and
    /// everything else kept, the identity included; the replacement must
    /// fit the declared input type at that position. A constant takes no
    /// input at all; a variable declares no input positions, so every
    /// position is out of bounds for it.
    pub fn set_input(&self, ix: usize, new: Function) -> (r: Result<Function, InputSetError>)
        ensures
            self@ is Const ==> r == Err::<Function, InputSetError>(
                InputSetError::CannotInputConstant,
            ),
            self@ is Variable ==> r == Err::<Function, InputSetError>(InputSetError::OutOfBounds),
            self@ is Concrete && (ix >= self@.ins().len() || ix >= self@.children().len()) ==> r
                == Err::<Function, InputSetError>(InputSetError::OutOfBounds),
            self@ is Concrete && ix < self@.ins().len() && ix < self@.children().len() && !ty_eq(
                self@.ins()[ix as int],
                new@.out(),
            ) ==> r == Err::<Function, InputSetError>(InputSetError::TypeMismatch),
            self@ is Concrete && ix < self@.ins().len() && ix < self@.children().len() && ty_eq(
                self@.ins()[ix as int],
                new@.out(),
            ) ==> (r matches Ok(f) && f@ matches FnView::Concrete { name, ins, out, children, id }
                && name == self@.label() && ins == self@.ins() && out == self@.out() && id
                == self@.id() && children == self@.children().update(ix as int, new@)),
            fn_wf(self@) && fn_wf(new@) && (r matches Ok(f)) ==> fn_wf((r->Ok_0)@),
    {
        match self {
            Function::Const { .. } => Err(InputSetError::CannotInputConstant),
            Function::Variable { .. } => Err(InputSetError::OutOfBounds),
            Function::Concrete { name, input_ty, output_ty, input, id } => {
                proof {
                    crate::types::lemma_seq_ty_view(input_ty@);
                    lemma_seq_fn_view(input@);
                }
                if ix < input_ty.len() && ix < input.len() {
                    if &input_ty[ix] == new.out_ref() {
                        let tys = crate::types::clone_type_vec(input_ty);
                        let mut kids = clone_function_vec(input);
                        kids[ix] = new;
                        let r = Function::Concrete {
                            name: name.clone(),
                            input_ty: tys,
                            output_ty: output_ty.clone(),
                            input: kids,
                            id: *id,
                        };
                        proof {
                            match &r {
                                Function::Concrete { input_ty: rt, input: rk, .. } => {
                                    crate::types::lemma_seq_ty_view_congruence(rt@, input_ty@);
                                    lemma_seq_fn_view(rk@);
                                    assert(seq_fn_view(rk@) =~= seq_fn_view(input@).update(
                                        ix as int,
                                        fn_view(new),
                                    ));
                                },
                                _ => {},
                            }
                        }
                        Ok(r)
                    } else {
                        Err(InputSetError::TypeMismatch)
                    }
                } else {
                    Err(InputSetError::OutOfBounds)
                }
            },
        }
    }

    /// The validating builder, for callers that declare a signature up
    /// front: it takes the declared input types as given, instead of
    /// deriving them, and succeeds exactly when they agree with the
    /// children's output types, one for one; any disagreement, a length
    /// mismatch included, is a `TypeMismatch`. The node gets a fresh
    /// identity.
    pub fn new_checked(
        name: &str,
        input_ty: Vec<Type>,
        input: Vec<Function>,
        output_ty: Type,
    ) -> (r: Result<Function, InputSetError>)
        ensures
            (r is Ok) <==> (input_ty@.len() == input@.len() && (forall|i: int|
                0 <= i < input@.len() ==> ty_eq(
                    #[trigger] seq_ty_view(input_ty@)[i],
                    fn_view(input@[i]).out(),
                ))),
            r matches Err(e) ==> e == InputSetError::TypeMismatch,
            r matches Ok(f) ==> (f@ matches FnView::Concrete { name: n, ins, out, children, .. }
                && n == name@ && ins == seq_ty_view(input_ty@) && out == output_ty@ && children
                == seq_fn_view(input@)),
            (r matches Ok(f) && (forall|i: int|
                0 <= i < input@.len() ==> fn_wf(fn_view(#[trigger] input@[i])))) ==> fn_wf(
                (r->Ok_0)@,
            ),
    {
        proof {
            crate::types::lemma_seq_ty_view(input_ty@);
            lemma_seq_fn_view(input@);
        }
        if input_ty.len() != input.len() {
            return Err(InputSetError::TypeMismatch);
        }
        let n = input.len();
        let mut i: usize = 0;
        while i < n
            invariant
                0 <= i <= n,
                n == input@.len(),
                input_ty@.len() == input@.len(),
                seq_ty_view(input_ty@).len() == input_ty@.len(),
                seq_fn_view(input@).len() == input@.len(),
                forall|k: int|
                    0 <= k < input_ty@.len() ==> #[trigger] seq_ty_view(input_ty@)[k] == ty_view(
                        input_ty@[k],
                    ),
                forall|k: int|
                    0 <= k < input@.len() ==> #[trigger] seq_fn_view(input@)[k] == fn_view(
                        input@[k],
                    ),
                forall|k: int|
                    0 <= k < i ==> ty_eq(
                        #[trigger] seq_ty_view(input_ty@)[k],
                        fn_view(input@[k]).out(),
                    ),
            decreases n - i,
        {
            proof {
                assert(seq_ty_view(input_ty@)[i as int] == ty_view(input_ty@[i as int]));
                assert(seq_fn_view(input@)[i as int] == fn_view(input@[i as int]));
            }
            if !(&input_ty[i] == input[i].out_ref()) {
                return Err(InputSetError::TypeMismatch);
            }
            i = i + 1;
        }
        Ok(
            Function::Concrete {
                name: name.to_owned(),
                input_ty,
                output_ty,
                input,
                id: Identity::fresh(),
            },
        )
    }
}

} // verus!
