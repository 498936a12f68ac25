//! The type algebra: primitive types and fixed-length sequences of types,
//! with the value-equality relation that identifies a one-element sequence
//! with its element.

use vstd::prelude::*;

verus! {

/// The mathematical shape of a type: a named primitive, or a sequence of
/// shapes.
#[verifier::ext_equal]
pub enum TyView {
    Prim(Seq<char>),
    Seqn(Seq<TyView>),
}

/// The number of nodes in a type shape, counting the shape itself and, for
/// a sequence, every node of every element.
pub open spec fn vt_size(v: TyView) -> nat
    decreases v,
{
    match v {
        TyView::Prim(_) => 1,
        TyView::Seqn(elems) => 1 + seq_vt_size(elems),
    }
}

/// The total node count of a sequence of type shapes.
pub open spec fn seq_vt_size(s: Seq<TyView>) -> nat
    decreases s,
{
    if s.len() == 0 {
        0
    } else {
        vt_size(s[0]) + seq_vt_size(s.drop_first())
    }
}

/// An element counts for no more than the whole sequence.
pub proof fn lemma_seq_vt_size_elem(s: Seq<TyView>, i: int)
    requires
        0 <= i < s.len(),
    ensures
        vt_size(s[i]) <= seq_vt_size(s),
    decreases s.len(),
{
    if i > 0 {
        lemma_seq_vt_size_elem(s.drop_first(), i - 1);
        assert(s.drop_first()[i - 1] == s[i]);
    }
}

/// Value equality of types. Two primitives are equal iff their names match;
/// two sequences are equal iff their lengths match and their elements are
/// pairwise equal; a primitive and a one-element sequence are equal iff the
/// sequence's single element equals the primitive. The singleton rule is
/// applied pairwise, exactly as stated; nothing further is claimed of the
/// relation.
pub open spec fn ty_eq(a: TyView, b: TyView) -> bool
    decreases vt_size(a) + vt_size(b),
{
    match (a, b) {
        (TyView::Prim(x), TyView::Prim(y)) => x == y,
        (TyView::Prim(_), TyView::Seqn(s)) => {
            proof {
                if s.len() == 1 {
                    lemma_seq_vt_size_elem(s, 0);
                }
            }
            s.len() == 1 && ty_eq(s[0], a)
        },
        (TyView::Seqn(s), TyView::Prim(_)) => {
            proof {
                if s.len() == 1 {
                    lemma_seq_vt_size_elem(s, 0);
                }
            }
            s.len() == 1 && ty_eq(s[0], b)
        },
        (TyView::Seqn(x), TyView::Seqn(y)) => {
            x.len() == y.len() && (forall|i: int|
                0 <= i < x.len() ==> {
                    proof {
                        lemma_seq_vt_size_elem(x, i);
                        lemma_seq_vt_size_elem(y, i);
                    }
                    ty_eq(#[trigger] x[i], y[i])
                })
        },
    }
}

/// The dimension of a type shape: 1 for a primitive, the element count for
/// a sequence (0 for an empty one).
pub open spec fn ty_dim(v: TyView) -> nat {
    match v {
        TyView::Prim(_) => 1,
        TyView::Seqn(elems) => elems.len(),
    }
}

/// Whether a type shape is the empty construct: a sequence of no elements.
pub open spec fn ty_is_empty(v: TyView) -> bool {
    ty_dim(v) == 0
}

/// Whether some node of a type shape, the shape itself included, is the
/// empty construct.
pub open spec fn ty_has_empty(v: TyView) -> bool
    decreases vt_size(v),
{
    match v {
        TyView::Prim(_) => false,
        TyView::Seqn(elems) => elems.len() == 0 || (exists|i: int|
            0 <= i < elems.len() && {
                proof {
                    lemma_seq_vt_size_elem(elems, i);
                }
                ty_has_empty(#[trigger] elems[i])
            }),
    }
}

/// Value equality is reflexive.
pub proof fn lemma_ty_eq_refl(v: TyView)
    ensures
        ty_eq(v, v),
    decreases vt_size(v),
{
    match v {
        TyView::Prim(_) => {},
        TyView::Seqn(elems) => {
            assert forall|i: int| 0 <= i < elems.len() implies ty_eq(
                #[trigger] elems[i],
                elems[i],
            ) by {
                lemma_seq_vt_size_elem(elems, i);
                lemma_ty_eq_refl(elems[i]);
            }
        },
    }
}

/// Value equality is symmetric: `ty_eq(a, b)` and `ty_eq(b, a)` agree for
/// all types, with or without the singleton coercion.
pub proof fn lemma_ty_eq_symmetric(a: TyView, b: TyView)
    ensures
        ty_eq(a, b) == ty_eq(b, a),
    decreases vt_size(a) + vt_size(b),
{
    match (a, b) {
        (TyView::Seqn(x), TyView::Seqn(y)) => {
            if x.len() == y.len() {
                assert forall|i: int| 0 <= i < x.len() implies ty_eq(#[trigger] x[i], y[i]) == ty_eq(
                    y[i],
                    x[i],
                ) by {
                    lemma_seq_vt_size_elem(x, i);
                    lemma_seq_vt_size_elem(y, i);
                    lemma_ty_eq_symmetric(x[i], y[i]);
                }
            }
        },
        _ => {},
    }
}

/// A type: either an atomic, named primitive, or a fixed-length tuple of
/// types.
pub enum Type {
    Primitive(String),
    Sequence(TypeSeq),
}

/// A fixed-length tuple of types. The length is stored as its own field,
/// redundant with `seq.len()`, for O(1) access; a type invariant keeps the
/// two in agreement.
pub struct TypeSeq {
    len: usize,
    seq: Vec<Type>,
}

/// The shape of a type value.
pub closed spec fn ty_view(t: Type) -> TyView
    decreases t,
{
    match t {
        Type::Primitive(n) => TyView::Prim(n@),
        Type::Sequence(s) => TyView::Seqn(seq_ty_view(s.seq@)),
    }
}

/// The shapes of a sequence of type values, elementwise.
pub closed spec fn seq_ty_view(s: Seq<Type>) -> Seq<TyView>
    decreases s,
{
    if s.len() == 0 {
        Seq::empty()
    } else {
        seq![ty_view(s[0])] + seq_ty_view(s.drop_first())
    }
}

/// `seq_ty_view` maps `ty_view` over the sequence, elementwise.
pub proof fn lemma_seq_ty_view(s: Seq<Type>)
    ensures
        seq_ty_view(s).len() == s.len(),
        forall|i: int| 0 <= i < s.len() ==> #[trigger] seq_ty_view(s)[i] == ty_view(s[i]),
    decreases s.len(),
{
    if s.len() > 0 {
        lemma_seq_ty_view(s.drop_first());
        assert forall|i: int| 0 <= i < s.len() implies #[trigger] seq_ty_view(s)[i] == ty_view(
            s[i],
        ) by {
            if i > 0 {
                assert(s.drop_first()[i - 1] == s[i]);
            }
        }
    }
}

/// Two equally long sequences of types with elementwise equal shapes have
/// equal shape sequences.
pub proof fn lemma_seq_ty_view_congruence(a: Seq<Type>, b: Seq<Type>)
    requires
        a.len() == b.len(),
        forall|i: int| 0 <= i < a.len() ==> ty_view(#[trigger] a[i]) == ty_view(b[i]),
    ensures
        seq_ty_view(a) == seq_ty_view(b),
{
    lemma_seq_ty_view(a);
    lemma_seq_ty_view(b);
    assert forall|i: int| 0 <= i < a.len() implies seq_ty_view(a)[i] == seq_ty_view(b)[i] by {
        assert(ty_view(a[i]) == ty_view(b[i]));
    }
    assert(seq_ty_view(a) =~= seq_ty_view(b));
}

impl View for Type {
    type V = TyView;

    open spec fn view(&self) -> TyView {
        ty_view(*self)
    }
}

impl DeepView for Type {
    type V = TyView;

    open spec fn deep_view(&self) -> TyView {
        ty_view(*self)
    }
}

impl View for TypeSeq {
    type V = Seq<TyView>;

    closed spec fn view(&self) -> Seq<TyView> {
        seq_ty_view(self.seq@)
    }
}

impl TypeSeq {
    #[verifier::type_invariant]
    spec fn len_consistent(self) -> bool {
        self.len == self.seq@.len()
    }

    /// Flat iteration over the elements of the tuple, in order.
    pub fn iter(&self) -> (it: TypeSeqIter)
        ensures
            it@ == self@,
            it.position() == 0,
    {
        proof {
            use_type_invariant(self);
        }
        let copy = clone_type_vec(&self.seq);
        proof {
            lemma_seq_ty_view_congruence(copy@, self.seq@);
        }
        TypeSeqIter { ix: 0, seq: copy }
    }
}

/// A restartable cursor over the elements of a [`TypeSeq`]; each call of
/// [`TypeSeqIter::next`] hands out the next element, in order.
pub struct TypeSeqIter {
    ix: usize,
    seq: Vec<Type>,
}

impl View for TypeSeqIter {
    type V = Seq<TyView>;

    closed spec fn view(&self) -> Seq<TyView> {
        seq_ty_view(self.seq@)
    }
}

impl TypeSeqIter {
    /// How many elements have been handed out so far.
    pub closed spec fn position(self) -> int {
        self.ix as int
    }

    #[verifier::type_invariant]
    spec fn in_range(self) -> bool {
        0 <= self.ix <= self.seq@.len()
    }

    /// The next element, or `None` once every element has been handed out.
    pub fn next(&mut self) -> (r: Option<Type>)
        ensures
            final(self)@ == old(self)@,
            old(self).position() < old(self)@.len() ==> (
                r matches Some(t) && t@ == old(self)@[old(self).position()]
                && final(self).position() == old(self).position() + 1),
            old(self).position() >= old(self)@.len() ==> (r is None && final(self).position()
                == old(self).position()),
    {
        proof {
            use_type_invariant(&*self);
            lemma_seq_ty_view(self.seq@);
        }
        if self.ix < self.seq.len() {
            let t = clone_type(&self.seq[self.ix]);
            self.ix = self.ix + 1;
            Some(t)
        } else {
            None
        }
    }
}

impl Type {
    /// Builds a primitive type of the given name.
    pub fn new_prim(name: &str) -> (t: Type)
        ensures
            t@ == TyView::Prim(name@),
    {
        Type::Primitive(name.to_owned())
    }

    /// Builds a sequence type from its elements; any number of elements,
    /// including zero or one, is allowed.
    pub fn new_seq(seq: Vec<Type>) -> (t: Type)
        ensures
            t@ == TyView::Seqn(seq.deep_view()),
    {
        let n = seq.len();
        let t = Type::Sequence(TypeSeq { len: n, seq });
        proof {
            lemma_ty_view_deep(t);
        }
        t
    }

    /// The dimension: 1 for a primitive, the element count for a sequence.
    pub fn dimension(&self) -> (r: usize)
        ensures
            r == ty_dim(self@),
    {
        match self {
            Type::Primitive(_) => 1,
            Type::Sequence(s) => {
                proof {
                    use_type_invariant(s);
                    lemma_seq_ty_view(s.seq@);
                }
                s.len
            },
        }
    }

    /// Whether this type is a sequence of no elements.
    pub fn is_empty(&self) -> (r: bool)
        ensures
            r == ty_is_empty(self@),
    {
        match self {
            Type::Primitive(_) => false,
            Type::Sequence(s) => {
                proof {
                    use_type_invariant(s);
                    lemma_seq_ty_view(s.seq@);
                }
                s.len == 0
            },
        }
    }

    /// Whether this type, or any type nested anywhere inside it, is a
    /// sequence of no elements.
    pub fn has_empty(&self) -> (r: bool)
        ensures
            r == ty_has_empty(self@),
        decreases vt_size(self@),
    {
        match self {
            Type::Primitive(_) => false,
            Type::Sequence(ts) => {
                proof {
                    use_type_invariant(ts);
                    lemma_seq_ty_view(ts.seq@);
                }
                if ts.len == 0 {
                    return true;
                }
                let n = ts.seq.len();
                let mut i: usize = 0;
                while i < n
                    invariant
                        0 <= i <= n,
                        n == ts.seq@.len(),
                        n > 0,
                        *self == Type::Sequence(*ts),
                        seq_ty_view(ts.seq@).len() == ts.seq@.len(),
                        forall|j: int|
                            0 <= j < ts.seq@.len() ==> #[trigger] seq_ty_view(ts.seq@)[j]
                                == ty_view(ts.seq@[j]),
                        forall|j: int|
                            0 <= j < i ==> !ty_has_empty(#[trigger] seq_ty_view(ts.seq@)[j]),
                    decreases n - i,
                {
                    proof {
                        lemma_seq_vt_size_elem(seq_ty_view(ts.seq@), i as int);
                    }
                    if ts.seq[i].has_empty() {
                        return true;
                    }
                    i = i + 1;
                }
                false
            },
        }
    }

    /// Value equality as a named operation; the same relation as `==`.
    pub fn same(&self, other: &Type) -> (r: bool)
        ensures
            r == ty_eq(self@, other@),
    {
        ty_eq_exec(self, other)
    }
}

/// Connects a sequence type's view to the deep view of its element vector.
proof fn lemma_ty_view_deep(t: Type)
    requires
        t is Sequence,
    ensures
        t@ matches TyView::Seqn(elems) && elems =~= (match t {
            Type::Sequence(s) => s.seq.deep_view(),
            _ => Seq::empty(),
        }),
{
    match t {
        Type::Sequence(s) => {
            lemma_seq_ty_view(s.seq@);
        },
        _ => {},
    }
}

/// Recursive worker for type equality.
fn ty_eq_exec(a: &Type, b: &Type) -> (r: bool)
    ensures
        r == ty_eq(a@, b@),
    decreases vt_size(a@) + vt_size(b@), 0int,
{
    match a {
        Type::Primitive(x) => match b {
            Type::Primitive(y) => *x == *y,
            Type::Sequence(s) => {
                proof {
                    use_type_invariant(s);
                    lemma_seq_ty_view(s.seq@);
                }
                if s.len == 1 {
                    proof {
                        lemma_seq_vt_size_elem(s@, 0);
                    }
                    ty_eq_exec(&s.seq[0], a)
                } else {
                    false
                }
            },
        },
        Type::Sequence(x) => match b {
            Type::Primitive(_) => {
                proof {
                    use_type_invariant(x);
                    lemma_seq_ty_view(x.seq@);
                }
                if x.len == 1 {
                    proof {
                        lemma_seq_vt_size_elem(x@, 0);
                    }
                    ty_eq_exec(&x.seq[0], b)
                } else {
                    false
                }
            },
            Type::Sequence(y) => {
                proof {
                    use_type_invariant(x);
                    use_type_invariant(y);
                    lemma_seq_ty_view(x.seq@);
                    lemma_seq_ty_view(y.seq@);
                }
                if x.len == y.len {
                    ty_seq_eq_exec(&x.seq, &y.seq)
                } else {
                    false
                }
            },
        },
    }
}

/// Recursive worker for pairwise equality of two equally long vectors of
/// types.
fn ty_seq_eq_exec(x: &Vec<Type>, y: &Vec<Type>) -> (r: bool)
    requires
        x@.len() == y@.len(),
    ensures
        r == (forall|i: int|
            0 <= i < x@.len() ==> ty_eq(#[trigger] seq_ty_view(x@)[i], seq_ty_view(y@)[i])),
    decreases seq_vt_size(seq_ty_view(x@)) + seq_vt_size(seq_ty_view(y@)), 1int,
{
    proof {
        lemma_seq_ty_view(x@);
        lemma_seq_ty_view(y@);
    }
    let n = x.len();
    let mut i: usize = 0;
    while i < n
        invariant
            0 <= i <= n,
            n == x@.len(),
            x@.len() == y@.len(),
            seq_ty_view(x@).len() == x@.len(),
            seq_ty_view(y@).len() == y@.len(),
            forall|j: int| 0 <= j < x@.len() ==> seq_ty_view(x@)[j] == ty_view(#[trigger] x@[j]),
            forall|j: int| 0 <= j < y@.len() ==> seq_ty_view(y@)[j] == ty_view(#[trigger] y@[j]),
            forall|j: int|
                0 <= j < i ==> ty_eq(#[trigger] seq_ty_view(x@)[j], seq_ty_view(y@)[j]),
        decreases n - i,
    {
        proof {
            lemma_seq_vt_size_elem(seq_ty_view(x@), i as int);
            lemma_seq_vt_size_elem(seq_ty_view(y@), i as int);
        }
        if !ty_eq_exec(&x[i], &y[i]) {
            return false;
        }
        i = i + 1;
    }
    true
}

impl PartialEq for Type {
    /// Value equality with the singleton coercion rule.
    fn eq(&self, other: &Self) -> (r: bool) {
        ty_eq_exec(self, other)
    }
}

impl vstd::std_specs::cmp::PartialEqSpecImpl for Type {
    open spec fn obeys_eq_spec() -> bool {
        true
    }

    open spec fn eq_spec(&self, other: &Self) -> bool {
        ty_eq(self@, other@)
    }
}

impl From<Vec<Type>> for Type {
    /// Wraps the elements as a sequence type; the same construction as
    /// [`Type::new_seq`].
    fn from(seq: Vec<Type>) -> (r: Type) {
        let n = seq.len();
        Type::Sequence(TypeSeq { len: n, seq })
    }
}

impl vstd::std_specs::convert::FromSpecImpl<Vec<Type>> for Type {
    open spec fn obeys_from_spec() -> bool {
        true
    }

    closed spec fn from_spec(seq: Vec<Type>) -> Type {
        Type::Sequence(TypeSeq { len: seq@.len() as usize, seq })
    }
}

impl PartialEq for TypeSeq {
    /// Pairwise value equality of equally long tuples.
    fn eq(&self, other: &Self) -> (r: bool) {
        proof {
            use_type_invariant(self);
            use_type_invariant(other);
            lemma_seq_ty_view(self.seq@);
            lemma_seq_ty_view(other.seq@);
        }
        if self.len == other.len {
            ty_seq_eq_exec(&self.seq, &other.seq)
        } else {
            false
        }
    }
}

impl vstd::std_specs::cmp::PartialEqSpecImpl for TypeSeq {
    open spec fn obeys_eq_spec() -> bool {
        true
    }

    open spec fn eq_spec(&self, other: &Self) -> bool {
        self@.len() == other@.len() && (forall|i: int|
            0 <= i < self@.len() ==> ty_eq(#[trigger] self@[i], other@[i]))
    }
}

/// Recursive worker for cloning a type; the copy has the shape of the
/// original.
fn clone_type(t: &Type) -> (r: Type)
    ensures
        r@ == t@,
    decreases vt_size(t@), 0int,
{
    match t {
        Type::Primitive(name) => Type::Primitive(name.clone()),
        Type::Sequence(ts) => {
            proof {
                use_type_invariant(ts);
            }
            let copy = TypeSeq { len: ts.len, seq: clone_type_vec(&ts.seq) };
            proof {
                lemma_seq_ty_view_congruence(copy.seq@, ts.seq@);
            }
            Type::Sequence(copy)
        },
    }
}

/// Clones every element of a vector of types, keeping every shape.
pub(crate) fn clone_type_vec(v: &Vec<Type>) -> (r: Vec<Type>)
    ensures
        r@.len() == v@.len(),
        forall|i: int| 0 <= i < v@.len() ==> (#[trigger] r@[i])@ == v@[i]@,
    decreases seq_vt_size(seq_ty_view(v@)), 1int,
{
    proof {
        lemma_seq_ty_view(v@);
    }
    let mut r: Vec<Type> = Vec::new();
    let n = v.len();
    let mut i: usize = 0;
    while i < n
        invariant
            0 <= i <= n,
            n == v@.len(),
            r@.len() == i,
            seq_ty_view(v@).len() == v@.len(),
            forall|j: int| 0 <= j < v@.len() ==> seq_ty_view(v@)[j] == ty_view(#[trigger] v@[j]),
            forall|j: int| 0 <= j < i ==> (#[trigger] r@[j])@ == v@[j]@,
        decreases n - i,
    {
        proof {
            lemma_seq_vt_size_elem(seq_ty_view(v@), i as int);
        }
        let c = clone_type(&v[i]);
        r.push(c);
        i = i + 1;
    }
    r
}

impl Clone for Type {
    /// A deep copy; the copy has the shape of the original.
    fn clone(&self) -> (r: Self)
        ensures
            r@ == self@,
    {
        clone_type(self)
    }
}

/// The pre-order nodes of a type shape paired with their depths, the
/// shape itself at depth `d` and each element of a sequence one deeper
/// than the sequence.
pub open spec fn ty_pre_pairs(v: TyView, d: int) -> Seq<(int, TyView)>
    decreases v,
{
    match v {
        TyView::Prim(_) => seq![(d, v)],
        TyView::Seqn(elems) => seq![(d, v)] + seq_ty_pre_pairs(elems, d + 1),
    }
}

/// The depth-paired pre-order nodes of a sequence of type shapes, all
/// their roots at depth `d`.
pub open spec fn seq_ty_pre_pairs(s: Seq<TyView>, d: int) -> Seq<(int, TyView)>
    decreases s,
{
    if s.len() == 0 {
        Seq::empty()
    } else {
        ty_pre_pairs(s[0], d) + seq_ty_pre_pairs(s.drop_first(), d)
    }
}

/// The depth-paired pre-order of a type shape lists as many nodes as the
/// shape holds, the shape itself first, and every depth lies between the
/// root's depth and the root's depth plus the node count.
pub proof fn lemma_ty_pre_pairs_parallel(v: TyView, d: int)
    ensures
        ty_pre_pairs(v, d).len() == vt_size(v),
        ty_pre_pairs(v, d)[0] == (d, v),
        forall|i: int|
            0 <= i < ty_pre_pairs(v, d).len() ==> d <= (#[trigger] ty_pre_pairs(v, d)[i]).0 < d
                + vt_size(v),
    decreases v,
{
    match v {
        TyView::Prim(_) => {},
        TyView::Seqn(elems) => {
            lemma_seq_ty_pre_pairs_parallel(elems, d + 1);
        },
    }
}

/// The sequence form of `lemma_ty_pre_pairs_parallel`.
pub proof fn lemma_seq_ty_pre_pairs_parallel(s: Seq<TyView>, d: int)
    ensures
        seq_ty_pre_pairs(s, d).len() == seq_vt_size(s),
        forall|i: int|
            0 <= i < seq_ty_pre_pairs(s, d).len() ==> d <= (#[trigger] seq_ty_pre_pairs(
                s,
                d,
            )[i]).0 < d + seq_vt_size(s),
    decreases s,
{
    if s.len() > 0 {
        lemma_ty_pre_pairs_parallel(s[0], d);
        lemma_seq_ty_pre_pairs_parallel(s.drop_first(), d);
    }
}

/// The depth-paired shape of a vector of depth-and-type pairs.
pub open spec fn ty_pairs_view(s: Seq<(usize, Type)>) -> Seq<(int, TyView)> {
    Seq::new(s.len(), |i: int| (s[i].0 as int, ty_view(s[i].1)))
}

/// Unfolds the per-shape sums and pair sequences one element at a time.
proof fn lemma_ty_skip_unfold(s: Seq<TyView>, i: int, d: int)
    requires
        0 <= i < s.len(),
    ensures
        s.skip(i).len() == s.len() - i,
        s.skip(i)[0] == s[i],
        seq_vt_size(s.skip(i)) == vt_size(s[i]) + seq_vt_size(s.skip(i + 1)),
        seq_ty_pre_pairs(s.skip(i), d) == ty_pre_pairs(s[i], d) + seq_ty_pre_pairs(
            s.skip(i + 1),
            d,
        ),
{
    assert(s.skip(i + 1) =~= s.skip(i).drop_first());
    assert(s.skip(i)[0] == s[i]);
}

impl Type {
    /// A restartable cursor over the depth-paired pre-order of this type:
    /// the type itself first at depth 0, then, for a sequence, each
    /// element's subtree in order, one level deeper per step down. Used
    /// for introspection; each call starts an independent walk.
    pub fn iter(&self) -> (it: TypeIter)
        requires
            vt_size(self@) <= usize::MAX,
        ensures
            it@ == ty_pre_pairs(self@, 0),
            it.position() == 0,
    {
        let mut out: Vec<(usize, Type)> = Vec::new();
        push_ty_pre(self, 0, &mut out);
        proof {
            assert(ty_pairs_view(out@) =~= ty_pairs_view(Seq::empty()) + ty_pre_pairs(self@, 0));
            assert(ty_pairs_view(Seq::empty()) + ty_pre_pairs(self@, 0) =~= ty_pre_pairs(
                self@,
                0,
            ));
        }
        TypeIter { items: out, ix: 0 }
    }
}

/// Appends the depth-paired pre-order of the type at `t`, rooted at depth
/// `d`, to `out`.
fn push_ty_pre(t: &Type, d: usize, out: &mut Vec<(usize, Type)>)
    requires
        d + vt_size(t@) <= usize::MAX,
    ensures
        ty_pairs_view(final(out)@) == ty_pairs_view(old(out)@) + ty_pre_pairs(t@, d as int),
    decreases vt_size(t@), 0int,
{
    proof {
        lemma_ty_pre_pairs_parallel(t@, d as int);
    }
    let c = clone_type(t);
    out.push((d, c));
    match t {
        Type::Sequence(ts) => {
            proof {
                use_type_invariant(ts);
                lemma_seq_ty_view(ts.seq@);
                assert(seq_ty_view(ts.seq@).skip(0) =~= seq_ty_view(ts.seq@));
            }
            push_ty_pre_seq(&ts.seq, 0, d + 1, out);
            proof {
                assert(ty_pairs_view(final(out)@) =~= ty_pairs_view(old(out)@) + ty_pre_pairs(
                    t@,
                    d as int,
                ));
            }
        },
        _ => {
            proof {
                assert(ty_pairs_view(final(out)@) =~= ty_pairs_view(old(out)@) + ty_pre_pairs(
                    t@,
                    d as int,
                ));
            }
        },
    }
}

/// Appends the depth-paired pre-orders of the types from position `i` on,
/// all their roots at depth `d`, to `out`.
fn push_ty_pre_seq(v: &Vec<Type>, i: usize, d: usize, out: &mut Vec<(usize, Type)>)
    requires
        i <= v@.len(),
        d + seq_vt_size(seq_ty_view(v@).skip(i as int)) <= usize::MAX,
    ensures
        ty_pairs_view(final(out)@) == ty_pairs_view(old(out)@) + seq_ty_pre_pairs(
            seq_ty_view(v@).skip(i as int),
            d as int,
        ),
    decreases seq_vt_size(seq_ty_view(v@).skip(i as int)), v@.len() - i,
{
    proof {
        lemma_seq_ty_view(v@);
    }
    if i == v.len() {
        proof {
            assert(seq_ty_view(v@).skip(i as int) =~= Seq::empty());
            assert(ty_pairs_view(out@) =~= ty_pairs_view(out@) + seq_ty_pre_pairs(
                Seq::empty(),
                d as int,
            ));
        }
    } else {
        proof {
            lemma_ty_skip_unfold(seq_ty_view(v@), i as int, d as int);
        }
        push_ty_pre(&v[i], d, out);
        push_ty_pre_seq(v, i + 1, d, out);
        proof {
            assert(ty_pairs_view(final(out)@) =~= ty_pairs_view(old(out)@) + seq_ty_pre_pairs(
                seq_ty_view(v@).skip(i as int),
                d as int,
            ));
        }
    }
}

/// A cursor over the depth-paired pre-order of a type; each call of
/// [`TypeIter::next`] hands out the next node with its depth, in order.
pub struct TypeIter {
    items: Vec<(usize, Type)>,
    ix: usize,
}

impl View for TypeIter {
    type V = Seq<(int, TyView)>;

    closed spec fn view(&self) -> Seq<(int, TyView)> {
        ty_pairs_view(self.items@)
    }
}

impl TypeIter {
    /// How many pairs have been handed out so far.
    pub closed spec fn position(self) -> int {
        self.ix as int
    }

    #[verifier::type_invariant]
    spec fn in_range(self) -> bool {
        0 <= self.ix <= self.items@.len()
    }

    /// The next depth-and-type pair, or `None` once the walk is done.
    pub fn next(&mut self) -> (r: Option<(usize, Type)>)
        ensures
            final(self)@ == old(self)@,
            old(self).position() < old(self)@.len() ==> (
                r matches Some(p) && p.0 as int == old(self)@[old(self).position()].0
                && p.1@ == old(self)@[old(self).position()].1
                && final(self).position() == old(self).position() + 1),
            old(self).position() >= old(self)@.len() ==> (r is None && final(self).position()
                == old(self).position()),
    {
        proof {
            use_type_invariant(&*self);
        }
        if self.ix < self.items.len() {
            let d = self.items[self.ix].0;
            let t = clone_type(&self.items[self.ix].1);
            self.ix = self.ix + 1;
            Some((d, t))
        } else {
            None
        }
    }
}

} // verus!
