//! Function signatures: a named arrow from an input type to an output
//! type, valid only when the output is not empty and no part of the
//! input is.

use crate::types::{ty_eq, ty_has_empty, ty_is_empty, Type, TyView};
use vstd::prelude::*;

verus! {

/// The mathematical shape of a signature: its label and the shapes of its
/// input and output types.
#[verifier::ext_equal]
pub struct SigView {
    pub label: Seq<char>,
    pub input: TyView,
    pub output: TyView,
}

/// A named function signature: the type of what it takes and the type of
/// what it gives. A valid signature never gives the empty construct and
/// never takes one anywhere in its input.
pub struct FuncType {
    /// The signature's name.
    pub label: String,
    input: Type,
    output: Type,
}

/// Each way a signature can be invalid: the output is the empty
/// construct, or the input holds the empty construct somewhere inside.
#[derive(Clone, Copy, PartialEq, Eq, Structural, Debug)]
pub enum FuncTypeError {
    InputMultipleEmpties,
    OutputEmpty,
}

impl View for FuncType {
    type V = SigView;

    closed spec fn view(&self) -> SigView {
        SigView { label: self.label@, input: self.input@, output: self.output@ }
    }
}

impl FuncType {
    /// Builds a signature after checking it: an empty output is refused
    /// first, then an input with the empty construct anywhere inside it;
    /// any other pair of types is accepted as given.
    pub fn new(label: &str, input: &Type, output: &Type) -> (r: Result<FuncType, FuncTypeError>)
        ensures
            ty_is_empty(output@) ==> r == Err::<FuncType, FuncTypeError>(
                FuncTypeError::OutputEmpty,
            ),
            !ty_is_empty(output@) && ty_has_empty(input@) ==> r == Err::<FuncType, FuncTypeError>(
                FuncTypeError::InputMultipleEmpties,
            ),
            !ty_is_empty(output@) && !ty_has_empty(input@) ==> (r matches Ok(ft) && ft@ == (
            SigView { label: label@, input: input@, output: output@ })),
    {
        if output.is_empty() {
            Err(FuncTypeError::OutputEmpty)
        } else if input.has_empty() {
            Err(FuncTypeError::InputMultipleEmpties)
        } else {
            Ok(FuncType { label: label.to_owned(), input: input.clone(), output: output.clone() })
        }
    }

    /// A borrow of the signature's input type.
    pub fn input(&self) -> (r: &Type)
        ensures
            r@ == self@.input,
    {
        &self.input
    }

    /// A borrow of the signature's output type.
    pub fn output(&self) -> (r: &Type)
        ensures
            r@ == self@.output,
    {
        &self.output
    }
}

impl PartialEq for FuncType {
    /// Two signatures are equal iff their labels match and their input
    /// and output types are equal as values.
    fn eq(&self, other: &Self) -> (r: bool) {
        self.label == other.label && &self.input == &other.input && &self.output
            == &other.output
    }
}

impl vstd::std_specs::cmp::PartialEqSpecImpl for FuncType {
    open spec fn obeys_eq_spec() -> bool {
        true
    }

    open spec fn eq_spec(&self, other: &Self) -> bool {
        self@.label == other@.label && ty_eq(self@.input, other@.input) && ty_eq(
            self@.output,
            other@.output,
        )
    }
}

} // verus!
