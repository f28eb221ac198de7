//! Type-related traits.

use vstd::prelude::*;
use crate::value::Value;

verus! {

/// Specifies a Type object in your programming language.
pub trait Type: Clone + core::fmt::Debug + PartialEq + core::fmt::Display {
    /// Generates the name of the type, for display purposes.
    fn name(&self) -> &str;
}

/// Finds the Type for an object implementing the `Value` trait.
pub trait FindType: Value {
    /// The type that implements the `Type` trait associated with this value.
    type Output: Type;

    /// Discovers the type of this value.
    fn ty(&self) -> Self::Output;
}

/// Methods for accessing Type information for an object.
pub trait Typed<T: Type> {
    /// Whether objects of this kind keep a promotion Type of their own, apart from their
    /// Type. Where they keep none, the promotion Type is the Type.
    open spec fn has_own_promotion() -> bool {
        false
    }

    /// Retrieve the Type (if set).
    fn ty(&self) -> Option<T>;

    /// Set (or unset if passing `None`) the Type: it is what `ty()` then retrieves.
    fn set_type(&mut self, ty: Option<T>)
        ensures
            forall|got: Option<T>| call_ensures(Self::ty, (final(self),), got) ==> got == ty,
    ;

    /// Retrieve the promotion Type (if set). Defaults to `ty()` if not implemented: for an
    /// object without a promotion Type of its own, this is what `ty()` retrieves.
    fn promote_type(&self) -> (promoted: Option<T>)
        ensures
            !Self::has_own_promotion() ==> call_ensures(Self::ty, (self,), promoted),
    {
        self.ty()
    }

    /// Set (or unset if passing `None`) the promotion Type. Defaults to `set_type()` if not
    /// implemented: for an object without a promotion Type of its own, this sets its Type.
    fn set_promote_type(&mut self, ty: Option<T>)
        ensures
            !Self::has_own_promotion() ==> forall|got: Option<T>|
                call_ensures(Self::ty, (final(self),), got) ==> got == ty,
    {
        self.set_type(ty)
    }
}

} // verus!
