//! Abstract syntax tree node.

use vstd::prelude::*;
use crate::identifier::Identifier;

verus! {

/// Combination trait required for all annotation types.
pub trait AnnotationType: Default + core::fmt::Debug + Clone + PartialEq {

}

impl<A: Default + core::fmt::Debug + Clone + PartialEq> AnnotationType for A {

}

/// Trait used to identify the type of annotation used with a type.
pub trait Annotated {
    /// The annotation type.
    type Annotation: AnnotationType;
}

/// Used to specify that a type has no annotation.
#[derive(Debug, Clone, PartialEq)]
pub struct EmptyAnnotation {}

impl Default for EmptyAnnotation {
    fn default() -> (annotation: EmptyAnnotation)
        ensures
            annotation == (EmptyAnnotation {  }),
    {
        EmptyAnnotation {  }
    }
}

impl Annotated for Identifier {
    type Annotation = usize;
}

/// Abstract syntax tree node structure for heterogeneous tree nodes.
///
/// Adds an arbitrary annotation to each node. A node that belongs to a scope records the
/// scope by its `ScopeId`, which any number of nodes can hold.
#[derive(Debug, Clone, PartialEq)]
pub struct Node<T> where T: Annotated {
    /// Tree node item.
    pub item: T,
    /// Tree node annotation.
    pub annotation: T::Annotation,
}

impl<T: Annotated> Node<T> {
    /// Creates a new tree node with the default annotation.
    pub fn new(item: T) -> (node: Node<T>)
        ensures
            node.item == item,
            call_ensures(<T::Annotation as Default>::default, (), node.annotation),
    {
        Node { item: item, annotation: <T::Annotation as Default>::default() }
    }
}

} // verus!
