use sindra::node::{Annotated, EmptyAnnotation, Node};
use sindra::symbol::render_symbol;
use sindra::{Identifier, Symbol, Type, Typed};
use std::fmt;

#[derive(Debug, Clone, PartialEq)]
struct Leaf(u8);

impl Annotated for Leaf {
    type Annotation = EmptyAnnotation;
}

#[derive(Debug, Clone, PartialEq)]
struct Counted(u8);

impl Annotated for Counted {
    type Annotation = u32;
}

#[derive(Debug, Clone, PartialEq)]
enum Ty {
    Int,
    Text,
}

impl fmt::Display for Ty {
    fn fmt(&self, f: &mut fmt::Formatter) -> fmt::Result {
        match self {
            Ty::Int => f.write_str("int"),
            Ty::Text => f.write_str("text"),
        }
    }
}

impl Type for Ty {
    fn name(&self) -> &str {
        match self {
            Ty::Int => "int",
            Ty::Text => "text",
        }
    }
}

fn id(name: &str) -> Identifier {
    Identifier(name.to_string())
}

#[test]
fn node_starts_with_default_annotation() {
    let node = Node::new(Leaf(3));
    assert_eq!(node.item, Leaf(3));
    assert_eq!(node.annotation, EmptyAnnotation {});
    let node = Node::new(Counted(4));
    assert_eq!(node.item, Counted(4));
    assert_eq!(node.annotation, 0);
    let node = Node::new(id("x"));
    assert_eq!(node.item, id("x"));
    assert_eq!(node.annotation, 0usize);
}

#[test]
fn identifier_names() {
    let x = id("x");
    assert_eq!(x.name(), "x");
    assert!(x.same_name(&id("x")));
    assert!(!x.same_name(&id("y")));
    assert!(!x.same_name(&id("")));
    assert_eq!(x, id("x"));
}

#[test]
fn symbol_text() {
    assert_eq!(Symbol::Variable(id("x"), Some(Ty::Int)).to_text(), "x:int");
    assert_eq!(Symbol::<Ty>::Variable(id("y"), None).to_text(), "y:<null>");
    assert_eq!(Symbol::BuiltinType(id("string"), Ty::Text).to_text(), "string:text");
    assert_eq!(render_symbol(&id("a"), Some("b")), "a:b");
    assert_eq!(render_symbol(&id("a"), None), "a:<null>");
    assert_eq!(Symbol::Variable(id("x"), Some(Ty::Int)).ident(), &id("x"));
    assert_eq!(Symbol::BuiltinType(id("t"), Ty::Int).ident(), &id("t"));
}

struct Plain {
    ty: Option<Ty>,
}

impl Typed<Ty> for Plain {
    fn ty(&self) -> Option<Ty> {
        self.ty.clone()
    }

    fn set_type(&mut self, ty: Option<Ty>) {
        self.ty = ty;
    }
}

struct Promoting {
    ty: Option<Ty>,
    promoted: Option<Ty>,
}

impl Typed<Ty> for Promoting {
    fn ty(&self) -> Option<Ty> {
        self.ty.clone()
    }

    fn set_type(&mut self, ty: Option<Ty>) {
        self.ty = ty;
    }

    fn promote_type(&self) -> Option<Ty> {
        self.promoted.clone()
    }

    fn set_promote_type(&mut self, ty: Option<Ty>) {
        self.promoted = ty;
    }
}

#[test]
fn promotion_type_defaults_to_type() {
    let mut plain = Plain { ty: None };
    assert_eq!(plain.promote_type(), None);
    plain.set_type(Some(Ty::Int));
    assert_eq!(plain.ty(), Some(Ty::Int));
    assert_eq!(plain.promote_type(), Some(Ty::Int));
    plain.set_promote_type(Some(Ty::Text));
    assert_eq!(plain.ty(), Some(Ty::Text));
    assert_eq!(plain.promote_type(), Some(Ty::Text));
    plain.set_promote_type(None);
    assert_eq!(plain.ty(), None);
    assert_eq!(plain.promote_type(), None);
}

#[test]
fn promotion_type_of_its_own() {
    let mut object = Promoting { ty: Some(Ty::Int), promoted: None };
    assert_eq!(object.promote_type(), None);
    object.set_promote_type(Some(Ty::Text));
    assert_eq!(object.ty(), Some(Ty::Int));
    assert_eq!(object.promote_type(), Some(Ty::Text));
    object.set_type(None);
    assert_eq!(object.ty(), None);
    assert_eq!(object.promote_type(), Some(Ty::Text));
}
