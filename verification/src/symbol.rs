//! Symbol type.

use vstd::prelude::*;
use vstd::string::*;
use crate::identifier::Identifier;
use crate::ty::Type;

verus! {

/// Symbol object (for use in symbol tables).
#[derive(Clone, Debug, Hash, PartialEq)]
pub enum Symbol<T> where T: Type {
    /// Variable, denoted by specific identifier and type (optional since it may not always be
    /// known at some points of the compilation process).
    Variable(Identifier, Option<T>),
    /// Built-in type symbol.
    BuiltinType(Identifier, T),
}

/// The text of a symbol: its name, a colon, and the text of its type, or `<null>` where it has
/// none.
pub open spec fn symbol_text(name: Seq<char>, ty: Option<Seq<char>>) -> Seq<char> {
    name + ":"@ + match ty {
        Some(text) => text,
        None => "<null>"@,
    }
}

/// Puts the text of a symbol together from its name and the text of its type.
pub fn render_symbol(ident: &Identifier, ty: Option<&str>) -> (text: String)
    ensures
        text@ == symbol_text(
            ident@,
            match ty {
                Some(t) => Some(t@),
                None => None,
            },
        ),
{
    let mut text = String::from_str(ident.name());
    text.append(":");
    match ty {
        Some(t) => text.append(t),
        None => text.append("<null>"),
    }
    text
}

impl<T: Type> Symbol<T> {
    /// The identifier that the symbol is declared under.
    pub fn ident(&self) -> (ident: &Identifier)
        ensures
            *ident == match *self {
                Symbol::Variable(i, _) => i,
                Symbol::BuiltinType(i, _) => i,
            },
    {
        match self {
            Symbol::Variable(ident, _) => ident,
            Symbol::BuiltinType(ident, _) => ident,
        }
    }

    /// The symbol as text: `name:type`, with the type as it displays itself, or
    /// `name:<null>` for a variable without a type.
    pub fn to_text(&self) -> (text: String)
        ensures
            match *self {
                Symbol::Variable(ident, Some(ty)) => exists|shown: String|
                    to_string_from_display_ensures::<T>(&ty, shown) && text@ == symbol_text(
                        ident@,
                        Some(shown@),
                    ),
                Symbol::Variable(ident, None) => text@ == symbol_text(ident@, None),
                Symbol::BuiltinType(ident, ty) => exists|shown: String|
                    to_string_from_display_ensures::<T>(&ty, shown) && text@ == symbol_text(
                        ident@,
                        Some(shown@),
                    ),
            },
    {
        match self {
            Symbol::Variable(ident, Some(ty)) => {
                let shown = ty.to_string();
                render_symbol(ident, Some(shown.as_str()))
            },
            Symbol::Variable(ident, None) => render_symbol(ident, None),
            Symbol::BuiltinType(ident, ty) => {
                let shown = ty.to_string();
                render_symbol(ident, Some(shown.as_str()))
            },
        }
    }
}

} // verus!
