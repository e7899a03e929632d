//! What a record declares: its fields and the types each can be taken as.

use crate::generics::{Generics, GenericsView};
use crate::type_expr::{TypeExpr, TypeExprView};
use vstd::prelude::*;

verus! {

/// One type that a field can be taken as: the field's place in the record
/// and which of its types is meant (0 for the declared type, `k + 1` for its
/// `k`-th conversion). Keys are ordered by `sort_number` alone.
#[derive(Clone, Copy, Debug, PartialEq, Eq, Structural)]
pub struct ConversionSort {
    pub sort_number: usize,
    pub alternate: usize,
}

/// A type that a field declares besides its own.
pub enum ConversionType {
    /// A concrete type.
    Type(TypeExpr),
    /// A type that brings back parameters of the record: `T = Wrapper<T>`.
    Generic { generic_ident: Vec<String>, path: TypeExpr },
}

pub enum ConversionTypeView {
    Type(TypeExprView),
    Generic { generic_ident: Seq<Seq<char>>, path: TypeExprView },
}

impl View for ConversionType {
    type V = ConversionTypeView;

    open spec fn view(&self) -> ConversionTypeView {
        match *self {
            ConversionType::Type(ty) => ConversionTypeView::Type(ty@),
            ConversionType::Generic { generic_ident, path } => ConversionTypeView::Generic {
                generic_ident: Seq::new(generic_ident@.len(), |i: int| generic_ident@[i]@),
                path: path@,
            },
        }
    }
}

impl ConversionType {
    /// The type that stands in a synthesized record for this conversion.
    pub fn ty(&self) -> (r: &TypeExpr)
        ensures
            r@ == self@.ty(),
    {
        match self {
            ConversionType::Type(ty) => ty,
            ConversionType::Generic { generic_ident, path } => path,
        }
    }
}

impl ConversionTypeView {
    /// The type that stands in a synthesized record for this conversion.
    pub open spec fn ty(self) -> TypeExprView {
        match self {
            ConversionTypeView::Type(ty) => ty,
            ConversionTypeView::Generic { generic_ident, path } => path,
        }
    }
}

/// A field of a record: its name, its type, and the conversions it declares.
pub struct FieldDecl {
    pub name: String,
    pub ty: TypeExpr,
    pub conversions: Vec<ConversionType>,
}

pub struct FieldDeclView {
    pub name: Seq<char>,
    pub ty: TypeExprView,
    pub conversions: Seq<ConversionTypeView>,
}

impl View for FieldDecl {
    type V = FieldDeclView;

    open spec fn view(&self) -> FieldDeclView {
        FieldDeclView {
            name: self.name@,
            ty: self.ty@,
            conversions: Seq::new(self.conversions@.len(), |i: int| self.conversions@[i]@),
        }
    }
}

impl FieldDeclView {
    /// The number of types the field can be taken as.
    pub open spec fn alternates(self) -> nat {
        self.conversions.len() + 1
    }

    /// The type that alternate `alternate` stands for.
    pub open spec fn alternate_type(self, alternate: int) -> TypeExprView {
        if alternate == 0 {
            self.ty
        } else {
            self.conversions[alternate - 1].ty()
        }
    }
}

/// A record as declared: its name, its generics, its fields, and the types
/// declared once for the whole record, each of which adds one field.
pub struct RecordDecl {
    pub name: String,
    pub generics: Generics,
    pub fields: Vec<FieldDecl>,
    pub extra_fields: Vec<TypeExpr>,
}

pub struct RecordDeclView {
    pub name: Seq<char>,
    pub generics: GenericsView,
    pub fields: Seq<FieldDeclView>,
    pub extra_fields: Seq<TypeExprView>,
}

impl View for RecordDecl {
    type V = RecordDeclView;

    open spec fn view(&self) -> RecordDeclView {
        RecordDeclView {
            name: self.name@,
            generics: self.generics@,
            fields: Seq::new(self.fields@.len(), |i: int| self.fields@[i]@),
            extra_fields: Seq::new(self.extra_fields@.len(), |i: int| self.extra_fields@[i]@),
        }
    }
}

} // verus!
