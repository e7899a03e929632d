//! The shape of a type as far as the generator reads it.

use vstd::prelude::*;

verus! {

/// A type as written in a record declaration.
pub enum TypeExpr {
    /// A path such as `Vec<T>` or `std::borrow::Cow<'a, str>`.
    Path { segments: Vec<PathSegment> },
    /// A reference `&'a T` or `&'a mut T`.
    Reference { lifetime: Option<String>, mutable: bool, elem: Box<TypeExpr> },
    /// Any other type, kept as its text.
    Other { text: String },
}

/// One segment of a path, with the arguments between its angle brackets.
pub struct PathSegment {
    pub ident: String,
    pub arguments: Vec<GenericArgument>,
}

/// One argument between angle brackets.
pub enum GenericArgument {
    Type(TypeExpr),
    /// A lifetime, by its name without the apostrophe.
    Lifetime(String),
    /// A constant expression that is a lone identifier.
    Const(String),
    /// Any other argument, kept as its text.
    Other(String),
}

pub enum TypeExprView {
    Path { segments: Seq<PathSegmentView> },
    Reference { lifetime: Option<Seq<char>>, mutable: bool, elem: Box<TypeExprView> },
    Other { text: Seq<char> },
}

pub struct PathSegmentView {
    pub ident: Seq<char>,
    pub arguments: Seq<GenericArgumentView>,
}

pub enum GenericArgumentView {
    Type(TypeExprView),
    Lifetime(Seq<char>),
    Const(Seq<char>),
    Other(Seq<char>),
}

/// The characters of an optional name.
pub open spec fn option_string_view(s: Option<String>) -> Option<Seq<char>> {
    match s {
        Some(s) => Some(s@),
        None => None,
    }
}

impl TypeExpr {
    pub open spec fn model(self) -> TypeExprView
        decreases self,
    {
        match self {
            TypeExpr::Path { segments } => TypeExprView::Path {
                segments: Seq::new(
                    segments@.len(),
                    |i: int|
                        if 0 <= i < segments@.len() {
                            segments@[i].model()
                        } else {
                            arbitrary()
                        },
                ),
            },
            TypeExpr::Reference { lifetime, mutable, elem } => TypeExprView::Reference {
                lifetime: option_string_view(lifetime),
                mutable,
                elem: Box::new(elem.model()),
            },
            TypeExpr::Other { text } => TypeExprView::Other { text: text@ },
        }
    }
}

impl PathSegment {
    pub open spec fn model(self) -> PathSegmentView
        decreases self,
    {
        PathSegmentView {
            ident: self.ident@,
            arguments: Seq::new(
                self.arguments@.len(),
                |i: int|
                    if 0 <= i < self.arguments@.len() {
                        self.arguments@[i].model()
                    } else {
                        arbitrary()
                    },
            ),
        }
    }
}

impl GenericArgument {
    pub open spec fn model(self) -> GenericArgumentView
        decreases self,
    {
        match self {
            GenericArgument::Type(ty) => GenericArgumentView::Type(ty.model()),
            GenericArgument::Lifetime(name) => GenericArgumentView::Lifetime(name@),
            GenericArgument::Const(name) => GenericArgumentView::Const(name@),
            GenericArgument::Other(text) => GenericArgumentView::Other(text@),
        }
    }
}

impl View for TypeExpr {
    type V = TypeExprView;

    open spec fn view(&self) -> TypeExprView {
        self.model()
    }
}

impl View for PathSegment {
    type V = PathSegmentView;

    open spec fn view(&self) -> PathSegmentView {
        self.model()
    }
}

impl View for GenericArgument {
    type V = GenericArgumentView;

    open spec fn view(&self) -> GenericArgumentView {
        self.model()
    }
}

/// Whether two optional names are the same text.
pub fn same_optional_name(a: &Option<String>, b: &Option<String>) -> (r: bool)
    ensures
        r == (option_string_view(*a) == option_string_view(*b)),
{
    match (a, b) {
        (Some(x), Some(y)) => *x == *y,
        (None, None) => true,
        _ => false,
    }
}

impl TypeExpr {
    /// Whether two types are written the same.
    pub fn same(&self, other: &TypeExpr) -> (r: bool)
        ensures
            r == (self@ == other@),
        decreases self,
    {
        match (self, other) {
            (TypeExpr::Path { segments: a }, TypeExpr::Path { segments: b }) => {
                if a.len() != b.len() {
                    assert(self@->Path_segments.len() != other@->Path_segments.len());
                    return false;
                }
                let mut i: usize = 0;
                while i < a.len()
                    invariant
                        i <= a.len(),
                        a.len() == b.len(),
                        self == (TypeExpr::Path { segments: *a }),
                        other == (TypeExpr::Path { segments: *b }),
                        forall|j: int| 0 <= j < i ==> a@[j]@ == b@[j]@,
                    decreases a.len() - i,
                {
                    if !a[i].same(&b[i]) {
                        assert(self@->Path_segments[i as int] == a@[i as int]@);
                        assert(other@->Path_segments[i as int] == b@[i as int]@);
                        return false;
                    }
                    i += 1;
                }
                assert(self@->Path_segments =~= other@->Path_segments);
                true
            },
            (
                TypeExpr::Reference { lifetime: la, mutable: ma, elem: ea },
                TypeExpr::Reference { lifetime: lb, mutable: mb, elem: eb },
            ) => { same_optional_name(la, lb) && *ma == *mb && ea.same(eb) },
            (TypeExpr::Other { text: a }, TypeExpr::Other { text: b }) => *a == *b,
            _ => false,
        }
    }
}

impl PathSegment {
    /// Whether two path segments are written the same.
    pub fn same(&self, other: &PathSegment) -> (r: bool)
        ensures
            r == (self@ == other@),
        decreases self,
    {
        if !(self.ident == other.ident) {
            return false;
        }
        if self.arguments.len() != other.arguments.len() {
            assert(self@.arguments.len() != other@.arguments.len());
            return false;
        }
        let mut i: usize = 0;
        while i < self.arguments.len()
            invariant
                i <= self.arguments.len(),
                self.arguments.len() == other.arguments.len(),
                forall|j: int| 0 <= j < i ==> self.arguments@[j]@ == other.arguments@[j]@,
            decreases self.arguments.len() - i,
        {
            if !self.arguments[i].same(&other.arguments[i]) {
                assert(self@.arguments[i as int] == self.arguments@[i as int]@);
                assert(other@.arguments[i as int] == other.arguments@[i as int]@);
                return false;
            }
            i += 1;
        }
        assert(self@.arguments =~= other@.arguments);
        true
    }
}

impl GenericArgument {
    /// Whether two arguments are written the same.
    pub fn same(&self, other: &GenericArgument) -> (r: bool)
        ensures
            r == (self@ == other@),
        decreases self,
    {
        match (self, other) {
            (GenericArgument::Type(a), GenericArgument::Type(b)) => a.same(b),
            (GenericArgument::Lifetime(a), GenericArgument::Lifetime(b)) => *a == *b,
            (GenericArgument::Const(a), GenericArgument::Const(b)) => *a == *b,
            (GenericArgument::Other(a), GenericArgument::Other(b)) => *a == *b,
            _ => false,
        }
    }
}

} // verus!
