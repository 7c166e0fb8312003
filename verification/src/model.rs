//! Plain-value model of the derive input that the enumerator reads.

use vstd::prelude::*;

verus! {

/// The identifier that an optional name holds, as a sequence of characters.
pub open spec fn ident_view(o: Option<String>) -> Option<Seq<char>> {
    match o {
        Some(s) => Some(s@),
        None => None,
    }
}

/// An outer attribute of a field, such as `#[tag(init_listener)]`.
///
/// A path is read as the identifier it consists of, if it is one (no leading
/// `::`, exactly one segment, no arguments on it), as the identifier prints
/// (`r#` kept for a raw identifier); `None` for any other path.
pub struct AttributeModel {
    /// The attribute's path (`tag` in `#[tag(..)]`), read as an identifier.
    pub path_ident: Option<String>,
    /// `Some(paths)` when the attribute's arguments are a parenthesized,
    /// comma-separated list of bare paths (each read as an identifier, in
    /// order); `None` when they are not.
    pub nested: Option<Vec<Option<String>>>,
}

pub struct AttributeView {
    pub path_ident: Option<Seq<char>>,
    pub nested: Option<Seq<Option<Seq<char>>>>,
}

impl View for AttributeModel {
    type V = AttributeView;

    open spec fn view(&self) -> AttributeView {
        AttributeView {
            path_ident: ident_view(self.path_ident),
            nested: match self.nested {
                Some(ps) => Some(ps@.map_values(|p: Option<String>| ident_view(p))),
                None => None,
            },
        }
    }
}

/// A field of the derive input.
pub struct FieldModel {
    /// The field's name; `None` for a positional field.
    pub ident: Option<String>,
    pub attrs: Vec<AttributeModel>,
}

pub struct FieldView {
    pub ident: Option<Seq<char>>,
    pub attrs: Seq<AttributeView>,
}

impl View for FieldModel {
    type V = FieldView;

    open spec fn view(&self) -> FieldView {
        FieldView {
            ident: ident_view(self.ident),
            attrs: self.attrs@.map_values(|a: AttributeModel| a@),
        }
    }
}

/// Deep view of a sequence of fields.
pub open spec fn fields_view(fields: Seq<FieldModel>) -> Seq<FieldView> {
    fields.map_values(|f: FieldModel| f@)
}

/// The body of the item that the derive is attached to.
pub enum DataModel {
    /// A struct with named fields (`struct S { a: A }`).
    NamedStruct(Vec<FieldModel>),
    /// A struct with positional fields (`struct S(A);`).
    TupleStruct,
    /// A struct without fields (`struct S;`).
    UnitStruct,
    Enum,
    Union,
}

pub enum DataView {
    NamedStruct(Seq<FieldView>),
    TupleStruct,
    UnitStruct,
    Enum,
    Union,
}

impl View for DataModel {
    type V = DataView;

    open spec fn view(&self) -> DataView {
        match self {
            DataModel::NamedStruct(fs) => DataView::NamedStruct(fields_view(fs@)),
            DataModel::TupleStruct => DataView::TupleStruct,
            DataModel::UnitStruct => DataView::UnitStruct,
            DataModel::Enum => DataView::Enum,
            DataModel::Union => DataView::Union,
        }
    }
}

/// The item that the derive is attached to.
pub struct DeriveModel {
    /// The item's name, as the identifier prints.
    pub ident: String,
    pub data: DataModel,
}

pub struct DeriveView {
    pub ident: Seq<char>,
    pub data: DataView,
}

impl View for DeriveModel {
    type V = DeriveView;

    open spec fn view(&self) -> DeriveView {
        DeriveView { ident: self.ident@, data: self.data@ }
    }
}

} // verus!
