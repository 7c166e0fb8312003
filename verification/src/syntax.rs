//! Reading a derive input with `syn` into the plain model.
//!
//! The input arrives as the text of the item's tokens. `syn` parses it, and
//! its syntax tree is converted into a [`DeriveModel`]: the item's outline
//! first, then each named field.
//!
//! What `syn` reads is not stated here: inside a procedural macro the text
//! goes through the compiler's lexer (which, among other things, normalises
//! identifiers), outside one through `proc_macro2`'s own, so the same text
//! need not read the same in both. What the library does with what was read
//! is stated exactly by `expand_field_enumerator`.

use vstd::prelude::*;
use crate::error::EnumeratorError;
use crate::model::{AttributeModel, DataModel, DeriveModel, FieldModel};
use syn::{Attribute, Data, DeriveInput, Field, Fields, Path};

verus! {

#[verifier::external_type_specification]
#[verifier::external_body]
pub struct ExSynError(syn::Error);

#[verifier::external_type_specification]
#[verifier::external_body]
pub struct ExField(syn::Field);

/// The item as `syn` first reads it: its name, and for a struct with named
/// fields its fields, in order.
struct DeriveOutline {
    ident: String,
    data: DataOutline,
}

enum DataOutline {
    NamedStruct(Vec<syn::Field>),
    TupleStruct,
    UnitStruct,
    Enum,
    Union,
}

/// `syn::parse_str::<syn::DeriveInput>`, with the tree it returns converted
/// into the outline: the name as it prints (`proc_macro2::Ident`'s
/// `Display`), the variant of `syn::Data` and of `syn::Fields`, and the named
/// fields moved out of their `syn::punctuated::Punctuated`, in order.
/// Nothing is claimed of the result.
#[verifier::external_body]
fn parse_derive_outline(text: &str) -> Result<DeriveOutline, syn::Error> {
    let input = syn::parse_str::<DeriveInput>(text)?;
    let data = match input.data {
        Data::Struct(s) => match s.fields {
            Fields::Named(n) => DataOutline::NamedStruct(n.named.into_iter().collect()),
            Fields::Unnamed(_) => DataOutline::TupleStruct,
            Fields::Unit => DataOutline::UnitStruct,
        },
        Data::Enum(_) => DataOutline::Enum,
        Data::Union(_) => DataOutline::Union,
    };
    Ok(DeriveOutline { ident: input.ident.to_string(), data })
}

/// A field of `syn`'s tree converted into the model: its name as it prints,
/// each attribute's path as `syn::Path::get_ident` gives it, and the paths
/// that `syn::Attribute::parse_nested_meta` visits, in order (`None` where
/// it returns an error). Nothing is claimed of the result.
#[verifier::external_body]
fn field_model(f: &syn::Field) -> FieldModel {
    let ident = |p: &Path| p.get_ident().map(ToString::to_string);
    let attr = |a: &Attribute| {
        let mut nested = Vec::new();
        let parsed = a.parse_nested_meta(|m| Ok(nested.push(ident(&m.path))));
        AttributeModel { path_ident: ident(a.path()), nested: parsed.ok().map(|()| nested) }
    };
    FieldModel { ident: f.ident.as_ref().map(ToString::to_string), attrs: f.attrs.iter().map(attr).collect() }
}

/// `<syn::Error as Display>`: the error's (first) message. Nothing is claimed of it.
#[verifier::external_body]
fn syn_error_message(e: &syn::Error) -> String {
    e.to_string()
}

/// Whether a model keeps what an outline holds: the same name, the same
/// kind of item, and for a struct with named fields one field model per
/// field, in order.
spec fn model_follows_outline(m: DeriveModel, o: DeriveOutline) -> bool {
    &&& m.ident@ == o.ident@
    &&& match (m.data, o.data) {
        (DataModel::NamedStruct(ms), DataOutline::NamedStruct(fs)) => ms@.len() == fs@.len(),
        (DataModel::TupleStruct, DataOutline::TupleStruct) => true,
        (DataModel::UnitStruct, DataOutline::UnitStruct) => true,
        (DataModel::Enum, DataOutline::Enum) => true,
        (DataModel::Union, DataOutline::Union) => true,
        _ => false,
    }
}

/// The model of an outline: its name and kind kept, and every named field
/// converted, none left out, in order.
fn model_of_outline(outline: &DeriveOutline) -> (m: DeriveModel)
    ensures
        model_follows_outline(m, *outline),
{
    let data = match &outline.data {
        DataOutline::NamedStruct(fields) => {
            let mut models: Vec<FieldModel> = Vec::new();
            let n: usize = fields.len();
            for i in 0..n
                invariant
                    n == fields.len(),
                    models@.len() == i,
            {
                models.push(field_model(&fields[i]));
            }
            DataModel::NamedStruct(models)
        },
        DataOutline::TupleStruct => DataModel::TupleStruct,
        DataOutline::UnitStruct => DataModel::UnitStruct,
        DataOutline::Enum => DataModel::Enum,
        DataOutline::Union => DataModel::Union,
    };
    DeriveModel { ident: outline.ident.clone(), data }
}

/// Parses the text of a derive input with `syn` and reads it into the model:
/// whatever `syn` reads, the result is a model, or the refusal of text that
/// `syn` does not parse, carrying `syn`'s message.
pub fn read_derive_input(text: &str) -> (r: Result<DeriveModel, EnumeratorError>)
    ensures
        r matches Err(e) ==> e is InvalidInput,
{
    let outline = match parse_derive_outline(text) {
        Ok(o) => o,
        Err(e) => return Err(EnumeratorError::InvalidInput(syn_error_message(&e))),
    };
    Ok(model_of_outline(&outline))
}

} // verus!
