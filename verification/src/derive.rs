//! The two derives: `FieldEnumerator` and `ContextExtension`.

use vstd::prelude::*;
use crate::collect::{
    TagGroupView, collect_injectable_by_tag, declared_entries, group_fields, is_tag_refusal,
    law_group_lists_declared_entries, law_grouping_succeeds_exactly_when_well_formed,
    law_named_fields_refused_only_for_tags, law_one_enumerator_per_tag, spec_collect, tags_well_formed,
};
use crate::error::{EnumeratorError, ErrorView};
use crate::model::{DataModel, DataView, DeriveModel, DeriveView, FieldView};
use crate::render::{
    callback_lines, is_raw, law_distinct_tags_distinct_macro_names, macro_name, render_group, render_groups,
    render_tag_macros, law_render_groups_concat,
};
use crate::syntax::read_derive_input;

verus! {

/// What `FieldEnumerator` generates for an item: for a struct with named
/// fields, one enumerator macro per tag; any other item is refused.
pub open spec fn spec_expand(m: DeriveView) -> Result<Seq<char>, ErrorView> {
    match m.data {
        DataView::NamedStruct(fs) => match spec_collect(fs) {
            Ok(gs) => Ok(render_groups(m.ident, gs)),
            Err(e) => Err(e),
        },
        DataView::TupleStruct => Err(ErrorView::FieldsNotNamed),
        DataView::UnitStruct => Err(ErrorView::FieldsNotNamed),
        DataView::Enum => Err(ErrorView::NotAStruct),
        DataView::Union => Err(ErrorView::NotAStruct),
    }
}

/// The source text that `FieldEnumerator` generates for the item `input`,
/// or the reason it is refused.
pub fn expand_field_enumerator(input: &DeriveModel) -> (r: Result<String, EnumeratorError>)
    ensures
        match r {
            Ok(s) => spec_expand(input@) == Ok::<Seq<char>, ErrorView>(s@),
            Err(e) => spec_expand(input@) == Err::<Seq<char>, ErrorView>(e@),
        },
{
    match &input.data {
        DataModel::NamedStruct(fields) => {
            let groups = collect_injectable_by_tag(fields)?;
            Ok(render_tag_macros(&input.ident, &groups))
        },
        DataModel::TupleStruct => Err(EnumeratorError::FieldsNotNamed),
        DataModel::UnitStruct => Err(EnumeratorError::FieldsNotNamed),
        DataModel::Enum => Err(EnumeratorError::NotAStruct),
        DataModel::Union => Err(EnumeratorError::NotAStruct),
    }
}

/// Whether a result is the value, or the refusal, that a spec result describes.
pub open spec fn result_is(r: Result<String, EnumeratorError>, s: Result<Seq<char>, ErrorView>) -> bool {
    match r {
        Ok(x) => s == Ok::<Seq<char>, ErrorView>(x@),
        Err(e) => s == Err::<Seq<char>, ErrorView>(e@),
    }
}

/// `FieldEnumerator` on the text of the item's tokens: the source text of
/// the generated enumerator macros, or the reason the item is refused.
/// Text that `syn` does not parse as an item is refused with `syn`'s message
/// (`InvalidInput`, which no other path gives); otherwise the result is
/// exactly what [`expand_field_enumerator`] gives for the item that `syn`
/// read. Which item that is, and on which texts `syn` succeeds, is `syn`'s
/// and the lexer's to decide and is not stated.
pub fn field_enumerator_derive(input: &str) -> (r: Result<String, EnumeratorError>)
    ensures
        !(r matches Err(EnumeratorError::InvalidInput(_))) ==> exists|m: DeriveView| result_is(r, #[trigger] spec_expand(m)),
{
    let model = read_derive_input(input)?;
    let r = expand_field_enumerator(&model);
    assert(result_is(r, spec_expand(model@)));
    r
}

/// `ContextExtension` is a marker derive: whatever the item, it generates nothing.
pub fn context_extension_derive(_input: &str) -> (r: String)
    ensures
        r@ == Seq::<char>::empty(),
{
    String::new()
}

/// The enumerator macros generated for one struct have pairwise different
/// names, provided that no tag is written as a raw identifier.
pub proof fn law_enumerator_names_distinct(m: DeriveView, fields: Seq<FieldView>, gs: Seq<TagGroupView>)
    requires
        m.data == DataView::NamedStruct(fields),
        spec_collect(fields) == Ok::<Seq<TagGroupView>, ErrorView>(gs),
        forall|k: int| 0 <= k < gs.len() ==> !is_raw(#[trigger] gs[k].tag),
    ensures
        forall|k1: int, k2: int| 0 <= k1 < gs.len() && 0 <= k2 < gs.len() && k1 != k2
            ==> macro_name(m.ident, #[trigger] gs[k1].tag) != macro_name(m.ident, #[trigger] gs[k2].tag),
{
    law_one_enumerator_per_tag(fields, gs);
    assert forall|k1: int, k2: int| 0 <= k1 < gs.len() && 0 <= k2 < gs.len() && k1 != k2
        implies macro_name(m.ident, #[trigger] gs[k1].tag) != macro_name(m.ident, #[trigger] gs[k2].tag) by {
        law_distinct_tags_distinct_macro_names(m.ident, gs[k1].tag, gs[k2].tag);
    }
}

/// Which items are refused, and why: enums and unions as not structs,
/// tuple and unit structs as having no named fields, and a struct with
/// named fields exactly when its tags are not well formed, then (its fields
/// being named) only for a `#[tag ..]` attribute. Every struct with named
/// fields and well-formed tags is expanded.
pub proof fn law_which_items_are_refused(m: DeriveView)
    ensures
        (m.data is Enum || m.data is Union) ==> spec_expand(m) == Err::<Seq<char>, ErrorView>(ErrorView::NotAStruct),
        (m.data is TupleStruct || m.data is UnitStruct)
            ==> spec_expand(m) == Err::<Seq<char>, ErrorView>(ErrorView::FieldsNotNamed),
        m.data matches DataView::NamedStruct(fs) ==> (spec_expand(m) is Ok <==> tags_well_formed(fs)),
        m.data matches DataView::NamedStruct(fs) ==> (
            (forall|i: int| 0 <= i < fs.len() ==> (#[trigger] fs[i]).ident is Some)
                ==> (spec_expand(m) matches Err(e) ==> is_tag_refusal(e))),
{
    if let DataView::NamedStruct(fs) = m.data {
        law_grouping_succeeds_exactly_when_well_formed(fs);
        if forall|i: int| 0 <= i < fs.len() ==> (#[trigger] fs[i]).ident is Some {
            law_named_fields_refused_only_for_tags(fs);
        }
    }
}

/// The expansion of a struct with named fields is its enumerators, one after
/// the other, and the body of each invokes the callback on the fields that
/// carry its tag in declaration order (once per `#[tag(..)]` attribute).
pub proof fn law_enumerator_body_in_declaration_order(m: DeriveView, fields: Seq<FieldView>, gs: Seq<TagGroupView>, k: int)
    requires
        m.data == DataView::NamedStruct(fields),
        spec_collect(fields) == Ok::<Seq<TagGroupView>, ErrorView>(gs),
        0 <= k < gs.len(),
    ensures
        spec_expand(m) == Ok::<Seq<char>, ErrorView>(render_groups(m.ident, gs)),
        render_group(m.ident, gs[k]) == "macro_rules! "@ + macro_name(m.ident, gs[k].tag)
            + " { ($macro_callback:ident) => { "@ + callback_lines(m.ident, declared_entries(fields, gs[k].tag), gs[k].tag)
            + "} } "@,
{
    let t = gs[k].tag;
    law_one_enumerator_per_tag(fields, gs);
    law_group_lists_declared_entries(fields, gs, t);
    let c: int = choose|c: int| 0 <= c < gs.len() && gs[c].tag == t;
    assert(c == k);
    assert(group_fields(gs, t) == gs[k].fields);
}

/// For a struct with named fields, the expansion is exactly its groups'
/// enumerators, in order: the `k`-th group's enumerator, named after the
/// struct as its model names it, stands between those of the groups before
/// it and those of the groups after it, and nothing else is emitted.
pub proof fn law_expansion_holds_each_enumerator(m: DeriveView, fields: Seq<FieldView>, gs: Seq<TagGroupView>, k: int)
    requires
        m.data == DataView::NamedStruct(fields),
        spec_collect(fields) == Ok::<Seq<TagGroupView>, ErrorView>(gs),
        0 <= k < gs.len(),
    ensures
        spec_expand(m) == Ok::<Seq<char>, ErrorView>(
            render_groups(m.ident, gs.take(k)) + render_group(m.ident, gs[k]) + render_groups(m.ident, gs.skip(k + 1)),
        ),
{
    assert(gs =~= (gs.take(k) + seq![gs[k]]) + gs.skip(k + 1));
    law_render_groups_concat(m.ident, gs.take(k) + seq![gs[k]], gs.skip(k + 1));
    law_render_groups_concat(m.ident, gs.take(k), seq![gs[k]]);
    let one: Seq<TagGroupView> = seq![gs[k]];
    assert(one.drop_last() =~= Seq::<TagGroupView>::empty());
    assert(render_groups(m.ident, one.drop_last()) == Seq::<char>::empty());
    assert(render_groups(m.ident, one) =~= render_group(m.ident, gs[k]));
}

} // verus!
