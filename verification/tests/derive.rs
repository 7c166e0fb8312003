use di_macro::derive::{context_extension_derive, expand_field_enumerator, field_enumerator_derive};
use di_macro::error::EnumeratorError;
use di_macro::model::{AttributeModel, DataModel, DeriveModel, FieldModel};

fn expand(text: &str) -> String {
    match field_enumerator_derive(text) {
        Ok(s) => s,
        Err(e) => panic!("unexpected refusal: {}", e.message()),
    }
}

fn refusal(text: &str) -> EnumeratorError {
    match field_enumerator_derive(text) {
        Ok(s) => panic!("unexpected output: {}", s),
        Err(e) => e,
    }
}

const MY_STRUCT: &str = "pub struct MyStruct {
    #[tag(init_listener)]
    field_1: i32,
    #[tag(init_listener)]
    #[tag(start_listener)]
    field_1_2: i32,
    field_2: i32,
    #[tag(start_listener)]
    field_3: i32,
}";

#[test]
fn struct_enumerator_example_generates_one_macro_per_tag() {
    assert_eq!(
        expand(MY_STRUCT),
        "macro_rules! enumerate_tags_MyStruct_init_listener { ($macro_callback:ident) => { \
         $macro_callback!(MyStruct, field_1, init_listener); \
         $macro_callback!(MyStruct, field_1_2, init_listener); } } \
         macro_rules! enumerate_tags_MyStruct_start_listener { ($macro_callback:ident) => { \
         $macro_callback!(MyStruct, field_1_2, start_listener); \
         $macro_callback!(MyStruct, field_3, start_listener); } } "
    );
}

#[test]
fn struct_without_tags_generates_nothing() {
    assert_eq!(expand("struct Plain { a: u8, b: String }"), "");
    assert_eq!(expand("struct Empty {}"), "");
}

#[test]
fn other_attributes_are_ignored() {
    let out = expand(
        "#[allow(dead_code)] struct S {
            /// documented
            #[serde(rename = \"x\")]
            #[tag(ready)]
            #[cfg(test)]
            a: u8,
            #[allow(unused)]
            b: u8,
        }",
    );
    assert_eq!(
        out,
        "macro_rules! enumerate_tags_S_ready { ($macro_callback:ident) => { $macro_callback!(S, a, ready); } } "
    );
}

#[test]
fn a_field_tagged_twice_with_one_tag_is_enumerated_twice() {
    let out = expand("struct S { #[tag(t)] #[tag(t)] a: u8 }");
    assert_eq!(
        out,
        "macro_rules! enumerate_tags_S_t { ($macro_callback:ident) => { \
         $macro_callback!(S, a, t); $macro_callback!(S, a, t); } } "
    );
}

#[test]
fn the_last_of_several_tag_arguments_wins() {
    let out = expand("struct S { #[tag(first, second)] a: u8 }");
    assert_eq!(
        out,
        "macro_rules! enumerate_tags_S_second { ($macro_callback:ident) => { $macro_callback!(S, a, second); } } "
    );
}

#[test]
fn tags_come_in_order_of_first_occurrence() {
    let out = expand("struct S { #[tag(b)] x: u8, #[tag(a)] y: u8, #[tag(b)] z: u8 }");
    assert_eq!(
        out,
        "macro_rules! enumerate_tags_S_b { ($macro_callback:ident) => { \
         $macro_callback!(S, x, b); $macro_callback!(S, z, b); } } \
         macro_rules! enumerate_tags_S_a { ($macro_callback:ident) => { $macro_callback!(S, y, a); } } "
    );
}

#[test]
fn raw_identifiers_lose_their_prefix_only_in_the_macro_name() {
    let out = expand("struct r#Ctx { #[tag(r#type)] r#match: u8 }");
    assert_eq!(
        out,
        "macro_rules! enumerate_tags_Ctx_type { ($macro_callback:ident) => { \
         $macro_callback!(r#Ctx, r#match, r#type); } } "
    );
}

#[test]
fn generics_and_visibility_do_not_matter() {
    let out = expand("pub(crate) struct G<T: Clone> where T: Copy { #[tag(init)] value: T }");
    assert_eq!(
        out,
        "macro_rules! enumerate_tags_G_init { ($macro_callback:ident) => { $macro_callback!(G, value, init); } } "
    );
}

#[test]
fn enums_and_unions_are_refused() {
    let e = refusal("enum E { A, B }");
    assert!(matches!(e, EnumeratorError::NotAStruct));
    assert_eq!(e.message(), "FieldEnumerator only works on structs");
    let e = refusal("union U { a: u8, b: u16 }");
    assert!(matches!(e, EnumeratorError::NotAStruct));
}

#[test]
fn structs_without_named_fields_are_refused() {
    let e = refusal("struct T(u8, u16);");
    assert!(matches!(e, EnumeratorError::FieldsNotNamed));
    assert_eq!(e.message(), "FieldEnumerator only works on structs with named fields");
    let e = refusal("struct U;");
    assert!(matches!(e, EnumeratorError::FieldsNotNamed));
}

#[test]
fn tag_without_parentheses_is_refused() {
    let e = refusal("struct S { #[tag] a: u8 }");
    assert!(matches!(&e, EnumeratorError::MalformedTag(f) if f == "a"));
    assert_eq!(
        e.message(),
        "FieldEnumerator attribute #tag(#TagType#) expects one parameter that represents event for field a"
    );
    let e = refusal("struct S { #[tag = \"x\"] b: u8 }");
    assert!(matches!(&e, EnumeratorError::MalformedTag(f) if f == "b"));
}

#[test]
fn tag_with_values_is_refused() {
    let e = refusal("struct S { #[tag(a = 1)] f: u8 }");
    assert!(matches!(&e, EnumeratorError::MalformedTag(f) if f == "f"));
    let e = refusal("struct S { #[tag(a(b))] g: u8 }");
    assert!(matches!(&e, EnumeratorError::MalformedTag(f) if f == "g"));
    let e = refusal("struct S { #[tag(\"lit\")] h: u8 }");
    assert!(matches!(&e, EnumeratorError::MalformedTag(f) if f == "h"));
}

#[test]
fn empty_tag_is_refused() {
    let e = refusal("struct S { #[tag()] a: u8 }");
    assert!(matches!(e, EnumeratorError::EmptyTag));
    assert_eq!(e.message(), "called `Option::unwrap()` on a `None` value");
}

#[test]
fn tag_that_is_not_an_identifier_is_refused() {
    let e = refusal("struct S { #[tag(a::b)] x: u8 }");
    assert!(matches!(&e, EnumeratorError::TagNotIdent(f) if f == "x"));
    assert_eq!(
        e.message(),
        "FieldEnumerator attribute #tag(#TagType#) expects one parameter of type indent that represents event for field x"
    );
    let e = refusal("struct S { #[tag(::b)] y: u8 }");
    assert!(matches!(&e, EnumeratorError::TagNotIdent(f) if f == "y"));
}

#[test]
fn the_first_refusal_in_field_order_is_reported() {
    let e = refusal("struct S { #[tag(ok)] a: u8, #[tag(x::y)] b: u8, #[tag] c: u8 }");
    assert!(matches!(&e, EnumeratorError::TagNotIdent(f) if f == "b"));
    let e = refusal("struct S { #[tag()] #[tag] a: u8 }");
    assert!(matches!(e, EnumeratorError::EmptyTag));
}

#[test]
fn text_that_is_not_an_item_is_refused_with_the_parser_message() {
    let e = refusal("fn f() {}");
    match e {
        EnumeratorError::InvalidInput(m) => assert!(!m.is_empty()),
        _ => panic!("expected a parse refusal"),
    }
    let e = refusal("struct S { a: }");
    assert!(matches!(e, EnumeratorError::InvalidInput(_)));
}

#[test]
fn context_extension_generates_nothing() {
    assert_eq!(context_extension_derive("struct A { #[tag(x)] a: u8 }"), "");
    assert_eq!(context_extension_derive("not even rust ("), "");
}

fn tag_attr(tags: &[&str]) -> AttributeModel {
    AttributeModel {
        path_ident: Some("tag".to_string()),
        nested: Some(tags.iter().map(|t| Some(t.to_string())).collect()),
    }
}

#[test]
fn expansion_of_a_hand_built_model() {
    let model = DeriveModel {
        ident: "Ctx".to_string(),
        data: DataModel::NamedStruct(vec![
            FieldModel { ident: Some("db".to_string()), attrs: vec![tag_attr(&["init"])] },
            FieldModel {
                ident: Some("log".to_string()),
                attrs: vec![
                    AttributeModel { path_ident: Some("doc".to_string()), nested: None },
                    tag_attr(&["init"]),
                    tag_attr(&["start"]),
                ],
            },
        ]),
    };
    match expand_field_enumerator(&model) {
        Ok(s) => assert_eq!(
            s,
            "macro_rules! enumerate_tags_Ctx_init { ($macro_callback:ident) => { \
             $macro_callback!(Ctx, db, init); $macro_callback!(Ctx, log, init); } } \
             macro_rules! enumerate_tags_Ctx_start { ($macro_callback:ident) => { $macro_callback!(Ctx, log, start); } } "
        ),
        Err(e) => panic!("unexpected refusal: {}", e.message()),
    }
}

#[test]
fn unnamed_field_in_a_model_is_refused() {
    let model = DeriveModel {
        ident: "S".to_string(),
        data: DataModel::NamedStruct(vec![FieldModel { ident: None, attrs: vec![] }]),
    };
    assert!(matches!(expand_field_enumerator(&model), Err(EnumeratorError::FieldsNotNamed)));
    let model = DeriveModel { ident: "E".to_string(), data: DataModel::Enum };
    assert!(matches!(expand_field_enumerator(&model), Err(EnumeratorError::NotAStruct)));
    let model = DeriveModel { ident: "U".to_string(), data: DataModel::UnitStruct };
    assert!(matches!(expand_field_enumerator(&model), Err(EnumeratorError::FieldsNotNamed)));
}

#[test]
fn tags_differing_only_by_raw_prefix_share_a_macro_name() {
    let out = expand("struct S { #[tag(r#type)] a: u8, #[tag(type)] b: u8 }");
    assert_eq!(
        out,
        "macro_rules! enumerate_tags_S_type { ($macro_callback:ident) => { $macro_callback!(S, a, r#type); } } \
         macro_rules! enumerate_tags_S_type { ($macro_callback:ident) => { $macro_callback!(S, b, type); } } "
    );
}

#[test]
fn distinct_plain_tags_get_distinct_macro_names() {
    let out = expand("struct S { #[tag(a)] #[tag(b)] #[tag(c)] x: u8 }");
    assert!(out.contains("macro_rules! enumerate_tags_S_a {"));
    assert!(out.contains("macro_rules! enumerate_tags_S_b {"));
    assert!(out.contains("macro_rules! enumerate_tags_S_c {"));
    assert_eq!(out.matches("macro_rules!").count(), 3);
    assert_eq!(out.matches("$macro_callback!(S, x, ").count(), 3);
}
