use di_macro::collect::collect_injectable_by_tag;
use di_macro::error::EnumeratorError;
use di_macro::model::{AttributeModel, DataModel, FieldModel};
use di_macro::render::{render_tag_macro, tag_macro_name, unraw_ident};
use di_macro::syntax::read_derive_input;

#[test]
fn macro_names_drop_the_raw_prefix() {
    assert_eq!(unraw_ident(&"r#type".to_string()), "type");
    assert_eq!(unraw_ident(&"plain".to_string()), "plain");
    assert_eq!(unraw_ident(&"r".to_string()), "r");
    assert_eq!(tag_macro_name(&"App".to_string(), &"init_listener".to_string()), "enumerate_tags_App_init_listener");
    assert_eq!(tag_macro_name(&"r#App".to_string(), &"r#loop".to_string()), "enumerate_tags_App_loop");
}

fn tagged(name: &str, tags: &[&str]) -> FieldModel {
    FieldModel {
        ident: Some(name.to_string()),
        attrs: tags
            .iter()
            .map(|t| AttributeModel { path_ident: Some("tag".to_string()), nested: Some(vec![Some(t.to_string())]) })
            .collect(),
    }
}

#[test]
fn grouping_lists_fields_in_order_per_tag() {
    let fields = vec![tagged("a", &["x", "y"]), tagged("b", &[]), tagged("c", &["y"]), tagged("d", &["x"])];
    let groups = match collect_injectable_by_tag(&fields) {
        Ok(g) => g,
        Err(e) => panic!("unexpected refusal: {}", e.message()),
    };
    assert_eq!(groups.len(), 2);
    assert_eq!(groups[0].tag, "x");
    assert_eq!(groups[0].fields, vec!["a".to_string(), "d".to_string()]);
    assert_eq!(groups[1].tag, "y");
    assert_eq!(groups[1].fields, vec!["a".to_string(), "c".to_string()]);
    assert_eq!(
        render_tag_macro(&"S".to_string(), &groups[1]),
        "macro_rules! enumerate_tags_S_y { ($macro_callback:ident) => { \
         $macro_callback!(S, a, y); $macro_callback!(S, c, y); } } "
    );
}

#[test]
fn grouping_refuses_a_tag_path_that_is_not_an_identifier() {
    let fields = vec![FieldModel {
        ident: Some("a".to_string()),
        attrs: vec![AttributeModel { path_ident: Some("tag".to_string()), nested: Some(vec![Some("x".to_string()), None]) }],
    }];
    assert!(matches!(collect_injectable_by_tag(&fields), Err(EnumeratorError::TagNotIdent(f)) if f == "a"));
    let fields = vec![FieldModel {
        ident: Some("a".to_string()),
        attrs: vec![AttributeModel { path_ident: None, nested: None }],
    }];
    match collect_injectable_by_tag(&fields) {
        Ok(g) => assert!(g.is_empty()),
        Err(e) => panic!("unexpected refusal: {}", e.message()),
    }
}

#[test]
fn reading_an_item_keeps_names_attributes_and_tag_arguments() {
    let model = match read_derive_input("struct Ctx { #[tag(a, b::c)] #[other] first: u8, #[x::z] #[::y] #[t(r#u)] second: u16 }") {
        Ok(m) => m,
        Err(e) => panic!("unexpected refusal: {}", e.message()),
    };
    assert_eq!(model.ident, "Ctx");
    let fields = match &model.data {
        DataModel::NamedStruct(f) => f,
        _ => panic!("expected named fields"),
    };
    assert_eq!(fields.len(), 2);
    assert_eq!(fields[0].ident, Some("first".to_string()));
    assert_eq!(fields[1].ident, Some("second".to_string()));
    assert_eq!(fields[0].attrs.len(), 2);
    assert_eq!(fields[0].attrs[0].path_ident, Some("tag".to_string()));
    assert_eq!(fields[0].attrs[0].nested, Some(vec![Some("a".to_string()), None]));
    assert_eq!(fields[0].attrs[1].path_ident, Some("other".to_string()));
    assert_eq!(fields[0].attrs[1].nested, None);
    assert_eq!(fields[1].attrs.len(), 3);
    assert_eq!(fields[1].attrs[0].path_ident, None);
    assert_eq!(fields[1].attrs[1].path_ident, None);
    assert_eq!(fields[1].attrs[2].nested, Some(vec![Some("r#u".to_string())]));
}

#[test]
fn reading_tells_the_kinds_of_items_apart() {
    let kind = |text: &str| match read_derive_input(text) {
        Ok(m) => m.data,
        Err(e) => panic!("unexpected refusal: {}", e.message()),
    };
    assert!(matches!(kind("struct T(u8);"), DataModel::TupleStruct));
    assert!(matches!(kind("struct U;"), DataModel::UnitStruct));
    assert!(matches!(kind("enum E { A }"), DataModel::Enum));
    assert!(matches!(kind("union V { a: u8 }"), DataModel::Union));
    assert!(matches!(kind("struct N {}"), DataModel::NamedStruct(f) if f.is_empty()));
    assert!(matches!(read_derive_input("struct"), Err(EnumeratorError::InvalidInput(_))));
}

fn tags_of(fields: &Vec<FieldModel>) -> Vec<(String, Vec<String>)> {
    match collect_injectable_by_tag(fields) {
        Ok(g) => g.into_iter().map(|g| (g.tag, g.fields)).collect(),
        Err(e) => panic!("unexpected refusal: {}", e.message()),
    }
}

#[test]
fn grouping_of_concatenated_fields_appends_per_tag() {
    let first = vec![tagged("a", &["x"]), tagged("b", &["y"])];
    let second = vec![tagged("c", &["y", "z"]), tagged("d", &["x"])];
    let both = vec![tagged("a", &["x"]), tagged("b", &["y"]), tagged("c", &["y", "z"]), tagged("d", &["x"])];
    let g = tags_of(&both);
    assert_eq!(
        g,
        vec![
            ("x".to_string(), vec!["a".to_string(), "d".to_string()]),
            ("y".to_string(), vec!["b".to_string(), "c".to_string()]),
            ("z".to_string(), vec!["c".to_string()]),
        ]
    );
    assert_eq!(tags_of(&first).len() + tags_of(&second).len(), 5);
}

#[test]
fn an_untagged_field_changes_nothing() {
    let without = vec![tagged("a", &["x"]), tagged("c", &["x"])];
    let with = vec![
        tagged("a", &["x"]),
        FieldModel {
            ident: Some("b".to_string()),
            attrs: vec![AttributeModel { path_ident: Some("doc".to_string()), nested: None }],
        },
        tagged("c", &["x"]),
    ];
    assert_eq!(tags_of(&with), tags_of(&without));
}

#[test]
fn well_formed_fields_are_never_refused_and_unnamed_ones_are() {
    let fields = vec![tagged("a", &["x"]), tagged("b", &[]), tagged("c", &["x", "x"])];
    assert_eq!(tags_of(&fields), vec![("x".to_string(), vec!["a".to_string(), "c".to_string(), "c".to_string()])]);
    let fields = vec![tagged("a", &["x"]), FieldModel { ident: None, attrs: vec![] }];
    assert!(matches!(collect_injectable_by_tag(&fields), Err(EnumeratorError::FieldsNotNamed)));
}

#[test]
fn one_tag_on_two_structs_gets_two_names() {
    let t = "init".to_string();
    assert_ne!(tag_macro_name(&"Profile1".to_string(), &t), tag_macro_name(&"Profile2".to_string(), &t));
    assert_eq!(tag_macro_name(&"r#P".to_string(), &t), tag_macro_name(&"P".to_string(), &t));
    assert_eq!(
        tag_macro_name(&"A_b".to_string(), &"c".to_string()),
        tag_macro_name(&"A".to_string(), &"b_c".to_string())
    );
}

#[test]
fn listed_fields_number_the_tag_attributes() {
    let fields = vec![tagged("a", &["x", "y", "x"]), tagged("b", &[]), tagged("c", &["y"])];
    let groups = tags_of(&fields);
    let listed: usize = groups.iter().map(|(_, f)| f.len()).sum();
    assert_eq!(listed, 4);
    assert_eq!(groups[0], ("x".to_string(), vec!["a".to_string(), "a".to_string()]));
}

#[test]
fn other_attributes_and_untagged_fields_in_any_mix_change_nothing() {
    let plain = vec![tagged("a", &["x"]), tagged("c", &["x"])];
    let other = |p: &str| AttributeModel { path_ident: Some(p.to_string()), nested: Some(vec![]) };
    let mut a = tagged("a", &["x"]);
    a.attrs.insert(0, other("doc"));
    a.attrs.push(other("serde"));
    let mixed = vec![
        FieldModel { ident: Some("z".to_string()), attrs: vec![other("allow")] },
        a,
        FieldModel { ident: Some("b".to_string()), attrs: vec![] },
        tagged("c", &["x"]),
        FieldModel { ident: Some("d".to_string()), attrs: vec![AttributeModel { path_ident: None, nested: None }] },
    ];
    assert_eq!(tags_of(&mixed), tags_of(&plain));
}
