//! Metadata extraction, identifier validity, casing, configuration, and the
//! small helpers.

use dhall_typegen::aggregate::Ty;
use dhall_typegen::collection::IndexedIdent;
use dhall_typegen::meta::MetaError;
use dhall_typegen::options::Options;
use dhall_typegen::outside::derive_root_ident;
use dhall_typegen::type_node::TypeNode;
use dhall_typegen::util::single;
use dhall_typegen::util::str_eq;
use dhall_typegen::util::usize_string;
use dhall_typegen::util::PushCd;
use dhall_typegen::util::ElementQuantity;

fn rec(fields: Vec<(&str, TypeNode)>) -> TypeNode {
    TypeNode::Record(fields.into_iter().map(|(n, t)| (n.to_string(), t)).collect())
}

fn uni(alts: Vec<(&str, Option<TypeNode>)>) -> TypeNode {
    TypeNode::Union(alts.into_iter().map(|(n, t)| (n.to_string(), t)).collect())
}

fn override_of(t: &Ty) -> Option<String> {
    match t {
        Ty::Aggregate(a) => a.name_override.clone(),
        _ => None,
    }
}

#[test]
fn prefix_form_extracts_override_and_content() {
    let node = rec(vec![
        ("__rust_type_name", uni(vec![("MyEnum", None)])),
        ("__rust_type_content", uni(vec![("A", None), ("B", None)])),
    ]);
    let t = node.normalize().unwrap();
    assert_eq!(override_of(&t), Some("MyEnum".to_string()));
    match &t {
        Ty::Aggregate(a) => assert_eq!(a.members.len(), 2),
        _ => panic!("expected an aggregate"),
    }
}

#[test]
fn postfix_form_strips_reserved_field() {
    let node = rec(vec![
        ("name", TypeNode::Text),
        ("__rust_struct", uni(vec![("MyStruct", None)])),
    ]);
    let t = node.normalize().unwrap();
    assert_eq!(override_of(&t), Some("MyStruct".to_string()));
    match &t {
        Ty::Aggregate(a) => {
            assert_eq!(a.members.len(), 1);
            assert_eq!(a.members[0].name.as_str(), "name");
        },
        _ => panic!("expected an aggregate"),
    }
}

#[test]
fn name_value_must_be_a_union() {
    let node = rec(vec![("__rust_struct", TypeNode::Text)]);
    assert_eq!(node.normalize().err(), Some(MetaError::IdentNotUnion));
}

#[test]
fn name_union_must_have_a_single_alternative() {
    let node = rec(vec![("__rust_struct", uni(vec![("A", None), ("B", None)]))]);
    assert_eq!(node.normalize().err(), Some(MetaError::IdentNotSingleAlternative));
}

#[test]
fn prefix_content_must_be_an_aggregate() {
    let node = rec(vec![
        ("__rust_type_name", uni(vec![("MyName", None)])),
        ("__rust_type_content", TypeNode::Text),
    ]);
    assert_eq!(node.normalize().err(), Some(MetaError::NotAggregateType));
}

#[test]
fn override_name_must_be_a_legal_identifier() {
    let node = rec(vec![("__rust_struct", uni(vec![("123bad", None)]))]);
    assert_eq!(node.normalize().err(), Some(MetaError::InvalidOverrideIdent));
    let keyword = rec(vec![("__rust_struct", uni(vec![("fn", None)]))]);
    assert_eq!(keyword.normalize().err(), Some(MetaError::InvalidOverrideIdent));
    let fine = rec(vec![("__rust_struct", uni(vec![("perfectly_fine", None)]))]);
    assert!(fine.normalize().is_ok());
}

#[test]
fn nested_metadata_errors_surface() {
    let node = rec(vec![(
        "inner",
        rec(vec![("__rust_struct", uni(vec![("A", None), ("B", None)]))]),
    )]);
    assert_eq!(node.normalize().err(), Some(MetaError::IdentNotSingleAlternative));
}

#[test]
fn root_ident_derivation_uses_type_name_casing() {
    assert_eq!(derive_root_ident("my_type").as_str(), "MyType");
    assert_eq!(derive_root_ident("shopping_list").as_str(), "ShoppingList");
    assert_eq!(derive_root_ident("widget").as_str(), "Widget");
}

#[test]
fn options_defaults_and_switch_selection() {
    let opts = Options::new("./schema/".to_string());
    assert!(opts.enum_impl(true));
    assert!(!opts.enum_impl(false));
    assert!(!opts.struct_impl(true));
    assert!(!opts.struct_impl(false));
    assert_eq!(opts.path.as_str(), "./schema/");
}

#[test]
fn options_grouped_names_set_several_switches() {
    let mut opts = Options::new(String::new());
    opts.set_option("impl", true).unwrap();
    assert!(opts.enum_impl(true) && opts.enum_impl(false));
    assert!(opts.struct_impl(true) && opts.struct_impl(false));
    opts.set_option("named_impl", false).unwrap();
    assert!(opts.enum_impl(true) && !opts.enum_impl(false));
    assert!(opts.struct_impl(true) && !opts.struct_impl(false));
    opts.set_option("anonymous_struct_impl", false).unwrap();
    assert!(!opts.struct_impl(true));
}

#[test]
fn options_unknown_name_is_reported() {
    let mut opts = Options::new(String::new());
    let settings = vec![
        ("struct_impl".to_string(), true),
        ("bogus_option".to_string(), true),
    ];
    assert_eq!(opts.into_options(&settings).err(), Some("bogus_option".to_string()));
    // the option before the unknown one was applied in order
    assert!(opts.struct_impl(false));
}

#[test]
fn anonymous_idents_render_with_owner_and_index() {
    let link = IndexedIdent::new_anonymous("Widget".to_string(), 0);
    assert_eq!(link.ident().as_str(), "WidgetAnon0");
    assert!(link.is_anonymous());
    let big = IndexedIdent::new_anonymous("Owner".to_string(), 1230);
    assert_eq!(big.ident().as_str(), "OwnerAnon1230");
    let named = IndexedIdent::new_named("Plain".to_string());
    assert_eq!(named.ident().as_str(), "Plain");
    assert!(!named.is_anonymous());
}

#[test]
fn decimal_rendering_is_exact() {
    assert_eq!(usize_string(0).as_str(), "0");
    assert_eq!(usize_string(7).as_str(), "7");
    assert_eq!(usize_string(10).as_str(), "10");
    assert_eq!(usize_string(90217).as_str(), "90217");
}

#[test]
fn single_element_selection() {
    let none: Vec<u8> = vec![];
    assert_eq!(single(&none).err(), Some(ElementQuantity::Zero));
    assert_eq!(single(&vec![5u8]).ok(), Some(&5u8));
    assert_eq!(single(&vec![5u8, 6u8]).err(), Some(ElementQuantity::Multiple));
}

#[test]
fn string_helpers() {
    assert!(str_eq("abc", "abc"));
    assert!(!str_eq("abc", "abd"));
    assert!(!str_eq("abc", "abcd"));
    assert_eq!(
        PushCd::setter_error_message("denied").as_str(),
        "Failed to set current directory: denied"
    );
}
