//! End-to-end scenarios: root registration, anonymous naming, overrides.

use dhall_typegen::aggregate::AggregateKind;
use dhall_typegen::collection::AddTypeError;
use dhall_typegen::collection::IdentOrigin;
use dhall_typegen::collection::RegistryError;
use dhall_typegen::collection::TypeCollection;
use dhall_typegen::meta::MetaError;
use dhall_typegen::type_node::TypeNode;

fn rec(fields: Vec<(&str, TypeNode)>) -> TypeNode {
    TypeNode::Record(fields.into_iter().map(|(n, t)| (n.to_string(), t)).collect())
}

fn uni(alts: Vec<(&str, Option<TypeNode>)>) -> TypeNode {
    TypeNode::Union(alts.into_iter().map(|(n, t)| (n.to_string(), t)).collect())
}

fn sentinel() -> TypeNode {
    uni(vec![("__sentinel", None)])
}

fn name_union(name: &str) -> TypeNode {
    uni(vec![(name, None)])
}

#[test]
fn two_files_same_shape_distinct_roots() {
    // foo.schema = { name: Text } and bar.schema = { name: Text } become two
    // named types Foo and Bar, each with `name` resolved to the text
    // primitive.
    let mut tc = TypeCollection::new();
    let foo = tc.add_type(&rec(vec![("name", TypeNode::Text)]), "Foo").unwrap();
    let bar = tc.add_type(&rec(vec![("name", TypeNode::Text)]), "Bar").unwrap();
    assert_ne!(foo, bar);
    assert_eq!(tc.num_roots(), 2);
    assert_eq!(tc.root_name(foo).as_str(), "Foo");
    assert_eq!(tc.root_name(bar).as_str(), "Bar");

    let member = TypeNode::Text.normalize().unwrap();
    let (origin, chain) = tc.get_idents(foo, &member).unwrap();
    assert_eq!(origin, IdentOrigin::Local);
    assert_eq!(chain.len(), 1);
    assert_eq!(chain[0].ident().as_str(), "String");
}

#[test]
fn widget_with_nested_anonymous_record() {
    // widget.schema = { frame_color: Color, buttons: [ { color: Color,
    // pressed: Bool } ] } with Color a pre-existing named union: the nested
    // button record becomes WidgetAnon0 owned by Widget, and frame_color
    // resolves to Color.
    let color = || uni(vec![("Red", None), ("Green", None), ("Blue", None)]);
    let mut tc = TypeCollection::new();
    let color_idx = tc.add_type(&color(), "Color").unwrap();
    let widget = rec(vec![
        ("frame_color", color()),
        (
            "buttons",
            TypeNode::List(Box::new(rec(vec![
                ("color", color()),
                ("pressed", TypeNode::Bool),
            ]))),
        ),
    ]);
    let widget_idx = tc.add_type(&widget, "Widget").unwrap();
    assert_eq!(tc.root_name(widget_idx).as_str(), "Widget");

    let frame_member = color().normalize().unwrap();
    let (_, chain) = tc.get_idents(widget_idx, &frame_member).unwrap();
    assert_eq!(chain.len(), 1);
    assert_eq!(chain[0].ident().as_str(), "Color");
    assert!(!chain[0].is_anonymous());
    let _ = color_idx;

    let buttons_member = TypeNode::List(Box::new(rec(vec![
        ("color", uni(vec![("Red", None), ("Green", None), ("Blue", None)])),
        ("pressed", TypeNode::Bool),
    ])))
    .normalize()
    .unwrap();
    let (_, chain) = tc.get_idents(widget_idx, &buttons_member).unwrap();
    let rendered: Vec<String> = chain.iter().map(|l| l.ident()).collect();
    assert_eq!(rendered, vec!["Vec".to_string(), "WidgetAnon0".to_string()]);
    assert!(chain[1].is_anonymous());
    assert_eq!(chain[1].base_ident().as_str(), "Widget");

    assert_eq!(tc.num_anons(widget_idx), 1);
    let anon = tc.anon_ty(widget_idx, 0);
    assert_eq!(anon.kind, AggregateKind::Record);
    assert_eq!(anon.members.len(), 2);

    // Resolving the same structure again reuses WidgetAnon0.
    let again = TypeNode::List(Box::new(rec(vec![
        ("color", uni(vec![("Red", None), ("Green", None), ("Blue", None)])),
        ("pressed", TypeNode::Bool),
    ])))
    .normalize()
    .unwrap();
    let (_, chain2) = tc.get_idents(widget_idx, &again).unwrap();
    assert_eq!(chain2[1].ident().as_str(), "WidgetAnon0");
    assert_eq!(tc.num_anons(widget_idx), 1);
}

#[test]
fn half_prefix_pair_is_invalid_form() {
    // A record carrying only the name half of the prefix-form pair fails
    // with the malformed-use error instead of being silently ignored.
    let mut tc = TypeCollection::new();
    let node = rec(vec![
        ("__rust_type_name", name_union("MyName")),
        ("other", TypeNode::Text),
    ]);
    match tc.add_type(&node, "Fallback") {
        Err(AddTypeError::Meta(MetaError::InvalidForm)) => {},
        other => panic!("expected the malformed-override error, got {:?}", other.is_ok()),
    }
}

#[test]
fn generic_template_shared_between_instantiations() {
    // One generic template, two instantiations with different arguments:
    // one named definition, two distinct chains.
    let mut tc = TypeCollection::new();
    let template = rec(vec![("first", sentinel()), ("second", sentinel())]);
    let pair_idx = tc.add_type(&template, "Pair").unwrap();
    let holder = rec(vec![("a", TypeNode::Natural), ("b", TypeNode::Text)]);
    let holder_idx = tc.add_type(&holder, "Holder").unwrap();

    let roots_before = tc.num_roots();
    let inst1 = rec(vec![
        ("first", TypeNode::Natural),
        ("second", TypeNode::Natural),
    ])
    .normalize()
    .unwrap();
    let (_, chain1) = tc.get_idents(holder_idx, &inst1).unwrap();
    let inst2 = rec(vec![("first", TypeNode::Text), ("second", TypeNode::Text)])
        .normalize()
        .unwrap();
    let (_, chain2) = tc.get_idents(holder_idx, &inst2).unwrap();

    let r1: Vec<String> = chain1.iter().map(|l| l.ident()).collect();
    let r2: Vec<String> = chain2.iter().map(|l| l.ident()).collect();
    assert_eq!(r1, vec!["Pair".to_string(), "u64".to_string()]);
    assert_eq!(r2, vec!["Pair".to_string(), "String".to_string()]);
    assert_eq!(r1[0], r2[0]);
    assert_ne!(r1, r2);
    assert_eq!(tc.num_roots(), roots_before);
    assert_eq!(tc.root_name(pair_idx).as_str(), "Pair");
}

#[test]
fn double_member_reports_support_library_origin() {
    let mut tc = TypeCollection::new();
    let idx = tc.add_type(&rec(vec![("x", TypeNode::Double)]), "Holder").unwrap();
    let member = TypeNode::Double.normalize().unwrap();
    let (origin, chain) = tc.get_idents(idx, &member).unwrap();
    assert_eq!(origin, IdentOrigin::FromSerdeDhallTypegen);
    assert_eq!(chain[0].ident().as_str(), "OrderedF64");
}

#[test]
fn wrapped_members_build_nested_chains() {
    let mut tc = TypeCollection::new();
    let idx = tc.add_type(&rec(vec![("x", TypeNode::Bool)]), "Holder").unwrap();
    let member = TypeNode::Optional(Box::new(TypeNode::List(Box::new(TypeNode::Integer))))
        .normalize()
        .unwrap();
    let (_, chain) = tc.get_idents(idx, &member).unwrap();
    let rendered: Vec<String> = chain.iter().map(|l| l.ident()).collect();
    assert_eq!(
        rendered,
        vec!["Option".to_string(), "Vec".to_string(), "i32".to_string()]
    );
}

#[test]
fn context_not_found_is_reported() {
    let mut tc = TypeCollection::new();
    let member = rec(vec![("x", TypeNode::Bool)]).normalize().unwrap();
    match tc.get_idents(99, &member) {
        Err(RegistryError::ContextNotFound) => {},
        _ => panic!("expected the unknown-owner error"),
    }
}
