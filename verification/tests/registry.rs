//! Registry behavior: structural reuse, owner scoping, name collisions,
//! ambiguous matches, and the structural matcher itself.

use dhall_typegen::aggregate::Agg;
use dhall_typegen::aggregate::Ty;
use dhall_typegen::collection::AddTypeError;
use dhall_typegen::collection::RegistryError;
use dhall_typegen::collection::TypeCollection;
use dhall_typegen::type_node::TypeNode;

fn rec(fields: Vec<(&str, TypeNode)>) -> TypeNode {
    TypeNode::Record(fields.into_iter().map(|(n, t)| (n.to_string(), t)).collect())
}

fn uni(alts: Vec<(&str, Option<TypeNode>)>) -> TypeNode {
    TypeNode::Union(alts.into_iter().map(|(n, t)| (n.to_string(), t)).collect())
}

fn sentinel() -> TypeNode {
    uni(vec![("__sentinel", None)])
}

fn as_agg(t: Ty) -> Agg {
    match t {
        Ty::Aggregate(a) => *a,
        _ => panic!("expected an aggregate"),
    }
}

fn postfix_named(name: &str, mut fields: Vec<(&str, TypeNode)>) -> TypeNode {
    fields.push(("__rust_struct", uni(vec![(name, None)])));
    rec(fields)
}

#[test]
fn same_structure_same_owner_reuses_anonymous_entry() {
    let mut tc = TypeCollection::new();
    let owner = tc.add_type(&rec(vec![("x", TypeNode::Bool)]), "Owner").unwrap();
    let shape1 = as_agg(rec(vec![("p", TypeNode::Natural)]).normalize().unwrap());
    let shape2 = as_agg(rec(vec![("p", TypeNode::Natural)]).normalize().unwrap());
    let (id1, _) = tc.get_or_create_by_structure(owner, &shape1).unwrap();
    let (id2, _) = tc.get_or_create_by_structure(owner, &shape2).unwrap();
    assert_eq!(id1, id2);
    assert_eq!(id1.root, owner);
    assert_eq!(id1.anon, Some(0));
    assert_eq!(tc.num_anons(owner), 1);
}

#[test]
fn same_structure_different_owners_gets_independent_entries() {
    let mut tc = TypeCollection::new();
    let owner1 = tc.add_type(&rec(vec![("x", TypeNode::Bool)]), "First").unwrap();
    let owner2 = tc.add_type(&rec(vec![("y", TypeNode::Bool)]), "Second").unwrap();
    let shape1 = as_agg(rec(vec![("p", TypeNode::Natural)]).normalize().unwrap());
    let shape2 = as_agg(rec(vec![("p", TypeNode::Natural)]).normalize().unwrap());
    let (id1, _) = tc.get_or_create_by_structure(owner1, &shape1).unwrap();
    let (id2, _) = tc.get_or_create_by_structure(owner2, &shape2).unwrap();
    assert_ne!(id1, id2);
    assert_eq!(id1.root, owner1);
    assert_eq!(id2.root, owner2);
    assert_eq!(tc.num_anons(owner1), 1);
    assert_eq!(tc.num_anons(owner2), 1);
}

#[test]
fn same_override_name_incompatible_shapes_collide() {
    let mut tc = TypeCollection::new();
    tc.add_type(&postfix_named("Shared", vec![("a", TypeNode::Text)]), "One").unwrap();
    let second = postfix_named("Shared", vec![("b", TypeNode::Natural)]);
    match tc.add_type(&second, "Two") {
        Err(AddTypeError::Registry(RegistryError::NameCollision(name))) => {
            assert_eq!(name.as_str(), "Shared");
        },
        _ => panic!("expected a name collision"),
    }
    assert_eq!(tc.num_roots(), 1);
}

#[test]
fn same_override_name_compatible_shapes_share_one_type() {
    let mut tc = TypeCollection::new();
    let first = tc.add_type(&postfix_named("Shared", vec![("a", TypeNode::Text)]), "One").unwrap();
    let second = tc.add_type(&postfix_named("Shared", vec![("a", TypeNode::Text)]), "Two").unwrap();
    assert_eq!(first, second);
    assert_eq!(tc.num_roots(), 1);
    assert_eq!(tc.root_name(first).as_str(), "Shared");
}

#[test]
fn override_escapes_anonymity() {
    // A nested member with an override name registers at root level instead
    // of becoming an anonymous entry of its owner.
    let mut tc = TypeCollection::new();
    let owner = tc.add_type(&rec(vec![("x", TypeNode::Bool)]), "Owner").unwrap();
    let member = as_agg(
        postfix_named("Escaped", vec![("p", TypeNode::Natural)]).normalize().unwrap(),
    );
    let (id, _) = tc.get_or_create_by_structure(owner, &member).unwrap();
    assert_eq!(id.anon, None);
    assert_eq!(tc.root_name(id.root).as_str(), "Escaped");
    assert_eq!(tc.num_anons(owner), 0);
    assert_eq!(tc.num_roots(), 2);
}

#[test]
fn two_matching_templates_are_an_ambiguous_match() {
    // Two registered templates with sentinels in different positions can
    // both match one candidate: a fatal internal inconsistency.
    let mut tc = TypeCollection::new();
    let t1 = rec(vec![("x", sentinel()), ("y", TypeNode::Natural)]);
    tc.add_type(&t1, "TemplateOne").unwrap();
    let t2 = rec(vec![("x", TypeNode::Text), ("y", sentinel())]);
    tc.add_type(&t2, "TemplateTwo").unwrap();
    let candidate = as_agg(
        rec(vec![("x", TypeNode::Text), ("y", TypeNode::Natural)]).normalize().unwrap(),
    );
    match tc.get_or_create_by_structure(0, &candidate) {
        Err(RegistryError::AmbiguousStructuralMatch) => {},
        _ => panic!("expected the ambiguous-match error"),
    }
}

#[test]
fn matcher_demands_exact_member_sets() {
    // A candidate whose member set is a strict subset of the registered
    // shape is not a form of it, in either direction.
    let small = as_agg(rec(vec![("x", TypeNode::Bool)]).normalize().unwrap());
    let big = as_agg(
        rec(vec![("x", TypeNode::Bool), ("y", TypeNode::Bool)]).normalize().unwrap(),
    );
    assert!(small.is_form_of(&big).is_err());
    assert!(big.is_form_of(&small).is_err());
}

#[test]
fn matcher_distinguishes_kinds_and_payloads() {
    let record = as_agg(rec(vec![("x", TypeNode::Bool)]).normalize().unwrap());
    let union_no_payload = as_agg(uni(vec![("x", None)]).normalize().unwrap());
    let union_payload = as_agg(uni(vec![("x", Some(TypeNode::Bool))]).normalize().unwrap());
    assert!(record.is_form_of(&union_payload).is_err());
    assert!(union_no_payload.is_form_of(&union_payload).is_err());
    assert!(union_payload.is_form_of(&union_payload.duplicate()).is_ok());
}

#[test]
fn matcher_extracts_generic_argument() {
    let template = as_agg(rec(vec![("field", sentinel())]).normalize().unwrap());
    let instance = as_agg(rec(vec![("field", TypeNode::Natural)]).normalize().unwrap());
    match instance.is_form_of(&template) {
        Ok(Some(arg)) => assert!(matches!(arg, Ty::Natural)),
        _ => panic!("expected a match binding the natural primitive"),
    }
}

#[test]
fn matcher_rejects_two_different_generic_arguments() {
    let template = as_agg(
        rec(vec![("a", sentinel()), ("b", sentinel())]).normalize().unwrap(),
    );
    let consistent = as_agg(
        rec(vec![("a", TypeNode::Text), ("b", TypeNode::Text)]).normalize().unwrap(),
    );
    let inconsistent = as_agg(
        rec(vec![("a", TypeNode::Text), ("b", TypeNode::Natural)]).normalize().unwrap(),
    );
    assert!(consistent.is_form_of(&template).is_ok());
    assert!(inconsistent.is_form_of(&template).is_err());
}

#[test]
fn open_generic_detection_sees_through_wrappers() {
    let direct = as_agg(rec(vec![("field", sentinel())]).normalize().unwrap());
    assert!(direct.is_open_generic());
    let wrapped = as_agg(
        rec(vec![("field", TypeNode::Optional(Box::new(sentinel())))]).normalize().unwrap(),
    );
    assert!(wrapped.is_open_generic());
    let closed = as_agg(rec(vec![("field", TypeNode::Text)]).normalize().unwrap());
    assert!(!closed.is_open_generic());
    let the_sentinel = as_agg(sentinel().normalize().unwrap());
    assert!(the_sentinel.is_open_generic());
    assert!(the_sentinel.is_generic_sentinel());
    assert!(!direct.is_generic_sentinel());
}

#[test]
fn unit_is_the_empty_record() {
    let unit = as_agg(rec(vec![]).normalize().unwrap());
    assert!(unit.is_unit());
    let union = as_agg(uni(vec![("x", None)]).normalize().unwrap());
    assert!(!union.is_unit());
}

#[test]
fn non_aggregate_root_is_rejected() {
    let mut tc = TypeCollection::new();
    match tc.add_type(&TypeNode::Text, "Nope") {
        Err(AddTypeError::NotAggregate) => {},
        _ => panic!("expected the non-aggregate error"),
    }
}
