//! The raw structural type tree handed in by the schema loader.
//!
//! A `TypeNode` is the immutable input model: a tagged variant over the
//! primitive types, `Optional`/`List` wrappers and the two aggregate kinds,
//! `Record` (named fields) and `Union` (named variants with optional payload).
//! Member lists are kept in a fixed order; the loader derives them from maps,
//! so member names are unique, which `shape_wf` captures.
//!
//! `Shape` is the mathematical mirror of a `TypeNode`: names become character
//! sequences and member lists become `Seq`s, so contracts can state structural
//! facts extensionally.

use vstd::prelude::*;

verus! {

broadcast use {vstd::seq::axiom_seq_index_decreases, vstd::std_specs::vec::axiom_vec_index_decreases};

/// The raw structural type representation produced by the schema loader.
pub enum TypeNode {
    Bool,
    Natural,
    Integer,
    Double,
    Text,
    Optional(Box<TypeNode>),
    List(Box<TypeNode>),
    Record(Vec<(String, TypeNode)>),
    Union(Vec<(String, Option<TypeNode>)>),
}

/// The mathematical shape of a `TypeNode`.
pub enum Shape {
    Bool,
    Natural,
    Integer,
    Double,
    Text,
    Optional(Box<Shape>),
    List(Box<Shape>),
    Record(Seq<(Seq<char>, Shape)>),
    Union(Seq<(Seq<char>, Option<Shape>)>),
}

/// The shape of a raw node.
pub open spec fn node_shape(n: TypeNode) -> Shape
    decreases n,
{
    match n {
        TypeNode::Bool => Shape::Bool,
        TypeNode::Natural => Shape::Natural,
        TypeNode::Integer => Shape::Integer,
        TypeNode::Double => Shape::Double,
        TypeNode::Text => Shape::Text,
        TypeNode::Optional(inner) => Shape::Optional(Box::new(node_shape(*inner))),
        TypeNode::List(inner) => Shape::List(Box::new(node_shape(*inner))),
        TypeNode::Record(fields) => {
            proof {
                assert(decreases_to!(fields => fields@));
            }
            Shape::Record(record_shapes(fields@))
        },
        TypeNode::Union(alts) => {
            proof {
                assert(decreases_to!(alts => alts@));
            }
            Shape::Union(union_shapes(alts@))
        },
    }
}

/// The shapes of a record's raw field list, in order.
pub open spec fn record_shapes(fields: Seq<(String, TypeNode)>) -> Seq<(Seq<char>, Shape)>
    decreases fields,
{
    if fields.len() == 0 {
        Seq::empty()
    } else {
        proof {
            assert(decreases_to!(fields => fields[0]));
            assert(decreases_to!(fields => fields.subrange(1, fields.len() as int)));
        }
        seq![(fields[0].0@, node_shape(fields[0].1))] + record_shapes(
            fields.subrange(1, fields.len() as int),
        )
    }
}

/// The shapes of a union's raw alternative list, in order.
pub open spec fn union_shapes(alts: Seq<(String, Option<TypeNode>)>) -> Seq<
    (Seq<char>, Option<Shape>),
>
    decreases alts,
{
    if alts.len() == 0 {
        Seq::empty()
    } else {
        proof {
            assert(decreases_to!(alts => alts[0]));
            assert(decreases_to!(alts => alts.subrange(1, alts.len() as int)));
        }
        seq![
            (
                alts[0].0@,
                match alts[0].1 {
                    Some(payload) => Some(node_shape(payload)),
                    None => None,
                },
            ),
        ] + union_shapes(alts.subrange(1, alts.len() as int))
    }
}

impl View for TypeNode {
    type V = Shape;

    open spec fn view(&self) -> Shape {
        node_shape(*self)
    }
}

/// A record's shape list has one entry per raw field, in order.
pub proof fn lemma_record_shapes(fields: Seq<(String, TypeNode)>)
    ensures
        record_shapes(fields).len() == fields.len(),
        forall|i: int|
            0 <= i < fields.len() ==> record_shapes(fields)[i] == (
                #[trigger] fields[i].0@,
                node_shape(fields[i].1),
            ),
    decreases fields,
{
    if fields.len() > 0 {
        lemma_record_shapes(fields.subrange(1, fields.len() as int));
        assert forall|i: int|
            0 <= i < fields.len() implies record_shapes(fields)[i] == (
            #[trigger] fields[i].0@,
            node_shape(fields[i].1),
        ) by {
            if i > 0 {
                assert(fields.subrange(1, fields.len() as int)[i - 1] == fields[i]);
            }
        }
    }
}

/// A union's shape list has one entry per raw alternative, in order.
pub proof fn lemma_union_shapes(alts: Seq<(String, Option<TypeNode>)>)
    ensures
        union_shapes(alts).len() == alts.len(),
        forall|i: int|
            0 <= i < alts.len() ==> union_shapes(alts)[i] == (
                #[trigger] alts[i].0@,
                match alts[i].1 {
                    Some(payload) => Some(node_shape(payload)),
                    None => None,
                },
            ),
    decreases alts,
{
    if alts.len() > 0 {
        lemma_union_shapes(alts.subrange(1, alts.len() as int));
        assert forall|i: int|
            0 <= i < alts.len() implies union_shapes(alts)[i] == (
            #[trigger] alts[i].0@,
            match alts[i].1 {
                Some(payload) => Some(node_shape(payload)),
                None => None,
            },
        ) by {
            if i > 0 {
                assert(alts.subrange(1, alts.len() as int)[i - 1] == alts[i]);
            }
        }
    }
}

/// Names in a member list never repeat.
pub open spec fn names_unique<T>(members: Seq<(Seq<char>, T)>) -> bool {
    forall|i: int, j: int|
        0 <= i < j < members.len() ==> members[i].0 != members[j].0
}

/// Well-formedness of a raw shape: every aggregate's member names are unique.
/// The loader guarantees this because it reads members out of maps.
pub open spec fn shape_wf(s: Shape) -> bool
    decreases s,
{
    match s {
        Shape::Bool | Shape::Natural | Shape::Integer | Shape::Double | Shape::Text => true,
        Shape::Optional(inner) => shape_wf(*inner),
        Shape::List(inner) => shape_wf(*inner),
        Shape::Record(fields) => names_unique(fields) && (forall|i: int|
            0 <= i < fields.len() ==> shape_wf(#[trigger] fields[i].1)),
        Shape::Union(alts) => names_unique(alts) && (forall|i: int|
            0 <= i < alts.len() ==> match #[trigger] alts[i].1 {
                Some(payload) => shape_wf(payload),
                None => true,
            }),
    }
}

} // verus!
