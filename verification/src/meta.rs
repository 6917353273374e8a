//! Name-override metadata extraction.
//!
//! A schema can force a nominal name onto an aggregate in two forms. The
//! prefix form wraps the real aggregate in a record carrying a designated
//! name field and a designated content field. The postfix form augments a
//! record with one reserved field naming the override, which is stripped from
//! the member list. In both forms the name value is a single-alternative
//! union whose one alternative name is the override, and that name must be a
//! legal identifier in the target syntax. Normalization turns a raw
//! `TypeNode` into the clean `Ty` model, resolving all such metadata at every
//! nesting level and reporting malformed uses.

use vstd::prelude::*;

use crate::aggregate::Agg;
use crate::aggregate::AggS;
use crate::aggregate::AggregateKind;
use crate::aggregate::Member;
use crate::aggregate::MemberS;
use crate::aggregate::Ty;
use crate::aggregate::TyS;
use crate::aggregate::agg_view;
use crate::aggregate::members_view;
use crate::aggregate::lemma_members_view;
use crate::outside::is_parseable_ident;
use crate::outside::parse_ident_ok;
use crate::type_node::Shape;
use crate::type_node::TypeNode;
use crate::type_node::node_shape;
use crate::type_node::record_shapes;
use crate::type_node::union_shapes;
use crate::type_node::lemma_record_shapes;
use crate::type_node::lemma_union_shapes;
use crate::util::str_eq;

verus! {

broadcast use {vstd::seq::axiom_seq_index_decreases, vstd::std_specs::vec::axiom_vec_index_decreases};

/// How a name-override annotation was malformed.
#[derive(Debug, Clone, Copy, PartialEq, Eq, Structural)]
pub enum MetaError {
    /// The name value is not a union.
    IdentNotUnion,
    /// The name union does not have exactly one alternative.
    IdentNotSingleAlternative,
    /// The prefix form's content value is not a record or a union.
    NotAggregateType,
    /// The override name is not a legal identifier in the target syntax.
    InvalidOverrideIdent,
    /// Only one half of the prefix form's field pair is present.
    InvalidForm,
}

/// The reserved field holding the prefix form's name value.
pub open spec fn prefix_name_field() -> Seq<char> {
    "__rust_type_name"@
}

/// The reserved field holding the prefix form's content value.
pub open spec fn prefix_content_field() -> Seq<char> {
    "__rust_type_content"@
}

/// The reserved field holding the postfix form's name value.
pub open spec fn postfix_field() -> Seq<char> {
    "__rust_struct"@
}

/// The first field of `fields` named `name`.
pub open spec fn lookup_field(fields: Seq<(Seq<char>, Shape)>, name: Seq<char>) -> Option<Shape>
    decreases fields,
{
    if fields.len() == 0 {
        None
    } else if fields[0].0 == name {
        Some(fields[0].1)
    } else {
        lookup_field(fields.subrange(1, fields.len() as int), name)
    }
}

/// A looked-up field value is structurally below the field list.
pub proof fn lemma_lookup_field_size(fields: Seq<(Seq<char>, Shape)>, name: Seq<char>)
    ensures
        match lookup_field(fields, name) {
            Some(s) => decreases_to!(fields => s),
            None => true,
        },
    decreases fields,
{
    if fields.len() > 0 {
        if fields[0].0 == name {
            assert(decreases_to!(fields => fields[0]));
        } else {
            assert(decreases_to!(fields => fields.subrange(1, fields.len() as int)));
            lemma_lookup_field_size(fields.subrange(1, fields.len() as int), name);
        }
    }
}

/// The override name carried by a name value: the name of the single
/// alternative of a union, provided it is a legal identifier.
pub open spec fn override_name_of(name_ty: Shape) -> Result<Seq<char>, MetaError> {
    match name_ty {
        Shape::Union(alts) => if alts.len() != 1 {
            Err(MetaError::IdentNotSingleAlternative)
        } else if is_parseable_ident(alts[0].0) {
            Ok(alts[0].0)
        } else {
            Err(MetaError::InvalidOverrideIdent)
        },
        _ => Err(MetaError::IdentNotUnion),
    }
}

/// Normalizing a raw shape: primitives and wrappers carry over, records go
/// through override extraction, unions become anonymous union aggregates.
pub open spec fn norm_ty(s: Shape) -> Result<TyS, MetaError>
    decreases s, 2int,
{
    match s {
        Shape::Bool => Ok(TyS::Bool),
        Shape::Natural => Ok(TyS::Natural),
        Shape::Integer => Ok(TyS::Integer),
        Shape::Double => Ok(TyS::Double),
        Shape::Text => Ok(TyS::Text),
        Shape::Optional(inner) => match norm_ty(*inner) {
            Ok(t) => Ok(TyS::Optional(Box::new(t))),
            Err(e) => Err(e),
        },
        Shape::List(inner) => match norm_ty(*inner) {
            Ok(t) => Ok(TyS::List(Box::new(t))),
            Err(e) => Err(e),
        },
        Shape::Record(fields) => norm_record(fields),
        Shape::Union(alts) => match union_members(alts) {
            Ok(ms) => Ok(
                TyS::Aggregate(
                    AggS { name_override: None, kind: AggregateKind::Union, members: ms },
                ),
            ),
            Err(e) => Err(e),
        },
    }
}

/// Normalizing a raw record: resolve the prefix form first, then the postfix
/// form, else keep the record anonymous. A half-present prefix pair is
/// malformed.
pub open spec fn norm_record(fields: Seq<(Seq<char>, Shape)>) -> Result<TyS, MetaError>
    decreases fields, 1int,
{
    let pn = lookup_field(fields, prefix_name_field());
    let pc = lookup_field(fields, prefix_content_field());
    match (pn, pc) {
        (Some(name_ty), Some(content)) => {
            proof {
                lemma_lookup_field_size(fields, prefix_content_field());
            }
            match content {
                Shape::Record(cf) => match override_name_of(name_ty) {
                    Err(e) => Err(e),
                    Ok(nm) => match record_members(cf) {
                        Err(e) => Err(e),
                        Ok(ms) => Ok(
                            TyS::Aggregate(
                                AggS {
                                    name_override: Some(nm),
                                    kind: AggregateKind::Record,
                                    members: ms,
                                },
                            ),
                        ),
                    },
                },
                Shape::Union(ca) => match override_name_of(name_ty) {
                    Err(e) => Err(e),
                    Ok(nm) => match union_members(ca) {
                        Err(e) => Err(e),
                        Ok(ms) => Ok(
                            TyS::Aggregate(
                                AggS {
                                    name_override: Some(nm),
                                    kind: AggregateKind::Union,
                                    members: ms,
                                },
                            ),
                        ),
                    },
                },
                _ => Err(MetaError::NotAggregateType),
            }
        },
        (None, None) => match lookup_field(fields, postfix_field()) {
            Some(name_ty) => match override_name_of(name_ty) {
                Err(e) => Err(e),
                Ok(nm) => match record_members(fields) {
                    Err(e) => Err(e),
                    Ok(ms) => Ok(
                        TyS::Aggregate(
                            AggS {
                                name_override: Some(nm),
                                kind: AggregateKind::Record,
                                members: ms,
                            },
                        ),
                    ),
                },
            },
            None => match record_members(fields) {
                Err(e) => Err(e),
                Ok(ms) => Ok(
                    TyS::Aggregate(
                        AggS { name_override: None, kind: AggregateKind::Record, members: ms },
                    ),
                ),
            },
        },
        _ => Err(MetaError::InvalidForm),
    }
}

/// Normalizing a record's field list: the postfix form's reserved field is
/// stripped, every other field becomes a member with a normalized payload.
pub open spec fn record_members(fields: Seq<(Seq<char>, Shape)>) -> Result<
    Seq<MemberS>,
    MetaError,
>
    decreases fields, 0int,
{
    if fields.len() == 0 {
        Ok(Seq::empty())
    } else {
        proof {
            assert(decreases_to!(fields => fields[0]));
            assert(decreases_to!(fields => fields.subrange(1, fields.len() as int)));
        }
        let rest = record_members(fields.subrange(1, fields.len() as int));
        if fields[0].0 == postfix_field() {
            rest
        } else {
            match norm_ty(fields[0].1) {
                Err(e) => Err(e),
                Ok(t) => match rest {
                    Err(e) => Err(e),
                    Ok(ms) => Ok(
                        seq![MemberS { name: fields[0].0, payload: Some(t) }] + ms,
                    ),
                },
            }
        }
    }
}

/// Whether some field of a raw record carries the name `n`.
pub open spec fn field_name_present(fields: Seq<(Seq<char>, Shape)>, n: Seq<char>) -> bool {
    exists|j: int| 0 <= j < fields.len() && #[trigger] fields[j].0 == n
}

/// A looked-up field value is one of the field values.
pub proof fn lemma_lookup_field_found(fields: Seq<(Seq<char>, Shape)>, name: Seq<char>)
    ensures
        match lookup_field(fields, name) {
            Some(v) => exists|j: int|
                0 <= j < fields.len() && #[trigger] fields[j] == (name, v),
            None => true,
        },
    decreases fields,
{
    if fields.len() > 0 && fields[0].0 != name {
        lemma_lookup_field_found(fields.subrange(1, fields.len() as int), name);
        let tail = fields.subrange(1, fields.len() as int);
        match lookup_field(fields, name) {
            Some(v) => {
                let j = choose|j: int| 0 <= j < tail.len() && #[trigger] tail[j] == (name, v);
                assert(fields[j + 1] == (name, v));
            },
            None => {},
        }
    }
}

/// Normalizing a well-formed raw type yields a well-formed normalized type.
pub proof fn lemma_norm_ty_wf(s: Shape)
    requires
        crate::type_node::shape_wf(s),
    ensures
        match norm_ty(s) {
            Ok(t) => crate::aggregate::wf_ty(t),
            Err(_) => true,
        },
    decreases s, 2int,
{
    match s {
        Shape::Optional(inner) => lemma_norm_ty_wf(*inner),
        Shape::List(inner) => lemma_norm_ty_wf(*inner),
        Shape::Record(fields) => lemma_norm_record_wf(fields),
        Shape::Union(alts) => lemma_union_members_wf(alts),
        _ => {},
    }
}

/// Normalizing the record branch preserves well-formedness.
pub proof fn lemma_norm_record_wf(fields: Seq<(Seq<char>, Shape)>)
    requires
        crate::type_node::names_unique(fields),
        forall|i: int| 0 <= i < fields.len() ==> crate::type_node::shape_wf(#[trigger] fields[i].1),
    ensures
        match norm_record(fields) {
            Ok(t) => crate::aggregate::wf_ty(t),
            Err(_) => true,
        },
    decreases fields, 1int,
{
    let pn = lookup_field(fields, prefix_name_field());
    let pc = lookup_field(fields, prefix_content_field());
    match (pn, pc) {
        (Some(name_ty), Some(content)) => {
            lemma_lookup_field_found(fields, prefix_content_field());
            lemma_lookup_field_size(fields, prefix_content_field());
            assert(decreases_to!(fields => content));
            assert(crate::type_node::shape_wf(content)) by {
                let j = choose|j: int|
                    0 <= j < fields.len() && #[trigger] fields[j] == (
                        prefix_content_field(),
                        content,
                    );
                assert(crate::type_node::shape_wf(fields[j].1));
            }
            match content {
                Shape::Record(cf) => {
                    lemma_record_members_wf(cf);
                    match (override_name_of(name_ty), record_members(cf)) {
                        (Ok(nm), Ok(ms)) => {
                            assert forall|i: int|
                                0 <= i < ms.len() implies match #[trigger] ms[i].payload {
                                Some(p) => crate::aggregate::wf_ty(p),
                                None => false,
                            } by {}
                            let built = AggS {
                                name_override: Some(nm),
                                kind: AggregateKind::Record,
                                members: ms,
                            };
                            assert(crate::aggregate::wf_agg(built));
                        },
                        _ => {},
                    }
                },
                Shape::Union(ca) => {
                    lemma_union_alts_wf(ca);
                    match (override_name_of(name_ty), union_members(ca)) {
                        (Ok(nm), Ok(ms)) => {
                            assert forall|i: int|
                                0 <= i < ms.len() implies match #[trigger] ms[i].payload {
                                Some(p) => crate::aggregate::wf_ty(p),
                                None => true,
                            } by {}
                            let built = AggS {
                                name_override: Some(nm),
                                kind: AggregateKind::Union,
                                members: ms,
                            };
                            assert(crate::aggregate::wf_agg(built));
                        },
                        _ => {},
                    }
                },
                _ => {},
            }
        },
        (None, None) => {
            lemma_record_members_wf(fields);
            match record_members(fields) {
                Ok(ms) => {
                    assert(crate::aggregate::member_names_unique(ms));
                    assert forall|i: int|
                        0 <= i < ms.len() implies match #[trigger] ms[i].payload {
                        Some(p) => crate::aggregate::wf_ty(p),
                        None => false,
                    } by {}
                    match lookup_field(fields, postfix_field()) {
                        Some(name_ty) => match override_name_of(name_ty) {
                            Ok(nm) => {
                                let built = AggS {
                                    name_override: Some(nm),
                                    kind: AggregateKind::Record,
                                    members: ms,
                                };
                                assert(crate::aggregate::wf_agg(built));
                            },
                            Err(_) => {},
                        },
                        None => {
                            let built = AggS {
                                name_override: None,
                                kind: AggregateKind::Record,
                                members: ms,
                            };
                            assert(crate::aggregate::wf_agg(built));
                        },
                    }
                },
                Err(_) => {},
            }
        },
        _ => {},
    }
}

/// Normalized record members keep unique names, always carry a well-formed
/// payload, and take their names from the raw field list.
pub proof fn lemma_record_members_wf(fields: Seq<(Seq<char>, Shape)>)
    requires
        crate::type_node::names_unique(fields),
        forall|i: int| 0 <= i < fields.len() ==> crate::type_node::shape_wf(#[trigger] fields[i].1),
    ensures
        match record_members(fields) {
            Ok(ms) => {
                &&& crate::aggregate::member_names_unique(ms)
                &&& forall|k: int|
                    0 <= k < ms.len() ==> match #[trigger] ms[k].payload {
                        Some(p) => crate::aggregate::wf_ty(p),
                        None => false,
                    }
                &&& forall|k: int|
                    0 <= k < ms.len() ==> field_name_present(fields, #[trigger] ms[k].name)
            },
            Err(_) => true,
        },
    decreases fields, 0int,
{
    if fields.len() > 0 {
        let tail = fields.subrange(1, fields.len() as int);
        assert forall|i: int|
            0 <= i < tail.len() implies crate::type_node::shape_wf(#[trigger] tail[i].1) by {
            assert(tail[i] == fields[i + 1]);
        }
        assert forall|i: int, j: int| 0 <= i < j < tail.len() implies tail[i].0 != tail[j].0 by {
            assert(tail[i] == fields[i + 1]);
            assert(tail[j] == fields[j + 1]);
        }
        lemma_record_members_wf(tail);
        lemma_norm_ty_wf(fields[0].1);
        match record_members(fields) {
            Ok(ms) => {
                match record_members(tail) {
                    Ok(tms) => {
                        assert forall|k: int|
                            0 <= k < tms.len() implies field_name_present(
                            fields,
                            (#[trigger] tms[k]).name,
                        ) by {
                            let j = choose|j: int|
                                0 <= j < tail.len() && #[trigger] tail[j].0 == tms[k].name;
                            assert(fields[j + 1].0 == tms[k].name);
                        }
                        if fields[0].0 == postfix_field() {
                        } else {
                            assert(ms[0].name == fields[0].0);
                            assert forall|k: int|
                                1 <= k < ms.len() implies ms[0].name != (#[trigger] ms[k]).name
                                by {
                                assert(ms[k] == tms[k - 1]);
                                let j = choose|j: int|
                                    0 <= j < fields.len() && #[trigger] fields[j].0 == tms[k
                                        - 1].name;
                                if j == 0 {
                                    let j2 = choose|j2: int|
                                        0 <= j2 < tail.len() && #[trigger] tail[j2].0 == tms[k
                                            - 1].name;
                                    assert(fields[j2 + 1].0 == tms[k - 1].name);
                                    assert(fields[0].0 != fields[j2 + 1].0);
                                }
                            }
                        }
                    },
                    Err(_) => {},
                }
            },
            Err(_) => {},
        }
    }
}

/// Normalizing the union branch preserves well-formedness.
pub proof fn lemma_union_members_wf(alts: Seq<(Seq<char>, Option<Shape>)>)
    requires
        crate::type_node::names_unique(alts),
        forall|i: int|
            0 <= i < alts.len() ==> match #[trigger] alts[i].1 {
                Some(p) => crate::type_node::shape_wf(p),
                None => true,
            },
    ensures
        match norm_ty(Shape::Union(alts)) {
            Ok(t) => crate::aggregate::wf_ty(t),
            Err(_) => true,
        },
    decreases alts, 1int,
{
    lemma_union_alts_wf(alts);
    match union_members(alts) {
        Ok(ms) => {
            assert(crate::aggregate::member_names_unique(ms));
            assert forall|i: int|
                0 <= i < ms.len() implies match #[trigger] ms[i].payload {
                Some(p) => crate::aggregate::wf_ty(p),
                None => true,
            } by {}
            let built = AggS { name_override: None, kind: AggregateKind::Union, members: ms };
            assert(crate::aggregate::wf_agg(built));
            assert(crate::aggregate::wf_ty(TyS::Aggregate(built)));
        },
        Err(_) => {},
    }
}

/// Normalized union members keep unique names in raw order, with
/// well-formed payloads where present.
pub proof fn lemma_union_alts_wf(alts: Seq<(Seq<char>, Option<Shape>)>)
    requires
        crate::type_node::names_unique(alts),
        forall|i: int|
            0 <= i < alts.len() ==> match #[trigger] alts[i].1 {
                Some(p) => crate::type_node::shape_wf(p),
                None => true,
            },
    ensures
        match union_members(alts) {
            Ok(ms) => {
                &&& ms.len() == alts.len()
                &&& crate::aggregate::member_names_unique(ms)
                &&& forall|k: int|
                    0 <= k < ms.len() ==> #[trigger] ms[k].name == alts[k].0
                &&& forall|k: int|
                    0 <= k < ms.len() ==> match #[trigger] ms[k].payload {
                        Some(p) => crate::aggregate::wf_ty(p),
                        None => true,
                    }
            },
            Err(_) => true,
        },
    decreases alts, 0int,
{
    if alts.len() > 0 {
        let tail = alts.subrange(1, alts.len() as int);
        assert forall|i: int|
            0 <= i < tail.len() implies match #[trigger] tail[i].1 {
            Some(p) => crate::type_node::shape_wf(p),
            None => true,
        } by {
            assert(tail[i] == alts[i + 1]);
        }
        assert forall|i: int, j: int| 0 <= i < j < tail.len() implies tail[i].0 != tail[j].0 by {
            assert(tail[i] == alts[i + 1]);
            assert(tail[j] == alts[j + 1]);
        }
        lemma_union_alts_wf(tail);
        match alts[0].1 {
            Some(p) => lemma_norm_ty_wf(p),
            None => {},
        }
        match union_members(alts) {
            Ok(ms) => {
                let tms = union_members(tail)->Ok_0;
                assert forall|k: int| 0 <= k < ms.len() implies (#[trigger] ms[k]).name == alts[k].0
                    by {
                    if k > 0 {
                        assert(ms[k] == tms[k - 1]);
                        assert(tail[k - 1] == alts[k]);
                    }
                }
            },
            Err(_) => {},
        }
    }
}

/// A field lookup that fails on every name in a prefix can start past it.
pub proof fn lemma_lookup_field_skip(fields: Seq<(Seq<char>, Shape)>, name: Seq<char>, i: int)
    requires
        0 <= i <= fields.len(),
        forall|j: int| 0 <= j < i ==> fields[j].0 != name,
    ensures
        lookup_field(fields, name) == lookup_field(
            fields.subrange(i, fields.len() as int),
            name,
        ),
    decreases i,
{
    if i > 0 {
        assert(fields[0].0 != name);
        let tail = fields.subrange(1, fields.len() as int);
        assert forall|j: int| 0 <= j < i - 1 implies tail[j].0 != name by {
            assert(tail[j] == fields[j + 1]);
        }
        assert(lookup_field(fields, name) == lookup_field(tail, name));
        lemma_lookup_field_skip(tail, name, i - 1);
        assert(tail.subrange(i - 1, tail.len() as int) =~= fields.subrange(
            i,
            fields.len() as int,
        ));
    } else {
        assert(fields.subrange(0, fields.len() as int) =~= fields);
    }
}

/// The index of the first raw field named `name`.
fn find_field_idx(fields: &Vec<(String, TypeNode)>, name: &str) -> (r: Option<usize>)
    ensures
        match r {
            Some(i) => i < fields@.len() && fields@[i as int].0@ == name@ && lookup_field(
                record_shapes(fields@),
                name@,
            ) == Some(node_shape(fields@[i as int].1)),
            None => lookup_field(record_shapes(fields@), name@) is None,
        },
{
    proof {
        lemma_record_shapes(fields@);
    }
    let n = fields.len();
    let mut i: usize = 0;
    while i < n
        invariant
            n == fields@.len(),
            0 <= i <= n,
            record_shapes(fields@).len() == n,
            forall|j: int|
                0 <= j < n ==> record_shapes(fields@)[j] == (
                    #[trigger] fields@[j].0@,
                    node_shape(fields@[j].1),
                ),
            forall|j: int| 0 <= j < i ==> record_shapes(fields@)[j].0 != name@,
        decreases n - i,
    {
        if str_eq(fields[i].0.as_str(), name) {
            proof {
                lemma_lookup_field_skip(record_shapes(fields@), name@, i as int);
                let rest = record_shapes(fields@).subrange(i as int, n as int);
                assert(rest[0] == record_shapes(fields@)[i as int]);
                assert(rest[0].0 == name@);
            }
            return Some(i);
        }
        proof {
            assert(record_shapes(fields@)[i as int].0 == fields@[i as int].0@);
        }
        i = i + 1;
    }
    proof {
        lemma_lookup_field_skip(record_shapes(fields@), name@, n as int);
        assert(record_shapes(fields@).subrange(n as int, n as int).len() == 0);
    }
    None
}

/// The override name carried by a raw name value.
fn override_name_exec(name_ty: &TypeNode) -> (r: Result<String, MetaError>)
    ensures
        match r {
            Ok(nm) => override_name_of(name_ty@) == Ok::<Seq<char>, MetaError>(nm@),
            Err(e) => override_name_of(name_ty@) == Err::<Seq<char>, MetaError>(e),
        },
{
    match name_ty {
        TypeNode::Union(alts) => {
            proof {
                lemma_union_shapes(alts@);
            }
            if alts.len() != 1 {
                Err(MetaError::IdentNotSingleAlternative)
            } else {
                let nm = &alts[0].0;
                if parse_ident_ok(nm.as_str()) {
                    Ok(nm.clone())
                } else {
                    Err(MetaError::InvalidOverrideIdent)
                }
            }
        },
        _ => Err(MetaError::IdentNotUnion),
    }
}

impl TypeNode {
    /// Normalize this raw node, resolving name-override metadata at every
    /// nesting level.
    pub fn normalize(&self) -> (r: Result<Ty, MetaError>)
        ensures
            match r {
                Ok(t) => norm_ty(self@) == Ok::<TyS, MetaError>(t@),
                Err(e) => norm_ty(self@) == Err::<TyS, MetaError>(e),
            },
        decreases *self, 0nat,
    {
        match self {
            TypeNode::Bool => Ok(Ty::Bool),
            TypeNode::Natural => Ok(Ty::Natural),
            TypeNode::Integer => Ok(Ty::Integer),
            TypeNode::Double => Ok(Ty::Double),
            TypeNode::Text => Ok(Ty::Text),
            TypeNode::Optional(inner) => match inner.normalize() {
                Ok(t) => Ok(Ty::Optional(Box::new(t))),
                Err(e) => Err(e),
            },
            TypeNode::List(inner) => match inner.normalize() {
                Ok(t) => Ok(Ty::List(Box::new(t))),
                Err(e) => Err(e),
            },
            TypeNode::Record(fields) => normalize_record(fields),
            TypeNode::Union(alts) => match union_members_exec(alts, 0) {
                Ok(ms) => {
                    let agg = Agg {
                        name_override: None,
                        kind: AggregateKind::Union,
                        members: ms,
                    };
                    proof {
                        lemma_union_shapes(alts@);
                        assert(union_shapes(alts@).subrange(0, alts@.len() as int)
                            =~= union_shapes(alts@));
                        assert(agg_view(agg) == AggS {
                            name_override: None,
                            kind: AggregateKind::Union,
                            members: members_view(agg.members@),
                        });
                    }
                    Ok(Ty::Aggregate(Box::new(agg)))
                },
                Err(e) => {
                    proof {
                        lemma_union_shapes(alts@);
                        assert(union_shapes(alts@).subrange(0, alts@.len() as int)
                            =~= union_shapes(alts@));
                    }
                    Err(e)
                },
            },
        }
    }
}

/// Normalize a raw record, resolving the prefix form, then the postfix form.
fn normalize_record(fields: &Vec<(String, TypeNode)>) -> (r: Result<Ty, MetaError>)
    ensures
        match r {
            Ok(t) => norm_record(record_shapes(fields@)) == Ok::<TyS, MetaError>(t@),
            Err(e) => norm_record(record_shapes(fields@)) == Err::<TyS, MetaError>(e),
        },
    decreases fields, fields@.len() + 1,
{
    proof {
        lemma_record_shapes(fields@);
    }
    let ghost shapes = record_shapes(fields@);
    let pn_i = find_field_idx(fields, "__rust_type_name");
    let pc_i = find_field_idx(fields, "__rust_type_content");
    match (pn_i, pc_i) {
        (Some(ni), Some(ci)) => {
            let name_ty = &fields[ni].1;
            let content = &fields[ci].1;
            proof {
                assert(lookup_field(shapes, prefix_name_field()) == Some(name_ty@));
                assert(lookup_field(shapes, prefix_content_field()) == Some(content@));
            }
            match content {
                TypeNode::Record(cf) => {
                    proof {
                        assert(decreases_to!(fields => fields@[ci as int].1));
                        assert(fields@[ci as int].1 == *content);
                    }
                    match override_name_exec(name_ty) {
                        Err(e) => Err(e),
                        Ok(nm) => match record_members_exec(cf, 0) {
                            Err(e) => {
                                proof {
                                    lemma_record_shapes(cf@);
                                    assert(record_shapes(cf@).subrange(
                                        0,
                                        cf@.len() as int,
                                    ) =~= record_shapes(cf@));
                                }
                                Err(e)
                            },
                            Ok(ms) => {
                                let agg = Agg {
                                    name_override: Some(nm),
                                    kind: AggregateKind::Record,
                                    members: ms,
                                };
                                proof {
                                    lemma_record_shapes(cf@);
                                    assert(record_shapes(cf@).subrange(
                                        0,
                                        cf@.len() as int,
                                    ) =~= record_shapes(cf@));
                                    assert(agg_view(agg) == AggS {
                                        name_override: match agg.name_override {
                                            Some(n) => Some(n@),
                                            None => None,
                                        },
                                        kind: agg.kind,
                                        members: members_view(agg.members@),
                                    });
                                }
                                Ok(Ty::Aggregate(Box::new(agg)))
                            },
                        },
                    }
                },
                TypeNode::Union(ca) => {
                    proof {
                        assert(decreases_to!(fields => fields@[ci as int].1));
                        assert(fields@[ci as int].1 == *content);
                    }
                    match override_name_exec(name_ty) {
                        Err(e) => Err(e),
                        Ok(nm) => match union_members_exec(ca, 0) {
                            Err(e) => {
                                proof {
                                    lemma_union_shapes(ca@);
                                    assert(union_shapes(ca@).subrange(
                                        0,
                                        ca@.len() as int,
                                    ) =~= union_shapes(ca@));
                                }
                                Err(e)
                            },
                            Ok(ms) => {
                                let agg = Agg {
                                    name_override: Some(nm),
                                    kind: AggregateKind::Union,
                                    members: ms,
                                };
                                proof {
                                    lemma_union_shapes(ca@);
                                    assert(union_shapes(ca@).subrange(
                                        0,
                                        ca@.len() as int,
                                    ) =~= union_shapes(ca@));
                                    assert(agg_view(agg) == AggS {
                                        name_override: match agg.name_override {
                                            Some(n) => Some(n@),
                                            None => None,
                                        },
                                        kind: agg.kind,
                                        members: members_view(agg.members@),
                                    });
                                }
                                Ok(Ty::Aggregate(Box::new(agg)))
                            },
                        },
                    }
                },
                _ => Err(MetaError::NotAggregateType),
            }
        },
        (None, None) => {
            let built = match find_field_idx(fields, "__rust_struct") {
                Some(si) => {
                    let name_ty = &fields[si].1;
                    proof {
                        assert(lookup_field(shapes, postfix_field()) == Some(name_ty@));
                    }
                    match override_name_exec(name_ty) {
                        Err(e) => Err(e),
                        Ok(nm) => match record_members_exec(fields, 0) {
                            Err(e) => Err(e),
                            Ok(ms) => Ok(
                                Agg {
                                    name_override: Some(nm),
                                    kind: AggregateKind::Record,
                                    members: ms,
                                },
                            ),
                        },
                    }
                },
                None => match record_members_exec(fields, 0) {
                    Err(e) => Err(e),
                    Ok(ms) => Ok(
                        Agg { name_override: None, kind: AggregateKind::Record, members: ms },
                    ),
                },
            };
            proof {
                assert(shapes.subrange(0, fields@.len() as int) =~= shapes);
            }
            match built {
                Ok(agg) => {
                    proof {
                        assert(agg_view(agg) == AggS {
                            name_override: match agg.name_override {
                                Some(ref n) => Some(n@),
                                None => None,
                            },
                            kind: agg.kind,
                            members: members_view(agg.members@),
                        });
                    }
                    Ok(Ty::Aggregate(Box::new(agg)))
                },
                Err(e) => Err(e),
            }
        },
        _ => Err(MetaError::InvalidForm),
    }
}

/// Normalize the raw fields of a record from position `i` on, stripping the
/// postfix form's reserved field.
fn record_members_exec(fields: &Vec<(String, TypeNode)>, i: usize) -> (r: Result<
    Vec<Member>,
    MetaError,
>)
    requires
        i <= fields@.len(),
    ensures
        match r {
            Ok(ms) => record_members(
                record_shapes(fields@).subrange(i as int, fields@.len() as int),
            ) == Ok::<Seq<MemberS>, MetaError>(members_view(ms@)),
            Err(e) => record_members(
                record_shapes(fields@).subrange(i as int, fields@.len() as int),
            ) == Err::<Seq<MemberS>, MetaError>(e),
        },
    decreases fields, fields@.len() - i,
{
    proof {
        lemma_record_shapes(fields@);
    }
    let ghost shapes = record_shapes(fields@);
    let ghost suffix = shapes.subrange(i as int, fields@.len() as int);
    let n = fields.len();
    if i == n {
        let ms: Vec<Member> = Vec::new();
        proof {
            lemma_members_view(ms@);
            assert(members_view(ms@) =~= Seq::<MemberS>::empty());
        }
        Ok(ms)
    } else {
        proof {
            assert(suffix[0] == shapes[i as int]);
            assert(shapes[i as int] == (fields@[i as int].0@, node_shape(fields@[i as int].1)));
            assert(suffix.subrange(1, suffix.len() as int) =~= shapes.subrange(
                i + 1,
                n as int,
            ));
        }
        let name = &fields[i].0;
        if str_eq(name.as_str(), "__rust_struct") {
            record_members_exec(fields, i + 1)
        } else {
            proof {
                assert(decreases_to!(fields => fields@[i as int].1));
            }
            let node = &fields[i].1;
            match node.normalize() {
                Err(e) => Err(e),
                Ok(t) => match record_members_exec(fields, i + 1) {
                    Err(e) => Err(e),
                    Ok(mut ms) => {
                        let ghost old_ms = ms@;
                        let ghost t_view = t@;
                        let m = Member { name: name.clone(), payload: Some(t) };
                        proof {
                            assert(m@ == MemberS { name: suffix[0].0, payload: Some(t_view) });
                        }
                        ms.insert(0, m);
                        proof {
                            lemma_members_view(ms@);
                            lemma_members_view(old_ms);
                            let spec_head = MemberS { name: suffix[0].0, payload: Some(t_view) };
                            assert(ms@[0]@ == spec_head);
                            assert forall|k: int|
                                0 <= k < ms@.len() implies members_view(ms@)[k] == (
                            seq![spec_head] + members_view(old_ms))[k] by {
                                assert(members_view(ms@)[k] == ms@[k]@);
                                if k >= 1 {
                                    assert(ms@[k] == old_ms[k - 1]);
                                    assert(members_view(old_ms)[k - 1] == old_ms[k - 1]@);
                                }
                            }
                            assert(members_view(ms@) =~= seq![spec_head] + members_view(old_ms));
                        }
                        Ok(ms)
                    },
                },
            }
        }
    }
}

/// Normalize the raw alternatives of a union from position `i` on.
fn union_members_exec(alts: &Vec<(String, Option<TypeNode>)>, i: usize) -> (r: Result<
    Vec<Member>,
    MetaError,
>)
    requires
        i <= alts@.len(),
    ensures
        match r {
            Ok(ms) => union_members(
                union_shapes(alts@).subrange(i as int, alts@.len() as int),
            ) == Ok::<Seq<MemberS>, MetaError>(members_view(ms@)),
            Err(e) => union_members(
                union_shapes(alts@).subrange(i as int, alts@.len() as int),
            ) == Err::<Seq<MemberS>, MetaError>(e),
        },
    decreases alts, alts@.len() - i,
{
    proof {
        lemma_union_shapes(alts@);
    }
    let ghost shapes = union_shapes(alts@);
    let ghost suffix = shapes.subrange(i as int, alts@.len() as int);
    let n = alts.len();
    if i == n {
        let ms: Vec<Member> = Vec::new();
        proof {
            lemma_members_view(ms@);
            assert(members_view(ms@) =~= Seq::<MemberS>::empty());
        }
        Ok(ms)
    } else {
        proof {
            assert(suffix[0] == shapes[i as int]);
            assert(shapes[i as int] == (
                alts@[i as int].0@,
                match alts@[i as int].1 {
                    Some(pl) => Some(node_shape(pl)),
                    None => None,
                },
            ));
            assert(suffix.subrange(1, suffix.len() as int) =~= shapes.subrange(
                i + 1,
                n as int,
            ));
        }
        let name = &alts[i].0;
        let payload: Result<Option<Ty>, MetaError> = match &alts[i].1 {
            None => Ok(None),
            Some(node) => {
                proof {
                    assert(decreases_to!(alts => alts@[i as int].1));
                }
                match node.normalize() {
                    Ok(t) => Ok(Some(t)),
                    Err(e) => Err(e),
                }
            },
        };
        match payload {
            Err(e) => Err(e),
            Ok(p) => match union_members_exec(alts, i + 1) {
                Err(e) => Err(e),
                Ok(mut ms) => {
                    let ghost old_ms = ms@;
                    let ghost p_view = match p {
                        Some(ref t) => Some(t@),
                        None => None::<TyS>,
                    };
                    let m = Member { name: name.clone(), payload: p };
                    proof {
                        assert(m@ == MemberS { name: suffix[0].0, payload: p_view });
                    }
                    ms.insert(0, m);
                    proof {
                        lemma_members_view(ms@);
                        lemma_members_view(old_ms);
                        let spec_head = MemberS { name: suffix[0].0, payload: p_view };
                        assert(ms@[0]@ == spec_head);
                        assert forall|k: int|
                            0 <= k < ms@.len() implies members_view(ms@)[k] == (
                        seq![spec_head] + members_view(old_ms))[k] by {
                            assert(members_view(ms@)[k] == ms@[k]@);
                            if k >= 1 {
                                assert(ms@[k] == old_ms[k - 1]);
                                assert(members_view(old_ms)[k - 1] == old_ms[k - 1]@);
                            }
                        }
                        assert(members_view(ms@) =~= seq![spec_head] + members_view(old_ms));
                    }
                    Ok(ms)
                },
            },
        }
    }
}

/// Normalizing a union's alternative list: every alternative becomes a
/// member whose payload, if present, is normalized.
pub open spec fn union_members(alts: Seq<(Seq<char>, Option<Shape>)>) -> Result<
    Seq<MemberS>,
    MetaError,
>
    decreases alts, 0int,
{
    if alts.len() == 0 {
        Ok(Seq::empty())
    } else {
        proof {
            assert(decreases_to!(alts => alts[0]));
            assert(decreases_to!(alts => alts.subrange(1, alts.len() as int)));
        }
        let rest = union_members(alts.subrange(1, alts.len() as int));
        match alts[0].1 {
            None => match rest {
                Err(e) => Err(e),
                Ok(ms) => Ok(seq![MemberS { name: alts[0].0, payload: None }] + ms),
            },
            Some(p) => match norm_ty(p) {
                Err(e) => Err(e),
                Ok(t) => match rest {
                    Err(e) => Err(e),
                    Ok(ms) => Ok(seq![MemberS { name: alts[0].0, payload: Some(t) }] + ms),
                },
            },
        }
    }
}

} // verus!
