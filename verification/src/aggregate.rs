//! The normalized aggregate model.
//!
//! After the name-override metadata of a raw `TypeNode` has been extracted
//! (see `meta`), every aggregate is a plain `Agg`: its kind, its optional
//! override name, and its member list with the metadata fields stripped.
//! All matching, naming and registration logic works on this model.

use vstd::prelude::*;

verus! {

broadcast use {vstd::seq::axiom_seq_index_decreases, vstd::std_specs::vec::axiom_vec_index_decreases};

/// The two aggregate kinds.
#[derive(Debug, Clone, Copy, PartialEq, Eq, Structural)]
pub enum AggregateKind {
    Record,
    Union,
}

/// One member of a normalized aggregate: a record field (payload always
/// present) or a union alternative (payload optional).
pub struct Member {
    pub name: String,
    pub payload: Option<Ty>,
}

/// A normalized aggregate: kind, extracted override name, members.
pub struct Agg {
    pub name_override: Option<String>,
    pub kind: AggregateKind,
    pub members: Vec<Member>,
}

/// A normalized type.
pub enum Ty {
    Bool,
    Natural,
    Integer,
    Double,
    Text,
    Optional(Box<Ty>),
    List(Box<Ty>),
    Aggregate(Box<Agg>),
}

/// Mathematical mirror of `Member`.
pub struct MemberS {
    pub name: Seq<char>,
    pub payload: Option<TyS>,
}

/// Mathematical mirror of `Agg`.
pub struct AggS {
    pub name_override: Option<Seq<char>>,
    pub kind: AggregateKind,
    pub members: Seq<MemberS>,
}

/// Mathematical mirror of `Ty`.
pub enum TyS {
    Bool,
    Natural,
    Integer,
    Double,
    Text,
    Optional(Box<TyS>),
    List(Box<TyS>),
    Aggregate(AggS),
}

/// The mathematical value of a normalized type.
pub open spec fn ty_view(t: Ty) -> TyS
    decreases t,
{
    match t {
        Ty::Bool => TyS::Bool,
        Ty::Natural => TyS::Natural,
        Ty::Integer => TyS::Integer,
        Ty::Double => TyS::Double,
        Ty::Text => TyS::Text,
        Ty::Optional(inner) => TyS::Optional(Box::new(ty_view(*inner))),
        Ty::List(inner) => TyS::List(Box::new(ty_view(*inner))),
        Ty::Aggregate(a) => TyS::Aggregate(agg_view(*a)),
    }
}

/// The mathematical value of a normalized aggregate.
pub open spec fn agg_view(a: Agg) -> AggS
    decreases a,
{
    AggS {
        name_override: match a.name_override {
            Some(n) => Some(n@),
            None => None,
        },
        kind: a.kind,
        members: {
            proof {
                assert(decreases_to!(a => a.members));
                assert(decreases_to!(a.members => a.members@));
            }
            members_view(a.members@)
        },
    }
}

/// The mathematical value of a normalized member list.
pub open spec fn members_view(ms: Seq<Member>) -> Seq<MemberS>
    decreases ms,
{
    if ms.len() == 0 {
        Seq::empty()
    } else {
        proof {
            assert(decreases_to!(ms => ms[0]));
            assert(decreases_to!(ms => ms.subrange(1, ms.len() as int)));
        }
        seq![
            MemberS {
                name: ms[0].name@,
                payload: match ms[0].payload {
                    Some(t) => Some(ty_view(t)),
                    None => None,
                },
            },
        ] + members_view(ms.subrange(1, ms.len() as int))
    }
}

impl View for Ty {
    type V = TyS;

    open spec fn view(&self) -> TyS {
        ty_view(*self)
    }
}

impl View for Agg {
    type V = AggS;

    open spec fn view(&self) -> AggS {
        agg_view(*self)
    }
}

impl View for Member {
    type V = MemberS;

    open spec fn view(&self) -> MemberS {
        MemberS {
            name: self.name@,
            payload: match self.payload {
                Some(t) => Some(ty_view(t)),
                None => None,
            },
        }
    }
}

/// A member list's view has one entry per member, in order.
pub proof fn lemma_members_view(ms: Seq<Member>)
    ensures
        members_view(ms).len() == ms.len(),
        forall|i: int| 0 <= i < ms.len() ==> members_view(ms)[i] == #[trigger] ms[i]@,
    decreases ms,
{
    if ms.len() > 0 {
        lemma_members_view(ms.subrange(1, ms.len() as int));
        assert forall|i: int| 0 <= i < ms.len() implies members_view(ms)[i] == #[trigger] ms[i]@ by {
            if i > 0 {
                assert(ms.subrange(1, ms.len() as int)[i - 1] == ms[i]);
            }
        }
    }
}

/// Member names never repeat.
pub open spec fn member_names_unique(ms: Seq<MemberS>) -> bool {
    forall|i: int, j: int| 0 <= i < j < ms.len() ==> ms[i].name != ms[j].name
}

/// Well-formedness of a normalized aggregate: member names are unique, every
/// record field carries a payload, and every payload is well-formed.
pub open spec fn wf_agg(a: AggS) -> bool
    decreases a,
{
    &&& member_names_unique(a.members)
    &&& forall|i: int|
        0 <= i < a.members.len() ==> match #[trigger] a.members[i].payload {
            Some(p) => wf_ty(p),
            None => a.kind == AggregateKind::Union,
        }
}

/// Well-formedness of a normalized type.
pub open spec fn wf_ty(t: TyS) -> bool
    decreases t,
{
    match t {
        TyS::Bool | TyS::Natural | TyS::Integer | TyS::Double | TyS::Text => true,
        TyS::Optional(inner) => wf_ty(*inner),
        TyS::List(inner) => wf_ty(*inner),
        TyS::Aggregate(a) => wf_agg(a),
    }
}

/// The reserved variant name that marks the generic substitution point.
pub open spec fn sentinel_name() -> Seq<char> {
    "__sentinel"@
}

/// Whether an aggregate is the generic sentinel: an anonymous union with the
/// single payload-less alternative named `__sentinel`.
pub open spec fn is_sentinel_agg(a: AggS) -> bool {
    &&& a.name_override is None
    &&& a.kind == AggregateKind::Union
    &&& a.members.len() == 1
    &&& a.members[0].name == sentinel_name()
    &&& a.members[0].payload is None
}

/// Whether a type is the generic sentinel.
pub open spec fn is_sentinel_ty(t: TyS) -> bool {
    match t {
        TyS::Aggregate(a) => is_sentinel_agg(a),
        _ => false,
    }
}

/// The canonical sentinel value.
pub open spec fn sentinel_ty_s() -> TyS {
    TyS::Aggregate(
        AggS {
            name_override: None,
            kind: AggregateKind::Union,
            members: seq![MemberS { name: sentinel_name(), payload: None }],
        },
    )
}

/// Any sentinel type is the canonical sentinel value.
pub proof fn lemma_sentinel_canonical(t: TyS)
    requires
        is_sentinel_ty(t),
    ensures
        t == sentinel_ty_s(),
{
    match t {
        TyS::Aggregate(a) => {
            assert(a.members =~= seq![MemberS { name: sentinel_name(), payload: None }]);
        },
        _ => {},
    }
}

/// Whether the generic sentinel occurs anywhere in a type: the type is the
/// sentinel itself, or the sentinel occurs in a wrapper's inner type or in a
/// member of a nested aggregate.
pub open spec fn contains_sentinel_ty(t: TyS) -> bool
    decreases t,
{
    match t {
        TyS::Bool | TyS::Natural | TyS::Integer | TyS::Double | TyS::Text => false,
        TyS::Optional(inner) => contains_sentinel_ty(*inner),
        TyS::List(inner) => contains_sentinel_ty(*inner),
        TyS::Aggregate(a) => contains_sentinel_agg(a),
    }
}

/// Whether an aggregate is open-generic: it is the sentinel, or some member
/// payload contains the sentinel.
pub open spec fn contains_sentinel_agg(a: AggS) -> bool
    decreases a,
{
    is_sentinel_agg(a) || exists|i: int|
        0 <= i < a.members.len() && match #[trigger] a.members[i].payload {
            Some(p) => contains_sentinel_ty(p),
            None => false,
        }
}

/// Structural equality of normalized types.
pub fn ty_eq(a: &Ty, b: &Ty) -> (r: bool)
    ensures
        r == (a@ == b@),
    decreases *a,
{
    match (a, b) {
        (Ty::Bool, Ty::Bool) => true,
        (Ty::Natural, Ty::Natural) => true,
        (Ty::Integer, Ty::Integer) => true,
        (Ty::Double, Ty::Double) => true,
        (Ty::Text, Ty::Text) => true,
        (Ty::Optional(x), Ty::Optional(y)) => ty_eq(x, y),
        (Ty::List(x), Ty::List(y)) => ty_eq(x, y),
        (Ty::Aggregate(x), Ty::Aggregate(y)) => agg_eq(x, y),
        _ => false,
    }
}

/// Structural equality of normalized aggregates.
pub fn agg_eq(a: &Agg, b: &Agg) -> (r: bool)
    ensures
        r == (a@ == b@),
    decreases *a,
{
    proof {
        lemma_members_view(a.members@);
        lemma_members_view(b.members@);
    }
    let overrides_eq = match (&a.name_override, &b.name_override) {
        (Some(x), Some(y)) => crate::util::string_eq(x, y),
        (None, None) => true,
        _ => false,
    };
    if !overrides_eq {
        return false;
    }
    if !kind_eq(a.kind, b.kind) {
        return false;
    }
    if a.members.len() != b.members.len() {
        return false;
    }
    let n = a.members.len();
    let mut i: usize = 0;
    while i < n
        invariant
            n == a.members@.len(),
            n == b.members@.len(),
            0 <= i <= n,
            forall|j: int| 0 <= j < i ==> a.members@[j]@ == b.members@[j]@,
            agg_view(*a).members == members_view(a.members@),
            agg_view(*b).members == members_view(b.members@),
            members_view(a.members@).len() == n,
            members_view(b.members@).len() == n,
            forall|j: int| 0 <= j < n ==> members_view(a.members@)[j] == #[trigger] a.members@[j]@,
            forall|j: int| 0 <= j < n ==> members_view(b.members@)[j] == #[trigger] b.members@[j]@,
        decreases n - i,
    {
        let ma = &a.members[i];
        let mb = &b.members[i];
        if !crate::util::string_eq(&ma.name, &mb.name) {
            proof {
                assert(a.members@[i as int]@.name == ma.name@);
                assert(b.members@[i as int]@.name == mb.name@);
                assert(members_view(a.members@)[i as int] == a.members@[i as int]@);
                assert(members_view(b.members@)[i as int] == b.members@[i as int]@);
                assert(members_view(a.members@)[i as int] != members_view(b.members@)[i as int]);
                assert(agg_view(*a).members != agg_view(*b).members);
            }
            return false;
        }
        let payloads_eq = match (&ma.payload, &mb.payload) {
            (Some(x), Some(y)) => {
                proof {
                    assert(decreases_to!(a.members@ => a.members@[i as int]));
                }
                ty_eq(x, y)
            },
            (None, None) => true,
            _ => false,
        };
        if !payloads_eq {
            proof {
                assert(a.members@[i as int]@.payload != b.members@[i as int]@.payload);
                assert(members_view(a.members@)[i as int] == a.members@[i as int]@);
                assert(members_view(b.members@)[i as int] == b.members@[i as int]@);
                assert(members_view(a.members@)[i as int] != members_view(b.members@)[i as int]);
                assert(agg_view(*a).members != agg_view(*b).members);
            }
            return false;
        }
        i = i + 1;
    }
    proof {
        assert forall|j: int| 0 <= j < n implies members_view(a.members@)[j] == members_view(
            b.members@,
        )[j] by {
            assert(a.members@[j]@ == b.members@[j]@);
        }
        assert(members_view(a.members@) =~= members_view(b.members@));
        assert(agg_view(*a) == agg_view(*b));
    }
    true
}

impl Ty {
    /// An owned copy with the same structure.
    pub fn duplicate(&self) -> (r: Ty)
        ensures
            r@ == self@,
        decreases *self,
    {
        match self {
            Ty::Bool => Ty::Bool,
            Ty::Natural => Ty::Natural,
            Ty::Integer => Ty::Integer,
            Ty::Double => Ty::Double,
            Ty::Text => Ty::Text,
            Ty::Optional(inner) => Ty::Optional(Box::new(inner.duplicate())),
            Ty::List(inner) => Ty::List(Box::new(inner.duplicate())),
            Ty::Aggregate(a) => Ty::Aggregate(Box::new(a.duplicate())),
        }
    }
}

impl Agg {
    /// An owned copy with the same structure.
    pub fn duplicate(&self) -> (r: Agg)
        ensures
            r@ == self@,
        decreases *self,
    {
        proof {
            lemma_members_view(self.members@);
        }
        let n = self.members.len();
        let mut ms: Vec<Member> = Vec::new();
        let mut i: usize = 0;
        while i < n
            invariant
                n == self.members@.len(),
                0 <= i <= n,
                ms@.len() == i,
                forall|j: int| 0 <= j < i ==> ms@[j]@ == #[trigger] self.members@[j]@,
            decreases n - i,
        {
            let m = &self.members[i];
            let payload: Option<Ty> = match &m.payload {
                Some(t) => {
                    proof {
                        assert(decreases_to!(self.members@ => self.members@[i as int]));
                    }
                    Some(t.duplicate())
                },
                None => None,
            };
            let copy = Member { name: m.name.clone(), payload };
            proof {
                assert(copy@ == self.members@[i as int]@);
            }
            ms.push(copy);
            i = i + 1;
        }
        let r = Agg {
            name_override: match &self.name_override {
                Some(s) => Some(s.clone()),
                None => None,
            },
            kind: self.kind,
            members: ms,
        };
        proof {
            lemma_members_view(r.members@);
            assert forall|j: int|
                0 <= j < n implies members_view(r.members@)[j] == members_view(self.members@)[j]
                by {
                assert(r.members@[j]@ == self.members@[j]@);
            }
            assert(members_view(r.members@) =~= members_view(self.members@));
            assert(agg_view(r) == agg_view(*self));
        }
        r
    }
}

/// Equality of aggregate kinds.
fn kind_eq(a: AggregateKind, b: AggregateKind) -> (r: bool)
    ensures
        r == (a == b),
{
    match (a, b) {
        (AggregateKind::Record, AggregateKind::Record) => true,
        (AggregateKind::Union, AggregateKind::Union) => true,
        _ => false,
    }
}

impl Ty {
    /// Whether this type contains the generic sentinel anywhere.
    pub fn is_open_generic(&self) -> (r: bool)
        ensures
            r == contains_sentinel_ty(self@),
        decreases *self,
    {
        match self {
            Ty::Bool | Ty::Natural | Ty::Integer | Ty::Double | Ty::Text => false,
            Ty::Optional(inner) => inner.is_open_generic(),
            Ty::List(inner) => inner.is_open_generic(),
            Ty::Aggregate(a) => a.is_open_generic(),
        }
    }
}

impl Agg {
    /// Whether this aggregate is open-generic: it is the sentinel, or the
    /// sentinel occurs in one of its member payloads.
    pub fn is_open_generic(&self) -> (r: bool)
        ensures
            r == contains_sentinel_agg(self@),
        decreases *self,
    {
        proof {
            lemma_members_view(self.members@);
        }
        if self.is_generic_sentinel() {
            return true;
        }
        let n = self.members.len();
        let mut i: usize = 0;
        while i < n
            invariant
                n == self.members@.len(),
                0 <= i <= n,
                !is_sentinel_agg(self@),
                self@.members.len() == n,
                forall|j: int| 0 <= j < n ==> self@.members[j] == #[trigger] self.members@[j]@,
                forall|j: int|
                    0 <= j < i ==> match #[trigger] self@.members[j].payload {
                        Some(p) => !contains_sentinel_ty(p),
                        None => true,
                    },
            decreases n - i,
        {
            if let Some(p) = &self.members[i].payload {
                proof {
                    assert(decreases_to!(self.members@ => self.members@[i as int]));
                }
                if p.is_open_generic() {
                    proof {
                        assert(self@.members[i as int] == self.members@[i as int]@);
                        assert(self.members@[i as int]@.payload == Some(p@));
                    }
                    return true;
                }
            }
            proof {
                assert(self@.members[i as int] == self.members@[i as int]@);
            }
            i = i + 1;
        }
        false
    }

    /// Whether this aggregate is the generic sentinel.
    pub fn is_generic_sentinel(&self) -> (r: bool)
        ensures
            r == is_sentinel_agg(self@),
    {
        proof {
            lemma_members_view(self.members@);
        }
        if self.name_override.is_some() {
            return false;
        }
        if !matches!(self.kind, AggregateKind::Union) {
            return false;
        }
        if self.members.len() != 1 {
            return false;
        }
        let m = &self.members[0];
        m.payload.is_none() && crate::util::str_eq(m.name.as_str(), "__sentinel")
    }

    /// Whether this aggregate is the unit type: a record with no members.
    pub fn is_unit(&self) -> (r: bool)
        ensures
            r == (self@.kind == AggregateKind::Record && self@.members.len() == 0),
    {
        proof {
            lemma_members_view(self.members@);
        }
        matches!(self.kind, AggregateKind::Record) && self.members.len() == 0
    }
}

} // verus!
