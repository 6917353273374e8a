//! The type registry.
//!
//! The registry maps identifiers to registered aggregates. A root entry is a
//! named type together with the ordered list of anonymous aggregates it owns;
//! anonymous entries are identified by their owner and their discovery index
//! and never escape their owner's scope. Entries are only ever appended, and
//! an entry's shape never changes after registration; every entry is reached
//! through a stable integer handle, so handles issued early stay valid while
//! the registry grows.
//!
//! Every mutating operation is specified as a transition function on the
//! mathematical state, a sequence of root entries, and the executable
//! methods are proved to implement those transitions exactly.

use vstd::prelude::*;

use crate::aggregate::Agg;
use crate::aggregate::Ty;
use crate::aggregate::TyS;
use crate::aggregate::AggS;
use crate::aggregate::agg_view;
use crate::aggregate::wf_agg;
use crate::matcher::MatchOutcome;
use crate::matcher::m_agg;

verus! {

broadcast use {vstd::seq::axiom_seq_index_decreases, vstd::std_specs::vec::axiom_vec_index_decreases};

/// Where a resolved identifier comes from: a locally generated type, or the
/// support library that supplies the double-precision wrapper type.
#[derive(Debug, Clone, Copy, PartialEq, Eq, Structural)]
pub enum IdentOrigin {
    Local,
    FromSerdeDhallTypegen,
}

/// A named root type and the anonymous aggregates it owns.
pub struct RootEntry {
    pub name: String,
    pub ty: Agg,
    pub anons: Vec<Agg>,
}

/// Mathematical mirror of `RootEntry`.
pub struct RootS {
    pub name: Seq<char>,
    pub ty: AggS,
    pub anons: Seq<AggS>,
}

/// The identifier of a registered type: a root index, and for an anonymous
/// entry the index within its owner.
#[derive(Debug, Clone, Copy, PartialEq, Eq, Structural)]
pub struct TypeId {
    pub root: usize,
    pub anon: Option<usize>,
}

/// Mathematical identifier: root index and optional anonymous index.
pub type IdS = (int, Option<int>);

/// The mathematical value of a `TypeId`.
pub open spec fn id_view(id: TypeId) -> IdS {
    (
        id.root as int,
        match id.anon {
            Some(j) => Some(j as int),
            None => None,
        },
    )
}

/// A registration failure.
#[derive(Debug)]
pub enum RegistryError {
    /// The name is already registered with an incompatible shape.
    NameCollision(String),
    /// More than one registered entry structurally matches one candidate: an
    /// internal consistency violation.
    AmbiguousStructuralMatch,
    /// An anonymous registration was requested under an unknown owner.
    ContextNotFound,
}

/// Mathematical mirror of `RegistryError`.
pub enum ErrS {
    NameCollision(Seq<char>),
    AmbiguousStructuralMatch,
    ContextNotFound,
}

impl View for RegistryError {
    type V = ErrS;

    open spec fn view(&self) -> ErrS {
        match self {
            RegistryError::NameCollision(name) => ErrS::NameCollision(name@),
            RegistryError::AmbiguousStructuralMatch => ErrS::AmbiguousStructuralMatch,
            RegistryError::ContextNotFound => ErrS::ContextNotFound,
        }
    }
}

/// The mathematical value of an anonymous-entry list.
pub open spec fn aggs_view(aggs: Seq<Agg>) -> Seq<AggS>
    decreases aggs,
{
    if aggs.len() == 0 {
        Seq::empty()
    } else {
        proof {
            assert(decreases_to!(aggs => aggs[0]));
            assert(decreases_to!(aggs => aggs.subrange(1, aggs.len() as int)));
        }
        seq![agg_view(aggs[0])] + aggs_view(aggs.subrange(1, aggs.len() as int))
    }
}

/// An anonymous-entry list's view has one entry per aggregate, in order.
pub proof fn lemma_aggs_view(aggs: Seq<Agg>)
    ensures
        aggs_view(aggs).len() == aggs.len(),
        forall|i: int| 0 <= i < aggs.len() ==> aggs_view(aggs)[i] == agg_view(#[trigger] aggs[i]),
    decreases aggs,
{
    if aggs.len() > 0 {
        lemma_aggs_view(aggs.subrange(1, aggs.len() as int));
        assert forall|i: int|
            0 <= i < aggs.len() implies aggs_view(aggs)[i] == agg_view(#[trigger] aggs[i]) by {
            if i > 0 {
                assert(aggs.subrange(1, aggs.len() as int)[i - 1] == aggs[i]);
            }
        }
    }
}

impl View for RootEntry {
    type V = RootS;

    open spec fn view(&self) -> RootS {
        RootS { name: self.name@, ty: agg_view(self.ty), anons: aggs_view(self.anons@) }
    }
}

/// The mathematical value of the root list.
pub open spec fn roots_view(roots: Seq<RootEntry>) -> Seq<RootS>
    decreases roots,
{
    if roots.len() == 0 {
        Seq::empty()
    } else {
        proof {
            assert(decreases_to!(roots => roots[0]));
            assert(decreases_to!(roots => roots.subrange(1, roots.len() as int)));
        }
        seq![roots[0]@] + roots_view(roots.subrange(1, roots.len() as int))
    }
}

/// The root list's view has one entry per root, in order.
pub proof fn lemma_roots_view(roots: Seq<RootEntry>)
    ensures
        roots_view(roots).len() == roots.len(),
        forall|i: int| 0 <= i < roots.len() ==> roots_view(roots)[i] == #[trigger] roots[i]@,
    decreases roots,
{
    if roots.len() > 0 {
        lemma_roots_view(roots.subrange(1, roots.len() as int));
        assert forall|i: int|
            0 <= i < roots.len() implies roots_view(roots)[i] == #[trigger] roots[i]@ by {
            if i > 0 {
                assert(roots.subrange(1, roots.len() as int)[i - 1] == roots[i]);
            }
        }
    }
}

/// The registry.
pub struct TypeCollection {
    pub roots: Vec<RootEntry>,
}

impl View for TypeCollection {
    type V = Seq<RootS>;

    open spec fn view(&self) -> Seq<RootS> {
        roots_view(self.roots@)
    }
}

/// Well-formedness of a registry state: root names are unique and every
/// registered shape, named or anonymous, is well-formed.
pub open spec fn wf_state(s: Seq<RootS>) -> bool {
    &&& forall|i: int, j: int| 0 <= i < j < s.len() ==> s[i].name != s[j].name
    &&& forall|i: int| 0 <= i < s.len() ==> wf_agg(#[trigger] s[i].ty)
    &&& forall|i: int, j: int|
        0 <= i < s.len() && 0 <= j < s[i].anons.len() ==> wf_agg(#[trigger] s[i].anons[j])
}

/// The first root named `name`, searching from position `i`.
pub open spec fn find_root_from(s: Seq<RootS>, name: Seq<char>, i: int) -> Option<int>
    decreases s.len() - i,
{
    if i < 0 || i >= s.len() {
        None
    } else if s[i].name == name {
        Some(i)
    } else {
        find_root_from(s, name, i + 1)
    }
}

/// The first root named `name`.
pub open spec fn find_root(s: Seq<RootS>, name: Seq<char>) -> Option<int> {
    find_root_from(s, name, 0)
}

/// The transition of registering `at` under an explicit name: an existing
/// root with that name is reused if the candidate matches its shape and
/// rejected otherwise; a fresh name registers a new root.
pub open spec fn ident_op(s: Seq<RootS>, name: Seq<char>, at: AggS) -> (Seq<RootS>, Result<
    int,
    ErrS,
>) {
    match find_root(s, name) {
        Some(i) => if m_agg(at, s[i].ty) is Matched {
            (s, Ok(i))
        } else {
            (s, Err(ErrS::NameCollision(name)))
        },
        None => (
            s.push(RootS { name, ty: at, anons: Seq::empty() }),
            Ok(s.len() as int),
        ),
    }
}

/// Any root index found is in bounds and carries the name; a failed search
/// means no root from the start position on carries it.
pub proof fn lemma_find_root_from_props(s: Seq<RootS>, name: Seq<char>, i: int)
    requires
        0 <= i,
    ensures
        match find_root_from(s, name, i) {
            Some(k) => i <= k < s.len() && s[k].name == name,
            None => forall|j: int| i <= j < s.len() ==> s[j].name != name,
        },
    decreases s.len() - i,
{
    if 0 <= i < s.len() && s[i].name != name {
        lemma_find_root_from_props(s, name, i + 1);
    }
}

/// The shape that a registered identifier denotes.
pub open spec fn entry_of(s: Seq<RootS>, id: IdS) -> AggS {
    match id.1 {
        None => s[id.0].ty,
        Some(j) => s[id.0].anons[j],
    }
}

/// The identifiers of the first `upto` anonymous entries of `ctx` whose
/// shapes the candidate matches, in order.
pub open spec fn anon_matches(s: Seq<RootS>, ctx: int, at: AggS, upto: int) -> Seq<IdS>
    decreases upto,
{
    if upto <= 0 {
        Seq::empty()
    } else {
        anon_matches(s, ctx, at, upto - 1) + (if m_agg(at, s[ctx].anons[upto - 1]) is Matched {
            seq![(ctx, Some(upto - 1))]
        } else {
            Seq::empty()
        })
    }
}

/// The identifiers of the first `upto` roots whose shapes the candidate
/// matches, in order.
pub open spec fn root_matches(s: Seq<RootS>, at: AggS, upto: int) -> Seq<IdS>
    decreases upto,
{
    if upto <= 0 {
        Seq::empty()
    } else {
        root_matches(s, at, upto - 1) + (if m_agg(at, s[upto - 1].ty) is Matched {
            seq![(upto - 1, None::<int>)]
        } else {
            Seq::empty()
        })
    }
}

/// All identifiers whose entries the candidate matches, in search order:
/// the owner's anonymous entries first, then every root.
pub open spec fn match_ids(s: Seq<RootS>, ctx: int, at: AggS) -> Seq<IdS> {
    anon_matches(s, ctx, at, s[ctx].anons.len() as int) + root_matches(s, at, s.len() as int)
}

/// The generic argument bound by a match outcome.
pub open spec fn arg_of(o: MatchOutcome) -> Option<TyS> {
    match o {
        MatchOutcome::Matched(a) => a,
        MatchOutcome::Mismatch => None,
    }
}

/// The state with `at` appended to the anonymous entries of `ctx`.
pub open spec fn push_anon(s: Seq<RootS>, ctx: int, at: AggS) -> Seq<RootS> {
    s.update(
        ctx,
        RootS { name: s[ctx].name, ty: s[ctx].ty, anons: s[ctx].anons.push(at) },
    )
}

/// The transition of registering `at` by structure under the owner `ctx`.
/// An explicit override name escapes anonymity and registers at root level.
/// Otherwise a single structural match is reused, no match appends a fresh
/// anonymous entry under the owner, and several matches are a fatal internal
/// inconsistency.
pub open spec fn struct_op(s: Seq<RootS>, ctx: int, at: AggS) -> (Seq<RootS>, Result<
    (IdS, Option<TyS>),
    ErrS,
>) {
    if at.name_override is Some {
        let (s2, r) = ident_op(s, at.name_override->0, at);
        match r {
            Ok(i) => (s2, Ok(((i, None), arg_of(m_agg(at, s2[i].ty))))),
            Err(e) => (s2, Err(e)),
        }
    } else if !(0 <= ctx < s.len()) {
        (s, Err(ErrS::ContextNotFound))
    } else {
        let ids = match_ids(s, ctx, at);
        if ids.len() == 0 {
            (
                push_anon(s, ctx, at),
                Ok(((ctx, Some(s[ctx].anons.len() as int)), None)),
            )
        } else if ids.len() == 1 {
            (s, Ok((ids[0], arg_of(m_agg(at, entry_of(s, ids[0]))))))
        } else {
            (s, Err(ErrS::AmbiguousStructuralMatch))
        }
    }
}

/// One link of a resolved identifier chain: a base identifier, and for an
/// anonymous type the index under its owner. An anonymous link renders as
/// the owner's name followed by `Anon` and the index.
pub struct IndexedIdent {
    pub base: String,
    pub index: Option<usize>,
}

/// Mathematical mirror of `IndexedIdent`.
pub struct LinkS {
    pub base: Seq<char>,
    pub index: Option<int>,
}

impl View for IndexedIdent {
    type V = LinkS;

    open spec fn view(&self) -> LinkS {
        LinkS {
            base: self.base@,
            index: match self.index {
                Some(j) => Some(j as int),
                None => None,
            },
        }
    }
}

impl IndexedIdent {
    /// A link naming a root or primitive type.
    pub fn new_named(base: String) -> (r: IndexedIdent)
        ensures
            r@ == (LinkS { base: base@, index: None }),
    {
        IndexedIdent { base, index: None }
    }

    /// A link naming an anonymous type by owner and index.
    pub fn new_anonymous(base: String, index: usize) -> (r: IndexedIdent)
        ensures
            r@ == (LinkS { base: base@, index: Some(index as int) }),
    {
        IndexedIdent { base, index: Some(index) }
    }

    /// The owner's or primitive's base identifier.
    pub fn base_ident(&self) -> (r: &String)
        ensures
            r@ == self@.base,
    {
        &self.base
    }

    /// Whether this link names an anonymous type.
    pub fn is_anonymous(&self) -> (r: bool)
        ensures
            r == (self@.index is Some),
    {
        self.index.is_some()
    }

    /// The rendered identifier: the base name itself, or for an anonymous
    /// type the owner's name followed by `Anon` and the decimal index.
    pub fn ident(&self) -> (r: String)
        ensures
            r@ == match self@.index {
                None => self@.base,
                Some(j) => self@.base + "Anon"@ + crate::util::dec_str(j as nat),
            },
    {
        match self.index {
            None => self.base.clone(),
            Some(j) => {
                let digits = crate::util::usize_string(j);
                self.base.clone().concat("Anon").concat(digits.as_str())
            },
        }
    }
}

/// The mathematical value of an identifier chain.
pub open spec fn links_view(links: Seq<IndexedIdent>) -> Seq<LinkS>
    decreases links,
{
    if links.len() == 0 {
        Seq::empty()
    } else {
        proof {
            assert(decreases_to!(links => links[0]));
            assert(decreases_to!(links => links.subrange(1, links.len() as int)));
        }
        seq![links[0]@] + links_view(links.subrange(1, links.len() as int))
    }
}

/// An identifier chain's view has one entry per link, in order.
pub proof fn lemma_links_view(links: Seq<IndexedIdent>)
    ensures
        links_view(links).len() == links.len(),
        forall|i: int| 0 <= i < links.len() ==> links_view(links)[i] == #[trigger] links[i]@,
    decreases links,
{
    if links.len() > 0 {
        lemma_links_view(links.subrange(1, links.len() as int));
        assert forall|i: int|
            0 <= i < links.len() implies links_view(links)[i] == #[trigger] links[i]@ by {
            if i > 0 {
                assert(links.subrange(1, links.len() as int)[i - 1] == links[i]);
            }
        }
    }
}

/// The chain link denoting a registered identifier: the root's name, with
/// the anonymous index carried over.
pub open spec fn id_link(s: Seq<RootS>, id: IdS) -> LinkS {
    LinkS { base: s[id.0].name, index: id.1 }
}

/// Every identifier collected by the structural search is in bounds.
pub proof fn lemma_anon_matches_bounds(s: Seq<RootS>, ctx: int, at: AggS, upto: int)
    requires
        0 <= ctx < s.len(),
        upto <= s[ctx].anons.len(),
    ensures
        forall|k: int|
            0 <= k < anon_matches(s, ctx, at, upto).len() ==> {
                let id = #[trigger] anon_matches(s, ctx, at, upto)[k];
                id.0 == ctx && id.1 is Some && 0 <= id.1->0 < s[ctx].anons.len()
                    && m_agg(at, entry_of(s, id)) is Matched
            },
    decreases upto,
{
    if upto > 0 {
        lemma_anon_matches_bounds(s, ctx, at, upto - 1);
    }
}

/// Every root identifier collected by the structural search is in bounds.
pub proof fn lemma_root_matches_bounds(s: Seq<RootS>, at: AggS, upto: int)
    requires
        upto <= s.len(),
    ensures
        forall|k: int|
            0 <= k < root_matches(s, at, upto).len() ==> {
                let id = #[trigger] root_matches(s, at, upto)[k];
                0 <= id.0 < s.len() && id.1 is None && m_agg(at, entry_of(s, id)) is Matched
            },
    decreases upto,
{
    if upto > 0 {
        lemma_root_matches_bounds(s, at, upto - 1);
    }
}

/// A successful structural registration yields an in-bounds identifier, and
/// any bound generic argument is strictly smaller than the candidate.
pub proof fn lemma_struct_op_ok(s: Seq<RootS>, ctx: int, at: AggS)
    ensures
        ({
            let (s2, r) = struct_op(s, ctx, at);
            match r {
                Ok((id, arg)) => {
                    &&& 0 <= id.0 < s2.len()
                    &&& match id.1 {
                        Some(j) => 0 <= j < s2[id.0].anons.len(),
                        None => true,
                    }
                    &&& match arg {
                        Some(a) => crate::matcher::size_ty(a) < 1 + crate::matcher::size_members(
                            at.members,
                        ),
                        None => true,
                    }
                },
                Err(_) => true,
            }
        }),
{
    let (s2, r) = struct_op(s, ctx, at);
    if at.name_override is Some {
        let name = at.name_override->0;
        match find_root(s, name) {
            Some(i) => {
                lemma_find_root_from_props(s, name, 0);
                if r is Ok && r->Ok_0.1 is Some {
                    let a = r->Ok_0.1->0;
                    assert(m_agg(at, s2[i].ty) == MatchOutcome::Matched(Some(a)));
                    crate::matcher::lemma_m_agg_arg_size(at, s2[i].ty, a);
                }
            },
            None => {
                if r is Ok && r->Ok_0.1 is Some {
                    let a = r->Ok_0.1->0;
                    let i = s.len() as int;
                    assert(m_agg(at, s2[i].ty) == MatchOutcome::Matched(Some(a)));
                    crate::matcher::lemma_m_agg_arg_size(at, s2[i].ty, a);
                }
            },
        }
    } else if 0 <= ctx < s.len() {
        let ids = match_ids(s, ctx, at);
        lemma_anon_matches_bounds(s, ctx, at, s[ctx].anons.len() as int);
        lemma_root_matches_bounds(s, at, s.len() as int);
        if ids.len() == 1 {
            let id = ids[0];
            if id.1 is Some {
                assert(anon_matches(s, ctx, at, s[ctx].anons.len() as int)[0] == id);
            } else {
                if anon_matches(s, ctx, at, s[ctx].anons.len() as int).len() > 0 {
                    assert(anon_matches(s, ctx, at, s[ctx].anons.len() as int)[0] == id);
                    assert(false);
                } else {
                    assert(root_matches(s, at, s.len() as int)[0] == id);
                }
            }
            if r is Ok && r->Ok_0.1 is Some {
                let a = r->Ok_0.1->0;
                assert(m_agg(at, entry_of(s, id)) == MatchOutcome::Matched(Some(a)));
                crate::matcher::lemma_m_agg_arg_size(at, entry_of(s, id), a);
            }
        }
    }
}

/// The transition of resolving a member type into its identifier chain.
/// Wrappers prepend their identifiers, primitives end the chain, and an
/// aggregate is registered by structure; if the registered template bound a
/// generic argument, the argument's own chain follows, so nested
/// instantiations resolve into one flat chain. The flag records whether the
/// double-precision wrapper type from the support library was used.
pub open spec fn resolve_op(s: Seq<RootS>, ctx: int, t: TyS) -> (Seq<RootS>, Result<
    (bool, Seq<LinkS>),
    ErrS,
>)
    decreases crate::matcher::size_ty(t),
    via resolve_op_dec
{
    match t {
        TyS::Bool => (s, Ok((false, seq![LinkS { base: "bool"@, index: None }]))),
        TyS::Natural => (s, Ok((false, seq![LinkS { base: "u64"@, index: None }]))),
        TyS::Integer => (s, Ok((false, seq![LinkS { base: "i32"@, index: None }]))),
        TyS::Double => (s, Ok((true, seq![LinkS { base: "OrderedF64"@, index: None }]))),
        TyS::Text => (s, Ok((false, seq![LinkS { base: "String"@, index: None }]))),
        TyS::Optional(inner) => {
            let (s2, r) = resolve_op(s, ctx, *inner);
            match r {
                Ok((d, chain)) => (
                    s2,
                    Ok((d, seq![LinkS { base: "Option"@, index: None }] + chain)),
                ),
                Err(e) => (s2, Err(e)),
            }
        },
        TyS::List(inner) => {
            let (s2, r) = resolve_op(s, ctx, *inner);
            match r {
                Ok((d, chain)) => (
                    s2,
                    Ok((d, seq![LinkS { base: "Vec"@, index: None }] + chain)),
                ),
                Err(e) => (s2, Err(e)),
            }
        },
        TyS::Aggregate(a) => {
            let (s2, r) = struct_op(s, ctx, a);
            match r {
                Err(e) => (s2, Err(e)),
                Ok((id, argopt)) => {
                    let link = id_link(s2, id);
                    match argopt {
                        None => (s2, Ok((false, seq![link]))),
                        Some(arg) => {
                            let (s3, r2) = resolve_op(s2, ctx, arg);
                            match r2 {
                                Ok((d, chain)) => (s3, Ok((d, seq![link] + chain))),
                                Err(e) => (s3, Err(e)),
                            }
                        },
                    }
                },
            }
        },
    }
}

#[via_fn]
proof fn resolve_op_dec(s: Seq<RootS>, ctx: int, t: TyS) {
    match t {
        TyS::Aggregate(a) => {
            lemma_struct_op_ok(s, ctx, a);
        },
        _ => {},
    }
}

impl TypeCollection {
    /// An empty registry.
    pub fn new() -> (r: TypeCollection)
        ensures
            r@ == Seq::<RootS>::empty(),
    {
        let r = TypeCollection { roots: Vec::new() };
        proof {
            assert(r@ =~= Seq::<RootS>::empty());
        }
        r
    }

    /// The number of registered roots.
    pub fn num_roots(&self) -> (r: usize)
        ensures
            r == self@.len(),
    {
        proof {
            lemma_roots_view(self.roots@);
        }
        self.roots.len()
    }

    /// The index of the root registered under `name`, if any.
    pub fn get_by_ident(&self, name: &str) -> (r: Option<usize>)
        ensures
            match r {
                Some(i) => i < self@.len() && find_root(self@, name@) == Some(i as int),
                None => find_root(self@, name@) is None,
            },
    {
        proof {
            lemma_roots_view(self.roots@);
        }
        let n = self.roots.len();
        let mut i: usize = 0;
        while i < n
            invariant
                n == self.roots@.len(),
                0 <= i <= n,
                self@.len() == n,
                forall|j: int| 0 <= j < n ==> self@[j] == #[trigger] self.roots@[j]@,
                find_root(self@, name@) == find_root_from(self@, name@, i as int),
            decreases n - i,
        {
            if crate::util::str_eq(self.roots[i].name.as_str(), name) {
                proof {
                    assert(self@[i as int] == self.roots@[i as int]@);
                    assert(self.roots@[i as int]@.name == name@);
                }
                return Some(i);
            }
            proof {
                assert(self@[i as int] == self.roots@[i as int]@);
                assert(self@[i as int].name != name@);
            }
            i = i + 1;
        }
        None
    }

    /// Register `at` under `name`, or reuse the root already registered under
    /// `name` if the candidate is a form of its shape.
    pub fn get_or_create_by_ident(&mut self, name: String, at: &Agg) -> (r: Result<
        usize,
        RegistryError,
    >)
        ensures
            final(self)@ == ident_op(old(self)@, name@, agg_view(*at)).0,
            match (r, ident_op(old(self)@, name@, agg_view(*at)).1) {
                (Ok(i), Ok(si)) => i as int == si,
                (Err(e), Err(se)) => e@ == se,
                _ => false,
            },
    {
        let ghost s0 = self@;
        let found = self.get_by_ident(name.as_str());
        match found {
            Some(i) => {
                proof {
                    lemma_roots_view(self.roots@);
                    assert(self@[i as int] == self.roots@[i as int]@);
                }
                match at.is_form_of(&self.roots[i].ty) {
                    Ok(_) => Ok(i),
                    Err(_) => Err(RegistryError::NameCollision(name)),
                }
            },
            None => {
                proof {
                    lemma_roots_view(self.roots@);
                }
                let ghost old_roots = self.roots@;
                let index = self.roots.len();
                let entry = RootEntry { name, ty: at.duplicate(), anons: Vec::new() };
                proof {
                    assert(entry@ == RootS {
                        name: entry.name@,
                        ty: agg_view(entry.ty),
                        anons: aggs_view(entry.anons@),
                    });
                    assert(aggs_view(entry.anons@) =~= Seq::<AggS>::empty());
                }
                self.roots.push(entry);
                proof {
                    lemma_roots_view(self.roots@);
                    assert forall|j: int|
                        0 <= j < s0.len() implies self@[j] == s0[j] by {
                        lemma_roots_view(old_roots);
                        assert(self.roots@[j] == old_roots[j]);
                        assert(self@[j] == self.roots@[j]@);
                        assert(s0[j] == old_roots[j]@);
                    }
                    assert(self@ =~= s0.push(
                        RootS {
                            name: self.roots@[index as int]@.name,
                            ty: agg_view(*at),
                            anons: Seq::empty(),
                        },
                    ));
                }
                Ok(index)
            },
        }
    }

    /// Scan for structural matches of `at` under owner `ctx`: the first
    /// matching identifier with its bound argument, and whether more than
    /// one entry matched.
    fn search_structure<'a>(&self, ctx: usize, at: &'a Agg) -> (r: (
        Option<(TypeId, Option<&'a Ty>)>,
        bool,
    ))
        requires
            ctx < self@.len(),
        ensures
            ({
                let ids = match_ids(self@, ctx as int, agg_view(*at));
                &&& r.1 == (ids.len() >= 2)
                &&& match r.0 {
                    Some((id, arg)) => ids.len() >= 1 && id_view(id) == ids[0]
                        && crate::matcher::opt_ty_view(arg) == arg_of(
                        m_agg(agg_view(*at), entry_of(self@, ids[0])),
                    ),
                    None => ids.len() == 0,
                }
            }),
    {
        proof {
            lemma_roots_view(self.roots@);
        }
        let ghost s = self@;
        let ghost ats = agg_view(*at);
        let mut found: Option<(TypeId, Option<&'a Ty>)> = None;
        let mut ambig = false;
        let anons = &self.roots[ctx].anons;
        proof {
            lemma_aggs_view(anons@);
            assert(self@[ctx as int] == self.roots@[ctx as int]@);
            assert(s[ctx as int].anons == aggs_view(anons@));
        }
        let an = anons.len();
        let mut j: usize = 0;
        while j < an
            invariant
                an == anons@.len(),
                0 <= j <= an,
                ctx < s.len(),
                s == self@,
                anons == &self.roots@[ctx as int].anons,
                s[ctx as int].anons == aggs_view(anons@),
                s[ctx as int].anons.len() == an,
                forall|k: int|
                    0 <= k < an ==> s[ctx as int].anons[k] == agg_view(#[trigger] anons@[k]),
                ats == agg_view(*at),
                ({
                    let acc = anon_matches(s, ctx as int, ats, j as int);
                    &&& ambig == (acc.len() >= 2)
                    &&& match found {
                        Some((id, arg)) => acc.len() >= 1 && id_view(id) == acc[0]
                            && crate::matcher::opt_ty_view(arg) == arg_of(
                            m_agg(ats, entry_of(s, acc[0])),
                        ),
                        None => acc.len() == 0,
                    }
                }),
            decreases an - j,
        {
            let ghost acc = anon_matches(s, ctx as int, ats, j as int);
            proof {
                assert(s[ctx as int].anons[j as int] == agg_view(anons@[j as int]));
            }
            match at.is_form_of(&anons[j]) {
                Ok(arg) => {
                    if found.is_none() {
                        found = Some((TypeId { root: ctx, anon: Some(j) }, arg));
                    } else {
                        ambig = true;
                    }
                },
                Err(_) => {},
            }
            proof {
                let acc2 = anon_matches(s, ctx as int, ats, j + 1);
                if m_agg(ats, s[ctx as int].anons[j as int]) is Matched {
                    assert(acc2 == acc + seq![(ctx as int, Some(j as int))]);
                } else {
                    assert(acc2 =~= acc);
                }
            }
            j = j + 1;
        }
        let n = self.roots.len();
        let mut i: usize = 0;
        proof {
            assert(anon_matches(s, ctx as int, ats, an as int) + root_matches(s, ats, 0)
                =~= anon_matches(s, ctx as int, ats, an as int));
        }
        while i < n
            invariant
                n == self.roots@.len(),
                0 <= i <= n,
                ctx < s.len(),
                s == self@,
                s.len() == n,
                forall|k: int| 0 <= k < n ==> s[k] == #[trigger] self.roots@[k]@,
                ats == agg_view(*at),
                ({
                    let acc = anon_matches(s, ctx as int, ats, s[ctx as int].anons.len() as int)
                        + root_matches(s, ats, i as int);
                    &&& ambig == (acc.len() >= 2)
                    &&& match found {
                        Some((id, arg)) => acc.len() >= 1 && id_view(id) == acc[0]
                            && crate::matcher::opt_ty_view(arg) == arg_of(
                            m_agg(ats, entry_of(s, acc[0])),
                        ),
                        None => acc.len() == 0,
                    }
                }),
            decreases n - i,
        {
            let ghost acc = anon_matches(s, ctx as int, ats, s[ctx as int].anons.len() as int)
                + root_matches(s, ats, i as int);
            proof {
                assert(s[i as int] == self.roots@[i as int]@);
            }
            match at.is_form_of(&self.roots[i].ty) {
                Ok(arg) => {
                    if found.is_none() {
                        found = Some((TypeId { root: i, anon: None }, arg));
                    } else {
                        ambig = true;
                    }
                },
                Err(_) => {},
            }
            proof {
                let acc2 = anon_matches(s, ctx as int, ats, s[ctx as int].anons.len() as int)
                    + root_matches(s, ats, i + 1);
                if m_agg(ats, s[i as int].ty) is Matched {
                    assert(root_matches(s, ats, i + 1) == root_matches(s, ats, i as int)
                        + seq![(i as int, None::<int>)]);
                    assert(acc2 =~= acc + seq![(i as int, None::<int>)]);
                } else {
                    assert(root_matches(s, ats, i + 1) =~= root_matches(s, ats, i as int));
                    assert(acc2 =~= acc);
                }
            }
            i = i + 1;
        }
        (found, ambig)
    }

    /// The registered entry whose shape the candidate matches under the
    /// owner `ctx`, with its bound generic argument. Nothing matching is
    /// `None`; several entries matching is the ambiguity error.
    pub fn get_by_structure<'a>(&self, ctx: usize, at: &'a Agg) -> (r: Result<
        Option<(TypeId, Option<&'a Ty>)>,
        RegistryError,
    >)
        ensures
            ctx as int >= self@.len() ==> match r {
                Err(e) => e@ == ErrS::ContextNotFound,
                Ok(_) => false,
            },
            (ctx as int) < self@.len() ==> ({
                let ids = match_ids(self@, ctx as int, agg_view(*at));
                match r {
                    Ok(None) => ids.len() == 0,
                    Ok(Some((id, arg))) => ids.len() == 1 && id_view(id) == ids[0]
                        && crate::matcher::opt_ty_view(arg) == arg_of(
                        m_agg(agg_view(*at), entry_of(self@, ids[0])),
                    ),
                    Err(e) => ids.len() >= 2 && e@ == ErrS::AmbiguousStructuralMatch,
                }
            }),
    {
        proof {
            lemma_roots_view(self.roots@);
        }
        if ctx >= self.roots.len() {
            return Err(RegistryError::ContextNotFound);
        }
        let (found, ambig) = self.search_structure(ctx, at);
        if ambig {
            Err(RegistryError::AmbiguousStructuralMatch)
        } else {
            Ok(found)
        }
    }

    /// Register `at` by structure under the owner `ctx`, per `struct_op`: an
    /// override name escapes anonymity, a unique structural match is reused,
    /// no match creates a fresh anonymous entry owned by `ctx`.
    pub fn get_or_create_by_structure<'a>(&mut self, ctx: usize, at: &'a Agg) -> (r: Result<
        (TypeId, Option<&'a Ty>),
        RegistryError,
    >)
        ensures
            final(self)@ == struct_op(old(self)@, ctx as int, agg_view(*at)).0,
            match (r, struct_op(old(self)@, ctx as int, agg_view(*at)).1) {
                (Ok((id, arg)), Ok((sid, sarg))) => id_view(id) == sid
                    && crate::matcher::opt_ty_view(arg) == sarg,
                (Err(e), Err(se)) => e@ == se,
                _ => false,
            },
    {
        let ghost s0 = self@;
        let ghost ats = agg_view(*at);
        let has_override = at.name_override.is_some();
        if has_override {
            let name = match &at.name_override {
                Some(n) => n.clone(),
                None => String::new(),
            };
            proof {
                assert(ats.name_override == Some(name@));
            }
            let idx = match self.get_or_create_by_ident(name, at) {
                Ok(i) => i,
                Err(e) => {
                    return Err(e);
                },
            };
            proof {
                lemma_find_root_from_props(s0, ats.name_override->0, 0);
                lemma_roots_view(self.roots@);
                assert(self@[idx as int] == self.roots@[idx as int]@);
            }
            let arg = match at.is_form_of(&self.roots[idx].ty) {
                Ok(a) => a,
                Err(_) => None,
            };
            Ok((TypeId { root: idx, anon: None }, arg))
        } else if ctx >= self.roots.len() {
            proof {
                lemma_roots_view(self.roots@);
            }
            Err(RegistryError::ContextNotFound)
        } else {
            proof {
                lemma_roots_view(self.roots@);
            }
            let (found, ambig) = self.search_structure(ctx, at);
            if ambig {
                Err(RegistryError::AmbiguousStructuralMatch)
            } else if let Some((id, arg)) = found {
                Ok((id, arg))
            } else {
                let ghost old_roots = self.roots@;
                let entry = &mut self.roots[ctx];
                let index = entry.anons.len();
                let ghost old_anons = entry.anons@;
                entry.anons.push(at.duplicate());
                proof {
                    lemma_roots_view(old_roots);
                    lemma_roots_view(self.roots@);
                    lemma_aggs_view(old_anons);
                    lemma_aggs_view(self.roots@[ctx as int].anons@);
                    assert forall|k: int|
                        0 <= k < old_anons.len() + 1 implies aggs_view(
                        self.roots@[ctx as int].anons@,
                    )[k] == aggs_view(old_anons).push(ats)[k] by {
                        if k < old_anons.len() {
                            assert(self.roots@[ctx as int].anons@[k] == old_anons[k]);
                        } else {
                            assert(agg_view(self.roots@[ctx as int].anons@[k]) == agg_view(*at));
                        }
                    }
                    assert(aggs_view(self.roots@[ctx as int].anons@) =~= aggs_view(
                        old_anons,
                    ).push(ats));
                    assert forall|k: int|
                        0 <= k < self@.len() implies self@[k] == push_anon(s0, ctx as int, ats)[k]
                        by {
                        assert(self@[k] == self.roots@[k]@);
                        if k != ctx {
                            assert(self.roots@[k] == old_roots[k]);
                            assert(s0[k] == old_roots[k]@);
                        } else {
                            assert(s0[ctx as int] == old_roots[ctx as int]@);
                        }
                    }
                    assert(self@ =~= push_anon(s0, ctx as int, ats));
                    assert(match_ids(s0, ctx as int, ats).len() == 0);
                    assert(s0[ctx as int] == old_roots[ctx as int]@);
                    assert(s0[ctx as int].anons.len() == old_anons.len());
                }
                Ok((TypeId { root: ctx, anon: Some(index) }, None))
            }
        }
    }

    /// Resolve a member type into its ordered identifier chain, registering
    /// any nested anonymous aggregates under the owner `ctx` on the way, per
    /// `resolve_op`. Anonymous discovery order is the member order of the
    /// input, so identical inputs name anonymous types identically across
    /// runs; the loader fixes that order by sorting members by name.
    pub fn get_idents(&mut self, ctx: usize, ty: &Ty) -> (r: Result<
        (IdentOrigin, Vec<IndexedIdent>),
        RegistryError,
    >)
        ensures
            final(self)@ == resolve_op(old(self)@, ctx as int, ty@).0,
            match (r, resolve_op(old(self)@, ctx as int, ty@).1) {
                (Ok((origin, chain)), Ok((d, slinks))) => origin == (if d {
                    IdentOrigin::FromSerdeDhallTypegen
                } else {
                    IdentOrigin::Local
                }) && links_view(chain@) == slinks,
                (Err(e), Err(se)) => e@ == se,
                _ => false,
            },
        decreases crate::matcher::size_ty(ty@),
    {
        let ghost s0 = self@;
        match ty {
            Ty::Bool => Ok((IdentOrigin::Local, prim_chain("bool"))),
            Ty::Natural => Ok((IdentOrigin::Local, prim_chain("u64"))),
            Ty::Integer => Ok((IdentOrigin::Local, prim_chain("i32"))),
            Ty::Double => Ok((IdentOrigin::FromSerdeDhallTypegen, prim_chain("OrderedF64"))),
            Ty::Text => Ok((IdentOrigin::Local, prim_chain("String"))),
            Ty::Optional(inner) => match self.get_idents(ctx, inner) {
                Ok((origin, chain)) => Ok((origin, prepend_link(chain, "Option"))),
                Err(e) => Err(e),
            },
            Ty::List(inner) => match self.get_idents(ctx, inner) {
                Ok((origin, chain)) => Ok((origin, prepend_link(chain, "Vec"))),
                Err(e) => Err(e),
            },
            Ty::Aggregate(a) => {
                let (id, argopt) = match self.get_or_create_by_structure(ctx, a) {
                    Ok(ok) => ok,
                    Err(e) => {
                        return Err(e);
                    },
                };
                proof {
                    lemma_struct_op_ok(s0, ctx as int, agg_view(**a));
                    lemma_roots_view(self.roots@);
                    assert(self@[id.root as int] == self.roots@[id.root as int]@);
                }
                let link = IndexedIdent { base: self.roots[id.root].name.clone(), index: id.anon };
                proof {
                    assert(link@ == id_link(self@, id_view(id)));
                }
                match argopt {
                    None => {
                        let mut chain: Vec<IndexedIdent> = Vec::new();
                        let ghost link_snap = link@;
                        chain.push(link);
                        proof {
                            lemma_links_view(chain@);
                            assert(links_view(chain@) =~= seq![link_snap]);
                        }
                        Ok((IdentOrigin::Local, chain))
                    },
                    Some(arg) => {
                        let ghost link_snap = link@;
                        let ghost s2 = self@;
                        match self.get_idents(ctx, arg) {
                            Ok((origin, mut chain)) => {
                                let ghost old_chain = chain@;
                                chain.insert(0, link);
                                proof {
                                    lemma_links_view(chain@);
                                    lemma_links_view(old_chain);
                                    assert(chain@[0]@ == link_snap);
                                    assert forall|k: int|
                                        0 <= k < chain@.len() implies links_view(chain@)[k] == (
                                    seq![link_snap] + links_view(old_chain))[k] by {
                                        assert(links_view(chain@)[k] == chain@[k]@);
                                        if k >= 1 {
                                            assert(chain@[k] == old_chain[k - 1]);
                                            assert(links_view(old_chain)[k - 1] == old_chain[k
                                                - 1]@);
                                        }
                                    }
                                    assert(links_view(chain@) =~= seq![link_snap] + links_view(
                                        old_chain,
                                    ));
                                }
                                Ok((origin, chain))
                            },
                            Err(e) => Err(e),
                        }
                    },
                }
            },
        }
    }
}

/// Why a root schema could not be added.
#[derive(Debug)]
pub enum AddTypeError {
    /// Its name-override metadata is malformed.
    Meta(crate::meta::MetaError),
    /// It is not a record or a union.
    NotAggregate,
    /// Registration failed.
    Registry(RegistryError),
}

/// Mathematical mirror of `AddTypeError`.
pub enum AddErrS {
    Meta(crate::meta::MetaError),
    NotAggregate,
    Registry(ErrS),
}

impl View for AddTypeError {
    type V = AddErrS;

    open spec fn view(&self) -> AddErrS {
        match self {
            AddTypeError::Meta(e) => AddErrS::Meta(*e),
            AddTypeError::NotAggregate => AddErrS::NotAggregate,
            AddTypeError::Registry(e) => AddErrS::Registry(e@),
        }
    }
}

/// The transition of adding one root schema: normalize its metadata, demand
/// an aggregate, and register it under its override name if it carries one,
/// else under the caller-supplied fallback name.
pub open spec fn add_op(s: Seq<RootS>, raw: crate::type_node::Shape, fallback: Seq<char>) -> (
    Seq<RootS>,
    Result<int, AddErrS>,
) {
    match crate::meta::norm_ty(raw) {
        Err(e) => (s, Err(AddErrS::Meta(e))),
        Ok(t) => match t {
            TyS::Aggregate(a) => {
                let name = match a.name_override {
                    Some(n) => n,
                    None => fallback,
                };
                let (s2, r) = ident_op(s, name, a);
                match r {
                    Ok(i) => (s2, Ok(i)),
                    Err(e) => (s2, Err(AddErrS::Registry(e))),
                }
            },
            _ => (s, Err(AddErrS::NotAggregate)),
        },
    }
}

impl TypeCollection {
    /// Add one root schema file's evaluated type under `fallback_name`, or
    /// under its override name if its metadata carries one, per `add_op`.
    pub fn add_type(&mut self, node: &crate::type_node::TypeNode, fallback_name: &str) -> (r:
        Result<usize, AddTypeError>)
        ensures
            final(self)@ == add_op(old(self)@, node@, fallback_name@).0,
            match (r, add_op(old(self)@, node@, fallback_name@).1) {
                (Ok(i), Ok(si)) => i as int == si,
                (Err(e), Err(se)) => e@ == se,
                _ => false,
            },
    {
        let t = match node.normalize() {
            Ok(t) => t,
            Err(e) => {
                return Err(AddTypeError::Meta(e));
            },
        };
        match t {
            Ty::Aggregate(a) => {
                let name = match &a.name_override {
                    Some(n) => n.clone(),
                    None => String::from_str(fallback_name),
                };
                match self.get_or_create_by_ident(name, &a) {
                    Ok(i) => Ok(i),
                    Err(e) => Err(AddTypeError::Registry(e)),
                }
            },
            _ => Err(AddTypeError::NotAggregate),
        }
    }

    /// The name of a registered root.
    pub fn root_name(&self, i: usize) -> (r: &String)
        requires
            i < self@.len(),
        ensures
            r@ == self@[i as int].name,
    {
        proof {
            lemma_roots_view(self.roots@);
            assert(self@[i as int] == self.roots@[i as int]@);
        }
        &self.roots[i].name
    }

    /// The shape registered under a root.
    pub fn root_ty(&self, i: usize) -> (r: &Agg)
        requires
            i < self@.len(),
        ensures
            agg_view(*r) == self@[i as int].ty,
    {
        proof {
            lemma_roots_view(self.roots@);
            assert(self@[i as int] == self.roots@[i as int]@);
        }
        &self.roots[i].ty
    }

    /// How many anonymous entries a root owns.
    pub fn num_anons(&self, i: usize) -> (r: usize)
        requires
            i < self@.len(),
        ensures
            r == self@[i as int].anons.len(),
    {
        proof {
            lemma_roots_view(self.roots@);
            assert(self@[i as int] == self.roots@[i as int]@);
            lemma_aggs_view(self.roots@[i as int].anons@);
        }
        self.roots[i].anons.len()
    }

    /// An anonymous entry of a root.
    pub fn anon_ty(&self, i: usize, j: usize) -> (r: &Agg)
        requires
            i < self@.len(),
            j < self@[i as int].anons.len(),
        ensures
            agg_view(*r) == self@[i as int].anons[j as int],
    {
        proof {
            lemma_roots_view(self.roots@);
            assert(self@[i as int] == self.roots@[i as int]@);
            lemma_aggs_view(self.roots@[i as int].anons@);
        }
        &self.roots[i].anons[j]
    }
}

/// A one-link chain naming a primitive type.
fn prim_chain(base: &str) -> (r: Vec<IndexedIdent>)
    ensures
        links_view(r@) == seq![LinkS { base: base@, index: None }],
{
    let mut chain: Vec<IndexedIdent> = Vec::new();
    let link = IndexedIdent { base: String::from_str(base), index: None };
    let ghost link_snap = link@;
    chain.push(link);
    proof {
        lemma_links_view(chain@);
        assert(links_view(chain@) =~= seq![link_snap]);
    }
    chain
}

/// The chain with a wrapper's identifier prepended.
fn prepend_link(chain: Vec<IndexedIdent>, base: &str) -> (r: Vec<IndexedIdent>)
    ensures
        links_view(r@) == seq![LinkS { base: base@, index: None }] + links_view(chain@),
{
    let mut chain = chain;
    let ghost old_chain = chain@;
    let link = IndexedIdent { base: String::from_str(base), index: None };
    let ghost link_snap = link@;
    chain.insert(0, link);
    proof {
        lemma_links_view(chain@);
        lemma_links_view(old_chain);
        assert(chain@[0]@ == link_snap);
        assert forall|k: int|
            0 <= k < chain@.len() implies links_view(chain@)[k] == (seq![link_snap] + links_view(
            old_chain,
        ))[k] by {
            assert(links_view(chain@)[k] == chain@[k]@);
            if k >= 1 {
                assert(chain@[k] == old_chain[k - 1]);
                assert(links_view(old_chain)[k - 1] == old_chain[k - 1]@);
            }
        }
        assert(links_view(chain@) =~= seq![link_snap] + links_view(old_chain));
    }
    chain
}

} // verus!
