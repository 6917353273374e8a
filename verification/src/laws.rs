//! Registry laws.
//!
//! These proof functions state, over the registry's transition functions,
//! the guarantees the compiler gives its callers: roots are keyed by their
//! source-derived names and never merged by shape, anonymous deduplication
//! is idempotent and owner-scoped, explicit names reject incompatible
//! shapes and share compatible ones, and a generic template is defined once
//! however many instantiations resolve through it.

use vstd::prelude::*;

use crate::aggregate::AggS;
use crate::aggregate::TyS;
use crate::aggregate::wf_agg;
use crate::collection::ErrS;
use crate::collection::IdS;
use crate::collection::LinkS;
use crate::collection::RootS;
use crate::collection::add_op;
use crate::collection::anon_matches;
use crate::collection::entry_of;
use crate::collection::find_root;
use crate::collection::find_root_from;
use crate::collection::id_link;
use crate::collection::ident_op;
use crate::collection::lemma_anon_matches_bounds;
use crate::collection::lemma_root_matches_bounds;
use crate::collection::match_ids;
use crate::collection::push_anon;
use crate::collection::resolve_op;
use crate::collection::root_matches;
use crate::collection::struct_op;
use crate::collection::wf_state;
use crate::matcher::MatchOutcome;
use crate::matcher::lemma_m_agg_refl;
use crate::matcher::m_agg;
use crate::meta::norm_ty;
use crate::type_node::Shape;

verus! {

/// Appending a root leaves earlier name searches unchanged; the new root is
/// found only by its own name and only when no earlier root has it.
pub proof fn lemma_find_root_push(s: Seq<RootS>, e: RootS, name: Seq<char>, i: int)
    requires
        0 <= i <= s.len(),
    ensures
        find_root_from(s.push(e), name, i) == match find_root_from(s, name, i) {
            Some(k) => Some(k),
            None => if e.name == name {
                Some(s.len() as int)
            } else {
                None
            },
        },
    decreases s.len() + 1 - i,
{
    if i < s.len() {
        lemma_find_root_push(s, e, name, i + 1);
    } else {
        assert(find_root_from(s, name, i) is None);
        assert(find_root_from(s.push(e), name, i + 1) is None);
    }
}

/// Appending an anonymous entry to an owner does not change which earlier
/// anonymous entries of that owner match a candidate.
pub proof fn lemma_anon_matches_push(s: Seq<RootS>, ctx: int, b: AggS, at: AggS, upto: int)
    requires
        0 <= ctx < s.len(),
        0 <= upto <= s[ctx].anons.len(),
    ensures
        anon_matches(push_anon(s, ctx, b), ctx, at, upto) == anon_matches(s, ctx, at, upto),
    decreases upto,
{
    if upto > 0 {
        lemma_anon_matches_push(s, ctx, b, at, upto - 1);
    }
}

/// Appending an anonymous entry does not change which roots match a
/// candidate.
pub proof fn lemma_root_matches_push_anon(s: Seq<RootS>, ctx: int, b: AggS, at: AggS, upto: int)
    requires
        0 <= ctx < s.len(),
        0 <= upto <= s.len(),
    ensures
        root_matches(push_anon(s, ctx, b), at, upto) == root_matches(s, at, upto),
    decreases upto,
{
    if upto > 0 {
        lemma_root_matches_push_anon(s, ctx, b, at, upto - 1);
        assert(push_anon(s, ctx, b)[upto - 1].ty == s[upto - 1].ty);
    }
}

/// Registering under an explicit name preserves the registry invariants:
/// root names stay unique and every registered shape stays well-formed.
pub proof fn law_ident_op_preserves_wf(s: Seq<RootS>, name: Seq<char>, at: AggS)
    requires
        wf_state(s),
        wf_agg(at),
    ensures
        wf_state(ident_op(s, name, at).0),
{
    let s2 = ident_op(s, name, at).0;
    match find_root(s, name) {
        Some(_) => {},
        None => {
            crate::collection::lemma_find_root_from_props(s, name, 0);
            assert forall|i: int, j: int| 0 <= i < j < s2.len() implies s2[i].name != s2[j].name
                by {
                if j == s.len() {
                    assert(s2[j].name == name);
                    assert(s2[i].name == s[i].name);
                }
            }
        },
    }
}

/// Registering by structure preserves the registry invariants.
pub proof fn law_struct_op_preserves_wf(s: Seq<RootS>, ctx: int, at: AggS)
    requires
        wf_state(s),
        wf_agg(at),
    ensures
        wf_state(struct_op(s, ctx, at).0),
{
    let s2 = struct_op(s, ctx, at).0;
    if at.name_override is Some {
        law_ident_op_preserves_wf(s, at.name_override->0, at);
    } else if 0 <= ctx < s.len() {
        let ids = match_ids(s, ctx, at);
        if ids.len() == 0 {
            assert forall|i: int, j: int| 0 <= i < j < s2.len() implies s2[i].name != s2[j].name
                by {
                assert(s2[i].name == s[i].name);
                assert(s2[j].name == s[j].name);
            }
            assert forall|i: int| 0 <= i < s2.len() implies wf_agg(#[trigger] s2[i].ty) by {
                assert(s2[i].ty == s[i].ty);
            }
            assert forall|i: int, j: int|
                0 <= i < s2.len() && 0 <= j < s2[i].anons.len() implies wf_agg(
                #[trigger] s2[i].anons[j],
            ) by {
                if i == ctx && j == s[ctx].anons.len() {
                    assert(s2[i].anons[j] == at);
                } else {
                    assert(s2[i].anons[j] == s[i].anons[j]);
                }
            }
        }
    }
}

/// Adding a root schema whose raw tree is well-formed preserves the
/// registry invariants, whichever name it registers under.
pub proof fn law_add_op_preserves_wf(s: Seq<RootS>, raw: Shape, fallback: Seq<char>)
    requires
        wf_state(s),
        crate::type_node::shape_wf(raw),
    ensures
        wf_state(add_op(s, raw, fallback).0),
{
    crate::meta::lemma_norm_ty_wf(raw);
    match norm_ty(raw) {
        Ok(t) => match t {
            TyS::Aggregate(a) => {
                let name = match a.name_override {
                    Some(n) => n,
                    None => fallback,
                };
                law_ident_op_preserves_wf(s, name, a);
            },
            _ => {},
        },
        Err(_) => {},
    }
}

/// A generic argument captured from a well-formed candidate is itself
/// well-formed.
pub proof fn lemma_m_ty_arg_wf(cand: TyS, tmpl: TyS, arg: TyS)
    requires
        crate::matcher::m_ty(cand, tmpl) == MatchOutcome::Matched(Some(arg)),
        crate::aggregate::wf_ty(cand),
    ensures
        crate::aggregate::wf_ty(arg),
    decreases cand,
{
    if crate::aggregate::is_sentinel_ty(tmpl) {
    } else {
        match (cand, tmpl) {
            (TyS::Optional(c), TyS::Optional(t)) => lemma_m_ty_arg_wf(*c, *t, arg),
            (TyS::List(c), TyS::List(t)) => lemma_m_ty_arg_wf(*c, *t, arg),
            (TyS::Aggregate(c), TyS::Aggregate(t)) => lemma_m_agg_arg_wf(c, t, arg),
            _ => {},
        }
    }
}

/// A generic argument captured from a well-formed candidate aggregate is
/// itself well-formed.
pub proof fn lemma_m_agg_arg_wf(cand: AggS, tmpl: AggS, arg: TyS)
    requires
        m_agg(cand, tmpl) == MatchOutcome::Matched(Some(arg)),
        wf_agg(cand),
    ensures
        crate::aggregate::wf_ty(arg),
    decreases cand,
{
    lemma_m_members_arg_wf(cand.members, tmpl.members, None, arg);
}

/// A generic argument produced by the member fold either was already the
/// accumulator or comes from a member payload of the candidate list.
pub proof fn lemma_m_members_arg_wf(
    cms: Seq<crate::aggregate::MemberS>,
    tms: Seq<crate::aggregate::MemberS>,
    acc: Option<TyS>,
    arg: TyS,
)
    requires
        crate::matcher::m_members(cms, tms, acc) == MatchOutcome::Matched(Some(arg)),
        forall|k: int|
            0 <= k < cms.len() ==> match #[trigger] cms[k].payload {
                Some(p) => crate::aggregate::wf_ty(p),
                None => true,
            },
    ensures
        acc == Some(arg) || crate::aggregate::wf_ty(arg),
    decreases cms,
{
    if cms.len() == 0 {
    } else {
        let cm = cms[0];
        let rest = cms.subrange(1, cms.len() as int);
        assert forall|k: int|
            0 <= k < rest.len() implies match #[trigger] rest[k].payload {
            Some(p) => crate::aggregate::wf_ty(p),
            None => true,
        } by {
            assert(rest[k] == cms[k + 1]);
        }
        match crate::matcher::lookup_member(tms, cm.name) {
            None => {},
            Some(tm) => {
                let step = match (cm.payload, tm.payload) {
                    (Some(cp), Some(tp)) => crate::matcher::m_ty(cp, tp),
                    (None, None) => MatchOutcome::Matched(None),
                    _ => MatchOutcome::Mismatch,
                };
                match step {
                    MatchOutcome::Mismatch => {},
                    MatchOutcome::Matched(step_arg) => {
                        let new_acc: Option<TyS> = match (acc, step_arg) {
                            (Some(p), Some(r)) => Some(p),
                            (Some(p), None) => Some(p),
                            (None, r) => r,
                        };
                        if acc is Some && step_arg is Some && acc != step_arg {
                        } else {
                            lemma_m_members_arg_wf(rest, tms, new_acc, arg);
                            if new_acc == Some(arg) && acc != Some(arg) {
                                let cp = cm.payload->Some_0;
                                let tp = tm.payload->Some_0;
                                lemma_m_ty_arg_wf(cp, tp, arg);
                            }
                        }
                    },
                }
            },
        }
    }
}

/// Resolving a member type preserves the registry invariants, however many
/// anonymous entries it materializes along the way.
pub proof fn law_resolve_op_preserves_wf(s: Seq<RootS>, ctx: int, t: TyS)
    requires
        wf_state(s),
        crate::aggregate::wf_ty(t),
    ensures
        wf_state(resolve_op(s, ctx, t).0),
    decreases crate::matcher::size_ty(t),
{
    match t {
        TyS::Optional(inner) => law_resolve_op_preserves_wf(s, ctx, *inner),
        TyS::List(inner) => law_resolve_op_preserves_wf(s, ctx, *inner),
        TyS::Aggregate(a) => {
            law_struct_op_preserves_wf(s, ctx, a);
            crate::collection::lemma_struct_op_ok(s, ctx, a);
            let (s2, r) = struct_op(s, ctx, a);
            match r {
                Err(_) => {},
                Ok((id, argopt)) => match argopt {
                    None => {},
                    Some(arg) => {
                        if a.name_override is Some {
                            match find_root(s, a.name_override->0) {
                                Some(i) => lemma_m_agg_arg_wf(a, s2[i].ty, arg),
                                None => lemma_m_agg_arg_wf(a, s2[s.len() as int].ty, arg),
                            }
                        } else {
                            let ids = match_ids(s, ctx, a);
                            if ids.len() == 1 {
                                lemma_m_agg_arg_wf(a, entry_of(s, ids[0]), arg);
                            }
                        }
                        law_resolve_op_preserves_wf(s2, ctx, arg);
                    },
                },
            }
        },
        _ => {},
    }
}

/// Two root schemas with no override name, added under distinct
/// source-derived names that are not yet registered, produce two distinct
/// named types carrying exactly those names and their own shapes: roots are
/// keyed by source identity, never deduplicated by structure.
pub proof fn law_roots_keyed_by_source(
    s: Seq<RootS>,
    raw1: Shape,
    a1: AggS,
    n1: Seq<char>,
    raw2: Shape,
    a2: AggS,
    n2: Seq<char>,
)
    requires
        norm_ty(raw1) == Ok::<TyS, crate::meta::MetaError>(TyS::Aggregate(a1)),
        norm_ty(raw2) == Ok::<TyS, crate::meta::MetaError>(TyS::Aggregate(a2)),
        a1.name_override is None,
        a2.name_override is None,
        forall|i: int, j: int|
            0 <= i < a1.members.len() && 0 <= j < a2.members.len() ==> a1.members[i].name
                != a2.members[j].name,
        n1 != n2,
        find_root(s, n1) is None,
        find_root(s, n2) is None,
    ensures
        ({
            let (s1, r1) = add_op(s, raw1, n1);
            let (s2, r2) = add_op(s1, raw2, n2);
            &&& r1 == Ok::<int, crate::collection::AddErrS>(s.len() as int)
            &&& r2 == Ok::<int, crate::collection::AddErrS>(s.len() as int + 1)
            &&& s2.len() == s.len() + 2
            &&& s2[s.len() as int].name == n1
            &&& s2[s.len() as int].ty == a1
            &&& s2[s.len() as int + 1].name == n2
            &&& s2[s.len() as int + 1].ty == a2
            &&& r1 != r2
        }),
{
    let (s1, r1) = add_op(s, raw1, n1);
    lemma_find_root_push(s, RootS { name: n1, ty: a1, anons: Seq::empty() }, n2, 0);
    let (s2, r2) = add_op(s1, raw2, n2);
    assert(s2[s.len() as int].name == n1);
}

/// Registering the same anonymous structure twice under the same owner is
/// idempotent: the second registration returns the same identifier and
/// leaves the registry unchanged.
pub proof fn law_anonymous_reuse_idempotent(s: Seq<RootS>, ctx: int, at: AggS)
    requires
        wf_agg(at),
        at.name_override is None,
        0 <= ctx < s.len(),
        struct_op(s, ctx, at).1 is Ok,
    ensures
        ({
            let (s1, r1) = struct_op(s, ctx, at);
            let (s2, r2) = struct_op(s1, ctx, at);
            &&& s2 == s1
            &&& r2 is Ok
            &&& r2->Ok_0.0 == r1->Ok_0.0
        }),
{
    let ids = match_ids(s, ctx, at);
    let (s1, r1) = struct_op(s, ctx, at);
    if ids.len() == 0 {
        let l = s[ctx].anons.len() as int;
        assert(s1 == push_anon(s, ctx, at));
        lemma_anon_matches_push(s, ctx, at, at, l);
        lemma_root_matches_push_anon(s, ctx, at, at, s.len() as int);
        lemma_m_agg_refl(at);
        assert(s1[ctx].anons[l] == at);
        assert(s1[ctx].anons.len() == l + 1);
        assert(anon_matches(s1, ctx, at, l + 1) == anon_matches(s1, ctx, at, l) + seq![
            (ctx, Some(l)),
        ]);
        assert(anon_matches(s, ctx, at, l).len() + root_matches(s, at, s.len() as int).len()
            == 0);
        assert(match_ids(s1, ctx, at) =~= seq![(ctx, Some(l))]);
    }
}

/// An anonymous identifier is always scoped to the owner that requested the
/// registration.
pub proof fn law_anonymous_owner_scoped(s: Seq<RootS>, ctx: int, at: AggS)
    requires
        at.name_override is None,
    ensures
        match struct_op(s, ctx, at).1 {
            Ok((id, _)) => id.1 is Some ==> id.0 == ctx,
            Err(_) => true,
        },
{
    if 0 <= ctx < s.len() {
        let ids = match_ids(s, ctx, at);
        lemma_anon_matches_bounds(s, ctx, at, s[ctx].anons.len() as int);
        lemma_root_matches_bounds(s, at, s.len() as int);
        if ids.len() == 1 {
            let id = ids[0];
            if anon_matches(s, ctx, at, s[ctx].anons.len() as int).len() > 0 {
                assert(anon_matches(s, ctx, at, s[ctx].anons.len() as int)[0] == id);
            } else {
                assert(root_matches(s, at, s.len() as int)[0] == id);
            }
        }
    }
}

/// Identical shapes registered under different owners get independent
/// anonymous identifiers: there is no cross-owner anonymous sharing.
pub proof fn law_no_cross_owner_sharing(
    sa: Seq<RootS>,
    ctxa: int,
    sb: Seq<RootS>,
    ctxb: int,
    at: AggS,
)
    requires
        at.name_override is None,
        ctxa != ctxb,
        struct_op(sa, ctxa, at).1 is Ok,
        struct_op(sb, ctxb, at).1 is Ok,
        struct_op(sa, ctxa, at).1->Ok_0.0.1 is Some,
        struct_op(sb, ctxb, at).1->Ok_0.0.1 is Some,
    ensures
        struct_op(sa, ctxa, at).1->Ok_0.0 != struct_op(sb, ctxb, at).1->Ok_0.0,
{
    law_anonymous_owner_scoped(sa, ctxa, at);
    law_anonymous_owner_scoped(sb, ctxb, at);
}

/// Registering twice under one explicit name: a structurally incompatible
/// second shape is a name collision and changes nothing, while a compatible
/// one resolves to the very type the first registration created.
pub proof fn law_explicit_name_sharing(s: Seq<RootS>, name: Seq<char>, a1: AggS, a2: AggS)
    requires
        find_root(s, name) is None,
    ensures
        ({
            let (s1, r1) = ident_op(s, name, a1);
            let (s2, r2) = ident_op(s1, name, a2);
            &&& r1 == Ok::<int, ErrS>(s.len() as int)
            &&& s1 == s.push(RootS { name, ty: a1, anons: Seq::empty() })
            &&& (m_agg(a2, a1) is Mismatch ==> r2 == Err::<int, ErrS>(ErrS::NameCollision(name))
                && s2 == s1)
            &&& (m_agg(a2, a1) is Matched ==> r2 == Ok::<int, ErrS>(s.len() as int) && s2 == s1)
        }),
{
    let (s1, r1) = ident_op(s, name, a1);
    lemma_find_root_push(s, RootS { name, ty: a1, anons: Seq::empty() }, name, 0);
    assert(find_root(s1, name) == Some(s.len() as int));
    assert(s1[s.len() as int].ty == a1);
}

/// A generic template instantiated with two different primitive arguments
/// at two call sites: both resolutions reuse the one named definition, the
/// registry gains no entry, the two chains share the template's identifier,
/// and the chains themselves differ.
pub proof fn law_generic_shared_definition(
    s: Seq<RootS>,
    ctx: int,
    r: int,
    c1: AggS,
    c2: AggS,
)
    requires
        0 <= ctx < s.len(),
        0 <= r < s.len(),
        c1.name_override is None,
        c2.name_override is None,
        match_ids(s, ctx, c1) == seq![(r, None::<int>)],
        match_ids(s, ctx, c2) == seq![(r, None::<int>)],
        m_agg(c1, s[r].ty) == MatchOutcome::Matched(Some(TyS::Natural)),
        m_agg(c2, s[r].ty) == MatchOutcome::Matched(Some(TyS::Text)),
    ensures
        ({
            let (s1, r1) = resolve_op(s, ctx, TyS::Aggregate(c1));
            let (s2, r2) = resolve_op(s1, ctx, TyS::Aggregate(c2));
            &&& s1 == s
            &&& s2 == s
            &&& r1 == Ok::<(bool, Seq<LinkS>), ErrS>(
                (
                    false,
                    seq![
                        LinkS { base: s[r].name, index: None },
                        LinkS { base: "u64"@, index: None },
                    ],
                ),
            )
            &&& r2 == Ok::<(bool, Seq<LinkS>), ErrS>(
                (
                    false,
                    seq![
                        LinkS { base: s[r].name, index: None },
                        LinkS { base: "String"@, index: None },
                    ],
                ),
            )
            &&& r1->Ok_0.1[0] == r2->Ok_0.1[0]
            &&& r1->Ok_0.1 != r2->Ok_0.1
        }),
{
    let id: IdS = (r, None::<int>);
    assert(entry_of(s, id) == s[r].ty);
    let (s1, r1) = resolve_op(s, ctx, TyS::Aggregate(c1));
    assert(struct_op(s, ctx, c1) == (s, Ok::<(IdS, Option<TyS>), ErrS>((id, Some(TyS::Natural)))));
    assert(resolve_op(s, ctx, TyS::Natural).0 == s);
    assert(s1 == s);
    assert(resolve_op(s, ctx, TyS::Natural).1 == Ok::<(bool, Seq<LinkS>), ErrS>(
        (false, seq![LinkS { base: "u64"@, index: None }]),
    ));
    assert(r1 == Ok::<(bool, Seq<LinkS>), ErrS>(
        (
            false,
            seq![id_link(s, id)] + seq![LinkS { base: "u64"@, index: None }],
        ),
    ));
    assert(seq![id_link(s, id)] + seq![LinkS { base: "u64"@, index: None }] =~= seq![
        LinkS { base: s[r].name, index: None },
        LinkS { base: "u64"@, index: None },
    ]);
    let (s2, r2) = resolve_op(s1, ctx, TyS::Aggregate(c2));
    assert(struct_op(s, ctx, c2) == (s, Ok::<(IdS, Option<TyS>), ErrS>((id, Some(TyS::Text)))));
    assert(resolve_op(s, ctx, TyS::Text).1 == Ok::<(bool, Seq<LinkS>), ErrS>(
        (false, seq![LinkS { base: "String"@, index: None }]),
    ));
    assert(resolve_op(s, ctx, TyS::Text).0 == s);
    assert(s2 == s);
    assert(r2 == Ok::<(bool, Seq<LinkS>), ErrS>(
        (
            false,
            seq![id_link(s, id)] + seq![LinkS { base: "String"@, index: None }],
        ),
    ));
    assert(seq![id_link(s, id)] + seq![LinkS { base: "String"@, index: None }] =~= seq![
        LinkS { base: s[r].name, index: None },
        LinkS { base: "String"@, index: None },
    ]);
    assert("u64"@ != "String"@) by {
        broadcast use vstd::string::group_string_axioms;

        reveal_strlit("u64");
        reveal_strlit("String");
        assert("u64"@.len() == 3);
        assert("String"@.len() == 6);
    }
}

} // verus!
