//! The structural matcher.
//!
//! `is_form_of` decides whether a candidate aggregate is structurally
//! identical to a registered one, optionally modulo one generic substitution:
//! wherever the registered side holds the generic sentinel, the candidate's
//! type at that position is captured as the generic argument instead of being
//! compared. All sentinel positions must capture structurally identical
//! arguments; capturing two different ones is a mismatch. The comparison is
//! directional: the registered side is the template.

use vstd::prelude::*;

use crate::aggregate::Agg;
use crate::aggregate::AggS;
use crate::aggregate::Member;
use crate::aggregate::MemberS;
use crate::aggregate::Ty;
use crate::aggregate::TyS;
use crate::aggregate::agg_view;
use crate::aggregate::is_sentinel_agg;
use crate::aggregate::is_sentinel_ty;
use crate::aggregate::lemma_members_view;
use crate::aggregate::members_view;
use crate::aggregate::ty_eq;
use crate::util::str_eq;

verus! {

broadcast use {vstd::seq::axiom_seq_index_decreases, vstd::std_specs::vec::axiom_vec_index_decreases};

/// The outcome of matching a candidate against a template: a mismatch, or a
/// match that bound the generic parameter to nothing or to one argument type.
pub enum MatchOutcome {
    Mismatch,
    Matched(Option<TyS>),
}

/// The first member of `ms` named `name`.
pub open spec fn lookup_member(ms: Seq<MemberS>, name: Seq<char>) -> Option<MemberS>
    decreases ms,
{
    if ms.len() == 0 {
        None
    } else if ms[0].name == name {
        Some(ms[0])
    } else {
        lookup_member(ms.subrange(1, ms.len() as int), name)
    }
}

/// Matching a candidate type against a template type. A sentinel on the
/// template side captures the candidate type as the generic argument;
/// otherwise primitives must agree exactly, wrappers recurse, and aggregates
/// are compared member by member.
pub open spec fn m_ty(cand: TyS, tmpl: TyS) -> MatchOutcome
    decreases cand,
{
    if is_sentinel_ty(tmpl) {
        MatchOutcome::Matched(Some(cand))
    } else {
        match (cand, tmpl) {
            (TyS::Bool, TyS::Bool) => MatchOutcome::Matched(None),
            (TyS::Natural, TyS::Natural) => MatchOutcome::Matched(None),
            (TyS::Integer, TyS::Integer) => MatchOutcome::Matched(None),
            (TyS::Double, TyS::Double) => MatchOutcome::Matched(None),
            (TyS::Text, TyS::Text) => MatchOutcome::Matched(None),
            (TyS::Optional(c), TyS::Optional(t)) => m_ty(*c, *t),
            (TyS::List(c), TyS::List(t)) => m_ty(*c, *t),
            (TyS::Aggregate(c), TyS::Aggregate(t)) => m_agg(c, t),
            _ => MatchOutcome::Mismatch,
        }
    }
}

/// Matching a candidate aggregate against a template aggregate: override
/// names and kinds must agree, the member name sets must agree, and each
/// member pair must match, with all sentinel positions capturing one and the
/// same argument.
pub open spec fn m_agg(cand: AggS, tmpl: AggS) -> MatchOutcome
    decreases cand,
{
    if cand.name_override == tmpl.name_override && cand.kind == tmpl.kind
        && cand.members.len() == tmpl.members.len() {
        m_members(cand.members, tmpl.members, None)
    } else {
        MatchOutcome::Mismatch
    }
}

/// Folding a member-by-member match: each candidate member is looked up by
/// name on the template side, payloads are matched, and captured generic
/// arguments are required to agree with the accumulator.
pub open spec fn m_members(cms: Seq<MemberS>, tms: Seq<MemberS>, acc: Option<TyS>) -> MatchOutcome
    decreases cms,
{
    if cms.len() == 0 {
        MatchOutcome::Matched(acc)
    } else {
        proof {
            assert(decreases_to!(cms => cms[0]));
            assert(decreases_to!(cms => cms.subrange(1, cms.len() as int)));
        }
        let cm = cms[0];
        match lookup_member(tms, cm.name) {
            None => MatchOutcome::Mismatch,
            Some(tm) => {
                let step = match (cm.payload, tm.payload) {
                    (Some(cp), Some(tp)) => m_ty(cp, tp),
                    (None, None) => MatchOutcome::Matched(None),
                    _ => MatchOutcome::Mismatch,
                };
                match step {
                    MatchOutcome::Mismatch => MatchOutcome::Mismatch,
                    MatchOutcome::Matched(arg) => {
                        match (acc, arg) {
                            (Some(p), Some(r)) => if p == r {
                                m_members(cms.subrange(1, cms.len() as int), tms, Some(p))
                            } else {
                                MatchOutcome::Mismatch
                            },
                            (Some(p), None) => m_members(
                                cms.subrange(1, cms.len() as int),
                                tms,
                                Some(p),
                            ),
                            (None, r) => m_members(cms.subrange(1, cms.len() as int), tms, r),
                        }
                    },
                }
            },
        }
    }
}

/// The mathematical value of an optional borrowed argument type.
pub open spec fn opt_ty_view(o: Option<&Ty>) -> Option<TyS> {
    match o {
        Some(t) => Some(t@),
        None => None,
    }
}

/// The outcome that an executable match result denotes.
pub open spec fn outcome_of(r: Result<Option<&Ty>, ()>) -> MatchOutcome {
    match r {
        Ok(arg) => MatchOutcome::Matched(opt_ty_view(arg)),
        Err(_) => MatchOutcome::Mismatch,
    }
}

/// The first member of `ms` whose name is `name`.
pub fn find_member<'a>(ms: &'a Vec<Member>, name: &str) -> (r: Option<&'a Member>)
    ensures
        match r {
            Some(m) => lookup_member(members_view(ms@), name@) == Some(m@),
            None => lookup_member(members_view(ms@), name@) is None,
        },
{
    proof {
        lemma_members_view(ms@);
    }
    let n = ms.len();
    let mut i: usize = 0;
    while i < n
        invariant
            n == ms@.len(),
            0 <= i <= n,
            members_view(ms@).len() == n,
            forall|j: int| 0 <= j < n ==> members_view(ms@)[j] == #[trigger] ms@[j]@,
            forall|j: int| 0 <= j < i ==> members_view(ms@)[j].name != name@,
        decreases n - i,
    {
        let m = &ms[i];
        if str_eq(m.name.as_str(), name) {
            proof {
                lemma_lookup_skip(members_view(ms@), name@, i as int);
                let rest = members_view(ms@).subrange(i as int, n as int);
                assert(rest[0] == members_view(ms@)[i as int]);
                assert(rest[0] == ms@[i as int]@);
                assert(rest[0].name == name@);
            }
            return Some(m);
        }
        proof {
            assert(members_view(ms@)[i as int] == ms@[i as int]@);
        }
        i = i + 1;
    }
    proof {
        lemma_lookup_skip(members_view(ms@), name@, n as int);
        assert(members_view(ms@).subrange(n as int, n as int).len() == 0);
    }
    None
}

impl Ty {
    /// Match this candidate type against a template type; a sentinel on the
    /// template side captures this type as the generic argument.
    pub fn matches_template<'a>(&'a self, tmpl: &Ty) -> (r: Result<Option<&'a Ty>, ()>)
        ensures
            outcome_of(r) == m_ty(self@, tmpl@),
        decreases *self,
    {
        let sentinel = match tmpl {
            Ty::Aggregate(a) => a.is_generic_sentinel(),
            _ => false,
        };
        if sentinel {
            return Ok(Some(self));
        }
        match (self, tmpl) {
            (Ty::Bool, Ty::Bool) => Ok(None),
            (Ty::Natural, Ty::Natural) => Ok(None),
            (Ty::Integer, Ty::Integer) => Ok(None),
            (Ty::Double, Ty::Double) => Ok(None),
            (Ty::Text, Ty::Text) => Ok(None),
            (Ty::Optional(c), Ty::Optional(t)) => c.matches_template(t),
            (Ty::List(c), Ty::List(t)) => c.matches_template(t),
            (Ty::Aggregate(c), Ty::Aggregate(t)) => c.is_form_of(t),
            _ => Err(()),
        }
    }
}

impl Agg {
    /// Match this candidate aggregate against a template aggregate, per the
    /// member-by-member fold of `m_agg`.
    pub fn is_form_of<'a>(&'a self, other: &Agg) -> (r: Result<Option<&'a Ty>, ()>)
        ensures
            outcome_of(r) == m_agg(self@, other@),
        decreases *self,
    {
        proof {
            lemma_members_view(self.members@);
            lemma_members_view(other.members@);
        }
        let overrides_eq = match (&self.name_override, &other.name_override) {
            (Some(x), Some(y)) => crate::util::string_eq(x, y),
            (None, None) => true,
            _ => false,
        };
        let kinds_eq = match (self.kind, other.kind) {
            (crate::aggregate::AggregateKind::Record, crate::aggregate::AggregateKind::Record) => true,
            (crate::aggregate::AggregateKind::Union, crate::aggregate::AggregateKind::Union) => true,
            _ => false,
        };
        if !overrides_eq || !kinds_eq || self.members.len() != other.members.len() {
            return Err(());
        }
        let n = self.members.len();
        let ghost cms_all = self@.members;
        let ghost tms = other@.members;
        let mut acc: Option<&'a Ty> = None;
        let mut i: usize = 0;
        proof {
            assert(self@.name_override == other@.name_override);
            assert(self@.kind == other@.kind);
            assert(self@.members.len() == other@.members.len());
            assert(cms_all.subrange(0, n as int) =~= cms_all);
            assert(m_agg(self@, other@) == m_members(cms_all, tms, None::<TyS>));
        }
        while i < n
            invariant
                n == self.members@.len(),
                0 <= i <= n,
                cms_all == self@.members,
                tms == other@.members,
                cms_all.len() == n,
                members_view(self.members@) == cms_all,
                forall|j: int| 0 <= j < n ==> cms_all[j] == #[trigger] self.members@[j]@,
                m_agg(self@, other@) == m_members(
                    cms_all.subrange(i as int, n as int),
                    tms,
                    opt_ty_view(acc),
                ),
            decreases n - i,
        {
            let ghost cms = cms_all.subrange(i as int, n as int);
            proof {
                assert(cms.len() > 0);
                assert(cms[0] == cms_all[i as int]);
                assert(cms[0] == self.members@[i as int]@);
                assert(cms.subrange(1, cms.len() as int) =~= cms_all.subrange(i + 1, n as int));
            }
            let cm = &self.members[i];
            let tm_opt = find_member(&other.members, cm.name.as_str());
            let tm = match tm_opt {
                Some(tm) => tm,
                None => {
                    proof {
                        assert(lookup_member(tms, cms[0].name) is None);
                        assert(m_members(cms, tms, opt_ty_view(acc)) == MatchOutcome::Mismatch);
                    }
                    return Err(());
                },
            };
            let step: Result<Option<&'a Ty>, ()> = match (&cm.payload, &tm.payload) {
                (Some(cp), Some(tp)) => {
                    proof {
                        assert(decreases_to!(self.members@ => self.members@[i as int]));
                    }
                    cp.matches_template(tp)
                },
                (None, None) => Ok(None),
                _ => Err(()),
            };
            proof {
                assert(cms[0].payload == match cm.payload {
                    Some(t) => Some(crate::aggregate::ty_view(t)),
                    None => None::<TyS>,
                });
            }
            let arg = match step {
                Ok(arg) => arg,
                Err(_) => {
                    proof {
                        assert(m_members(cms, tms, opt_ty_view(acc)) == MatchOutcome::Mismatch);
                    }
                    return Err(());
                },
            };
            let new_acc: Option<&'a Ty> = match (acc, arg) {
                (Some(p), Some(r)) => {
                    if ty_eq(p, r) {
                        Some(p)
                    } else {
                        proof {
                            assert(m_members(cms, tms, opt_ty_view(acc))
                                == MatchOutcome::Mismatch);
                        }
                        return Err(());
                    }
                },
                (Some(p), None) => Some(p),
                (None, r) => r,
            };
            proof {
                assert(m_members(cms, tms, opt_ty_view(acc)) == m_members(
                    cms_all.subrange(i + 1, n as int),
                    tms,
                    opt_ty_view(new_acc),
                ));
            }
            acc = new_acc;
            i = i + 1;
        }
        proof {
            assert(cms_all.subrange(n as int, n as int).len() == 0);
            assert(m_agg(self@, other@) == MatchOutcome::Matched(opt_ty_view(acc)));
        }
        Ok(acc)
    }
}

/// A structural size measure on normalized types, used to bound recursion
/// over extracted generic arguments.
pub open spec fn size_ty(t: TyS) -> nat
    decreases t,
{
    match t {
        TyS::Bool | TyS::Natural | TyS::Integer | TyS::Double | TyS::Text => 1,
        TyS::Optional(inner) => 1 + size_ty(*inner),
        TyS::List(inner) => 1 + size_ty(*inner),
        TyS::Aggregate(a) => 1 + size_members(a.members),
    }
}

/// The combined size of a member list.
pub open spec fn size_members(ms: Seq<MemberS>) -> nat
    decreases ms,
{
    if ms.len() == 0 {
        0
    } else {
        proof {
            assert(decreases_to!(ms => ms[0]));
            assert(decreases_to!(ms => ms.subrange(1, ms.len() as int)));
        }
        1 + (match ms[0].payload {
            Some(p) => size_ty(p),
            None => 0,
        }) + size_members(ms.subrange(1, ms.len() as int))
    }
}

/// A generic argument captured by a type match is no larger than the
/// candidate it was captured from.
pub proof fn lemma_m_ty_arg_size(cand: TyS, tmpl: TyS, arg: TyS)
    requires
        m_ty(cand, tmpl) == MatchOutcome::Matched(Some(arg)),
    ensures
        size_ty(arg) <= size_ty(cand),
    decreases cand,
{
    if is_sentinel_ty(tmpl) {
    } else {
        match (cand, tmpl) {
            (TyS::Optional(c), TyS::Optional(t)) => lemma_m_ty_arg_size(*c, *t, arg),
            (TyS::List(c), TyS::List(t)) => lemma_m_ty_arg_size(*c, *t, arg),
            (TyS::Aggregate(c), TyS::Aggregate(t)) => lemma_m_agg_arg_size(c, t, arg),
            _ => {},
        }
    }
}

/// A generic argument captured by an aggregate match is strictly smaller
/// than the candidate aggregate.
pub proof fn lemma_m_agg_arg_size(cand: AggS, tmpl: AggS, arg: TyS)
    requires
        m_agg(cand, tmpl) == MatchOutcome::Matched(Some(arg)),
    ensures
        size_ty(arg) < 1 + size_members(cand.members),
    decreases cand,
{
    lemma_m_members_arg_size(cand.members, tmpl.members, None, arg);
}

/// A generic argument produced by the member fold either was already the
/// accumulator or is strictly smaller than the member list it came from.
pub proof fn lemma_m_members_arg_size(
    cms: Seq<MemberS>,
    tms: Seq<MemberS>,
    acc: Option<TyS>,
    arg: TyS,
)
    requires
        m_members(cms, tms, acc) == MatchOutcome::Matched(Some(arg)),
    ensures
        acc == Some(arg) || size_ty(arg) < size_members(cms),
    decreases cms,
{
    if cms.len() == 0 {
    } else {
        let cm = cms[0];
        let rest = cms.subrange(1, cms.len() as int);
        match lookup_member(tms, cm.name) {
            None => {},
            Some(tm) => {
                let step = match (cm.payload, tm.payload) {
                    (Some(cp), Some(tp)) => m_ty(cp, tp),
                    (None, None) => MatchOutcome::Matched(None),
                    _ => MatchOutcome::Mismatch,
                };
                match step {
                    MatchOutcome::Mismatch => {},
                    MatchOutcome::Matched(step_arg) => {
                        let new_acc: Option<TyS> = match (acc, step_arg) {
                            (Some(p), Some(r)) => Some(p),
                            (Some(p), None) => Some(p),
                            (None, r) => r,
                        };
                        if acc is Some && step_arg is Some && acc != step_arg {
                        } else {
                            lemma_m_members_arg_size(rest, tms, new_acc, arg);
                            if new_acc == Some(arg) && acc != Some(arg) {
                                // the argument was captured from this member's payload
                                let cp = cm.payload->Some_0;
                                let tp = tm.payload->Some_0;
                                lemma_m_ty_arg_size(cp, tp, arg);
                            }
                        }
                    },
                }
            },
        }
    }
}

/// Whether some member of `ms` carries the name `n`.
pub open spec fn member_name_in(ms: Seq<MemberS>, n: Seq<char>) -> bool {
    exists|j: int| 0 <= j < ms.len() && #[trigger] ms[j].name == n
}

/// A found member's name occurs in the list.
proof fn lemma_lookup_member_found(ms: Seq<MemberS>, n: Seq<char>)
    ensures
        lookup_member(ms, n) is Some ==> member_name_in(ms, n),
    decreases ms,
{
    if ms.len() > 0 {
        if ms[0].name == n {
            assert(member_name_in(ms, n));
        } else {
            let tail = ms.subrange(1, ms.len() as int);
            lemma_lookup_member_found(tail, n);
            if lookup_member(tail, n) is Some {
                let j = choose|j: int| 0 <= j < tail.len() && #[trigger] tail[j].name == n;
                assert(ms[j + 1].name == n);
            }
        }
    }
}

/// A successful member fold found every candidate member's name on the
/// template side.
proof fn lemma_m_members_names(cms: Seq<MemberS>, tms: Seq<MemberS>, acc: Option<TyS>)
    requires
        m_members(cms, tms, acc) is Matched,
    ensures
        forall|k: int| 0 <= k < cms.len() ==> member_name_in(tms, (#[trigger] cms[k]).name),
    decreases cms,
{
    if cms.len() > 0 {
        let rest = cms.subrange(1, cms.len() as int);
        lemma_lookup_member_found(tms, cms[0].name);
        match lookup_member(tms, cms[0].name) {
            None => {},
            Some(tm) => {
                let step = match (cms[0].payload, tm.payload) {
                    (Some(cp), Some(tp)) => m_ty(cp, tp),
                    (None, None) => MatchOutcome::Matched(None),
                    _ => MatchOutcome::Mismatch,
                };
                match step {
                    MatchOutcome::Mismatch => {},
                    MatchOutcome::Matched(arg) => {
                        let new_acc: Option<TyS> = match (acc, arg) {
                            (Some(p), Some(r)) => Some(p),
                            (Some(p), None) => Some(p),
                            (None, r) => r,
                        };
                        if acc is Some && arg is Some && acc != arg {
                        } else {
                            lemma_m_members_names(rest, tms, new_acc);
                        }
                    },
                }
            },
        }
        assert forall|k: int|
            0 <= k < cms.len() implies member_name_in(tms, (#[trigger] cms[k]).name) by {
            if k > 0 {
                assert(cms[k] == rest[k - 1]);
            }
        }
    }
}

/// On a successful match the member name sets agree exactly: a name present
/// on either side is present on the other.
pub proof fn law_matched_member_sets_exact(c: AggS, t: AggS)
    requires
        crate::aggregate::member_names_unique(c.members),
        crate::aggregate::member_names_unique(t.members),
        m_agg(c, t) is Matched,
    ensures
        forall|n: Seq<char>| member_name_in(c.members, n) <==> member_name_in(t.members, n),
{
    broadcast use vstd::seq_lib::seq_to_set_is_finite;

    lemma_m_members_names(c.members, t.members, None);
    assert forall|n: Seq<char>|
        member_name_in(c.members, n) implies member_name_in(t.members, n) by {
        let j = choose|j: int| 0 <= j < c.members.len() && #[trigger] c.members[j].name == n;
        assert(member_name_in(t.members, c.members[j].name));
    }
    let cn = Seq::new(c.members.len(), |i: int| c.members[i].name);
    let tn = Seq::new(t.members.len(), |i: int| t.members[i].name);
    assert(cn.no_duplicates());
    assert(tn.no_duplicates());
    cn.unique_seq_to_set();
    tn.unique_seq_to_set();
    assert(cn.len() == tn.len());
    assert forall|n: Seq<char>| cn.to_set().contains(n) implies tn.to_set().contains(n) by {
        let j = choose|j: int| 0 <= j < cn.len() && cn[j] == n;
        assert(member_name_in(c.members, n));
        assert(member_name_in(t.members, n));
        let k = choose|k: int| 0 <= k < t.members.len() && #[trigger] t.members[k].name == n;
        assert(tn[k] == n);
    }
    assert(cn.to_set().subset_of(tn.to_set()));
    assert forall|n: Seq<char>|
        member_name_in(t.members, n) implies member_name_in(c.members, n) by {
        if !member_name_in(c.members, n) {
            let k = choose|k: int| 0 <= k < t.members.len() && #[trigger] t.members[k].name == n;
            assert(tn[k] == n);
            assert(tn.to_set().contains(n));
            assert(!cn.to_set().contains(n)) by {
                if cn.to_set().contains(n) {
                    let j = choose|j: int| 0 <= j < cn.len() && cn[j] == n;
                    assert(c.members[j].name == n);
                }
            }
            cn.to_set().lemma_subset_not_in_lt(tn.to_set(), n);
            assert(false);
        }
    }
}

/// Unique names make the lookup of a member's own name find that member.
pub proof fn lemma_lookup_unique(ms: Seq<MemberS>, i: int)
    requires
        crate::aggregate::member_names_unique(ms),
        0 <= i < ms.len(),
    ensures
        lookup_member(ms, ms[i].name) == Some(ms[i]),
{
    lemma_lookup_skip(ms, ms[i].name, i);
    let rest = ms.subrange(i, ms.len() as int);
    assert(rest[0] == ms[i]);
}

/// Whether any member payload from position `i` on contains the sentinel.
pub open spec fn members_contain_sentinel_from(ms: Seq<MemberS>, i: int) -> bool {
    exists|k: int|
        i <= k < ms.len() && match #[trigger] ms[k].payload {
            Some(p) => crate::aggregate::contains_sentinel_ty(p),
            None => false,
        }
}

/// Matching a well-formed type against itself succeeds; the bound argument
/// is the sentinel exactly when the type contains the sentinel.
pub proof fn lemma_m_ty_refl(t: TyS)
    requires
        crate::aggregate::wf_ty(t),
    ensures
        m_ty(t, t) == MatchOutcome::Matched(
            if crate::aggregate::contains_sentinel_ty(t) {
                Some(crate::aggregate::sentinel_ty_s())
            } else {
                None::<TyS>
            },
        ),
    decreases t, 2int,
{
    if is_sentinel_ty(t) {
        crate::aggregate::lemma_sentinel_canonical(t);
        match t {
            TyS::Aggregate(a) => {
                assert(crate::aggregate::is_sentinel_agg(a));
                assert(crate::aggregate::contains_sentinel_agg(a));
            },
            _ => {},
        }
        assert(crate::aggregate::contains_sentinel_ty(t));
    } else {
        match t {
            TyS::Optional(inner) => lemma_m_ty_refl(*inner),
            TyS::List(inner) => lemma_m_ty_refl(*inner),
            TyS::Aggregate(a) => {
                lemma_m_agg_refl(a);
                assert(crate::aggregate::contains_sentinel_agg(a) == members_contain_sentinel_from(
                    a.members,
                    0,
                )) by {
                    if crate::aggregate::contains_sentinel_agg(a) {
                        let k = choose|k: int|
                            0 <= k < a.members.len() && match #[trigger] a.members[k].payload {
                                Some(p) => crate::aggregate::contains_sentinel_ty(p),
                                None => false,
                            };
                        assert(0 <= k < a.members.len() && match a.members[k].payload {
                            Some(p) => crate::aggregate::contains_sentinel_ty(p),
                            None => false,
                        });
                    }
                    if members_contain_sentinel_from(a.members, 0) {
                        let k = choose|k: int|
                            0 <= k < a.members.len() && match #[trigger] a.members[k].payload {
                                Some(p) => crate::aggregate::contains_sentinel_ty(p),
                                None => false,
                            };
                        assert(0 <= k < a.members.len() && match a.members[k].payload {
                            Some(p) => crate::aggregate::contains_sentinel_ty(p),
                            None => false,
                        });
                    }
                }
            },
            _ => {},
        }
    }
}

/// Matching a well-formed aggregate against itself succeeds; the bound
/// argument is the sentinel exactly when some member contains the sentinel.
pub proof fn lemma_m_agg_refl(a: AggS)
    requires
        crate::aggregate::wf_agg(a),
    ensures
        m_agg(a, a) == MatchOutcome::Matched(
            if members_contain_sentinel_from(a.members, 0) {
                Some(crate::aggregate::sentinel_ty_s())
            } else {
                None::<TyS>
            },
        ),
    decreases a, 1int,
{
    assert(a.members.subrange(0, a.members.len() as int) =~= a.members);
    lemma_m_members_refl(a.members, a.members, 0, None);
}

/// The member fold of a well-formed list against itself succeeds, and
/// accumulates the sentinel exactly when it starts with it or some
/// remaining payload contains it.
pub proof fn lemma_m_members_refl(cms: Seq<MemberS>, full: Seq<MemberS>, i: int, acc: Option<TyS>)
    requires
        crate::aggregate::member_names_unique(full),
        forall|k: int|
            0 <= k < full.len() ==> match #[trigger] full[k].payload {
                Some(p) => crate::aggregate::wf_ty(p),
                None => true,
            },
        0 <= i <= full.len(),
        cms == full.subrange(i, full.len() as int),
        acc is None || acc == Some(crate::aggregate::sentinel_ty_s()),
    ensures
        m_members(cms, full, acc) == MatchOutcome::Matched(
            if acc is Some || members_contain_sentinel_from(full, i) {
                Some(crate::aggregate::sentinel_ty_s())
            } else {
                None::<TyS>
            },
        ),
    decreases cms, 0int,
{
    if cms.len() == 0 {
        assert(!members_contain_sentinel_from(full, i));
    } else {
        assert(cms[0] == full[i]);
        lemma_lookup_unique(full, i);
        let head_contains = match full[i].payload {
            Some(p) => crate::aggregate::contains_sentinel_ty(p),
            None => false,
        };
        assert(members_contain_sentinel_from(full, i) == (head_contains
            || members_contain_sentinel_from(full, i + 1))) by {
            if head_contains {
                assert(i <= i < full.len() && match full[i].payload {
                    Some(p) => crate::aggregate::contains_sentinel_ty(p),
                    None => false,
                });
            }
            if members_contain_sentinel_from(full, i + 1) {
                let k = choose|k: int|
                    i + 1 <= k < full.len() && match #[trigger] full[k].payload {
                        Some(p) => crate::aggregate::contains_sentinel_ty(p),
                        None => false,
                    };
                assert(i <= k < full.len() && match full[k].payload {
                    Some(p) => crate::aggregate::contains_sentinel_ty(p),
                    None => false,
                });
            }
            if members_contain_sentinel_from(full, i) && !head_contains {
                let k = choose|k: int|
                    i <= k < full.len() && match #[trigger] full[k].payload {
                        Some(p) => crate::aggregate::contains_sentinel_ty(p),
                        None => false,
                    };
                assert(k != i);
                assert(i + 1 <= k < full.len() && match full[k].payload {
                    Some(p) => crate::aggregate::contains_sentinel_ty(p),
                    None => false,
                });
            }
        }
        let step_arg: Option<TyS> = match full[i].payload {
            Some(p) => {
                lemma_m_ty_refl(p);
                if crate::aggregate::contains_sentinel_ty(p) {
                    Some(crate::aggregate::sentinel_ty_s())
                } else {
                    None
                }
            },
            None => None,
        };
        let new_acc: Option<TyS> = match (acc, step_arg) {
            (Some(p), Some(r)) => Some(p),
            (Some(p), None) => Some(p),
            (None, r) => r,
        };
        assert(cms.subrange(1, cms.len() as int) =~= full.subrange(i + 1, full.len() as int));
        lemma_m_members_refl(
            full.subrange(i + 1, full.len() as int),
            full,
            i + 1,
            new_acc,
        );
    }
}

/// A lookup that fails on every name in a prefix can start past that prefix.
pub proof fn lemma_lookup_skip(ms: Seq<MemberS>, name: Seq<char>, i: int)
    requires
        0 <= i <= ms.len(),
        forall|j: int| 0 <= j < i ==> ms[j].name != name,
    ensures
        lookup_member(ms, name) == lookup_member(ms.subrange(i, ms.len() as int), name),
    decreases i,
{
    if i > 0 {
        assert(ms[0].name != name);
        let tail = ms.subrange(1, ms.len() as int);
        assert forall|j: int| 0 <= j < i - 1 implies tail[j].name != name by {
            assert(tail[j] == ms[j + 1]);
        }
        assert(lookup_member(ms, name) == lookup_member(tail, name));
        lemma_lookup_skip(tail, name, i - 1);
        assert(tail.subrange(i - 1, tail.len() as int) =~= ms.subrange(i, ms.len() as int));
        assert(lookup_member(tail, name) == lookup_member(ms.subrange(i, ms.len() as int), name));
    } else {
        assert(ms.subrange(0, ms.len() as int) =~= ms);
    }
}

} // verus!
