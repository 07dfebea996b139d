use vstd::prelude::*;

use crate::coverage::{CaseShapeModel, case_covered, covers};
use crate::matcher::{
    Env,
    Outcome,
    arm_accepts,
    eval_guard,
    fields_named,
    match_elems,
    match_fields,
    match_pat,
    outcome,
    select_from,
};
use crate::pattern::{
    ArmModel,
    PatternModel,
    binders,
    elem_binders,
    field_binders,
    pattern_well_formed,
};
use crate::value::all_distinct;
use crate::value::ValueModel;

verus! {

/// The names of a binding environment, in order.
pub open spec fn env_names(env: Env) -> Seq<Seq<char>> {
    env.map_values(|e: (Seq<char>, ValueModel)| e.0)
}

/// Selection from position `s` picks the first accepting arm at or after
/// `s`, with that arm's own bindings, or reports that none accepts.
proof fn lemma_select(arms: Seq<ArmModel>, v: ValueModel, s: nat)
    ensures
        match select_from(arms, v, s) {
            Outcome::Matched { arm_index, bindings } => {
                &&& s <= arm_index < arms.len()
                &&& arm_accepts(arms[arm_index as int], v) == Some(bindings)
                &&& forall|m: int| s <= m < arm_index ==> #[trigger] arm_accepts(arms[m], v) is None
            },
            Outcome::NoMatch => forall|m: int|
                s <= m < arms.len() ==> #[trigger] arm_accepts(arms[m], v) is None,
        },
    decreases arms.len() - s,
{
    if s < arms.len() {
        lemma_select(arms, v, s + 1);
    }
}

/// Matching is a function of the value and the arms alone: equal inputs
/// give equal outcomes.
pub proof fn match_is_deterministic(
    v1: ValueModel,
    v2: ValueModel,
    arms1: Seq<ArmModel>,
    arms2: Seq<ArmModel>,
)
    requires
        v1 == v2,
        arms1 == arms2,
    ensures
        outcome(v1, arms1) == outcome(v2, arms2),
{
}

/// First match wins: when arms `i < j` both accept the value, the selected
/// arm comes no later than `i`, and is never `j`.
pub proof fn first_match_wins(v: ValueModel, arms: Seq<ArmModel>, i: int, j: int)
    requires
        0 <= i < j < arms.len(),
        arm_accepts(arms[i], v) is Some,
        arm_accepts(arms[j], v) is Some,
    ensures
        outcome(v, arms) is Matched,
        outcome(v, arms)->arm_index <= i,
        outcome(v, arms)->arm_index != j,
{
    lemma_select(arms, v, 0);
}

/// The selected arm is the first that accepts the value; every arm before
/// it rejects it, and on `NoMatch` every arm rejects it.
pub proof fn selected_arm_is_first_accepting(v: ValueModel, arms: Seq<ArmModel>)
    ensures
        match outcome(v, arms) {
            Outcome::Matched { arm_index, bindings } => {
                &&& arm_index < arms.len()
                &&& arm_accepts(arms[arm_index as int], v) == Some(bindings)
                &&& forall|m: int| 0 <= m < arm_index ==> #[trigger] arm_accepts(arms[m], v) is None
            },
            Outcome::NoMatch => forall|m: int|
                0 <= m < arms.len() ==> #[trigger] arm_accepts(arms[m], v) is None,
        },
{
    lemma_select(arms, v, 0);
}

/// A successful match binds exactly the names of the pattern, in order.
proof fn lemma_bound_names(p: PatternModel, v: ValueModel)
    requires
        match_pat(p, v) is Some,
    ensures
        env_names(match_pat(p, v)->0) == binders(p),
    decreases p, 0nat,
{
    match p {
        PatternModel::Binding(n) => {
            assert(env_names(seq![(n, v)]) =~= seq![n]);
        },
        PatternModel::TuplePat(ps) => {
            if let ValueModel::Tuple(vs) = v {
                lemma_elems_bound_names(ps, vs, ps.len());
            }
        },
        PatternModel::RecordPat(fps, rest) => {
            if let ValueModel::Record(fvs) = v {
                lemma_fields_bound_names(fps, fvs, fps.len());
            }
        },
        PatternModel::VariantPat(tag, sub) => {
            if let ValueModel::Variant(t, payload) = v {
                match (sub, payload) {
                    (Some(q), Some(w)) => {
                        lemma_bound_names(*q, *w);
                    },
                    _ => {
                        assert(env_names(Seq::empty()) =~= Seq::empty());
                    },
                }
            }
        },
        _ => {
            assert(env_names(Seq::empty()) =~= Seq::empty());
        },
    }
}

proof fn lemma_elems_bound_names(ps: Seq<PatternModel>, vs: Seq<ValueModel>, n: nat)
    requires
        n <= ps.len(),
        n <= vs.len(),
        match_elems(ps, vs, n) is Some,
    ensures
        env_names(match_elems(ps, vs, n)->0) == elem_binders(ps, n),
    decreases ps, n,
{
    if n == 0 {
        assert(env_names(Seq::empty()) =~= Seq::empty());
    } else {
        lemma_elems_bound_names(ps, vs, (n - 1) as nat);
        lemma_bound_names(ps[n - 1], vs[n - 1]);
        let acc = match_elems(ps, vs, (n - 1) as nat)->0;
        let b = match_pat(ps[n - 1], vs[n - 1])->0;
        assert(env_names(acc + b) =~= env_names(acc) + env_names(b));
    }
}

proof fn lemma_fields_bound_names(fps: Seq<(Seq<char>, PatternModel)>, fvs: Env, n: nat)
    requires
        n <= fps.len(),
        match_fields(fps, fvs, n) is Some,
    ensures
        env_names(match_fields(fps, fvs, n)->0) == field_binders(fps, n),
    decreases fps, n,
{
    if n == 0 {
        assert(env_names(Seq::empty()) =~= Seq::empty());
    } else {
        lemma_fields_bound_names(fps, fvs, (n - 1) as nat);
        let fv = crate::matcher::lookup(fvs, fps[n - 1].0)->0;
        assert(decreases_to!(fps => fps[n - 1]));
        lemma_bound_names(fps[n - 1].1, fv);
        let acc = match_fields(fps, fvs, (n - 1) as nat)->0;
        let b = match_pat(fps[n - 1].1, fv)->0;
        assert(env_names(acc + b) =~= env_names(acc) + env_names(b));
    }
}

/// No partial bindings: the bindings of a match are exactly those that the
/// selected arm's pattern produces on its own, one for each name it binds;
/// nothing comes from arms that failed before it.
pub proof fn bindings_come_from_selected_arm(v: ValueModel, arms: Seq<ArmModel>)
    ensures
        outcome(v, arms) is Matched ==> {
            let k = outcome(v, arms)->arm_index as int;
            let b = outcome(v, arms)->bindings;
            &&& match_pat(arms[k].pattern, v) == Some(b)
            &&& env_names(b) == binders(arms[k].pattern)
        },
{
    lemma_select(arms, v, 0);
    if outcome(v, arms) is Matched {
        let k = outcome(v, arms)->arm_index as int;
        lemma_bound_names(arms[k].pattern, v);
    }
}

/// A pattern accepted at construction binds each name at most once in any
/// successful match.
pub proof fn well_formed_match_binds_distinct_names(p: PatternModel, v: ValueModel)
    requires
        pattern_well_formed(p),
        match_pat(p, v) is Some,
    ensures
        all_distinct(env_names(match_pat(p, v)->0)),
{
    lemma_bound_names(p, v);
}

/// A tuple pattern never matches a tuple of another arity.
pub proof fn tuple_arity_is_strict(ps: Seq<PatternModel>, vs: Seq<ValueModel>)
    requires
        ps.len() != vs.len(),
    ensures
        match_pat(PatternModel::TuplePat(ps), ValueModel::Tuple(vs)) is None,
{
}

/// A record pattern that does not ignore the rest never matches a record
/// with a field it does not name.
pub proof fn record_fields_are_strict(
    fps: Seq<(Seq<char>, PatternModel)>,
    fvs: Env,
)
    requires
        !fields_named(fvs, fps),
    ensures
        match_pat(PatternModel::RecordPat(fps, false), ValueModel::Record(fvs)) is None,
{
}

/// Guard isolation: the guard of the selected arm held of exactly the
/// bindings that arm's pattern produced, and the arm selects the same
/// bindings when it stands alone, whatever arms preceded it.
pub proof fn guard_sees_own_bindings(v: ValueModel, arms: Seq<ArmModel>)
    ensures
        outcome(v, arms) is Matched ==> {
            let k = outcome(v, arms)->arm_index as int;
            let b = outcome(v, arms)->bindings;
            &&& match_pat(arms[k].pattern, v) == Some(b)
            &&& (arms[k].guard is Some ==> eval_guard(arms[k].guard->0, b))
            &&& outcome(v, seq![arms[k]]) == (Outcome::Matched { arm_index: 0, bindings: b })
        },
{
    lemma_select(arms, v, 0);
    if outcome(v, arms) is Matched {
        let k = outcome(v, arms)->arm_index as int;
        let single = seq![arms[k]];
        assert(single[0] == arms[k]);
    }
}

/// The exhaustiveness report is sound: every value of a case that it does
/// not report is matched by some arm.
pub proof fn covered_case_always_matches(
    arms: Seq<ArmModel>,
    c: CaseShapeModel,
    payload: Option<Box<ValueModel>>,
)
    requires
        case_covered(arms, c),
        payload is Some <==> c.has_payload,
    ensures
        outcome(ValueModel::Variant(c.tag, payload), arms) is Matched,
{
    let v = ValueModel::Variant(c.tag, payload);
    let k = choose|k: int|
        0 <= k < arms.len() && #[trigger] arms[k].guard is None && covers(arms[k].pattern, c);
    let p = arms[k].pattern;
    if let PatternModel::VariantPat(tag, Some(q)) = p {
        if let Some(w) = payload {
            assert(match_pat(*q, *w) is Some);
        }
    }
    assert(match_pat(p, v) is Some);
    assert(arm_accepts(arms[k], v) is Some);
    lemma_select(arms, v, 0);
}

} // verus!
