use vstd::prelude::*;

use crate::pattern::{ArmModel, Guard, GuardModel, Pattern, PatternModel, Arm, arms_model};
use crate::value::{Value, ValueModel, copy_value, scalars_equal, values_equal};

verus! {

/// A binding environment: names paired with the values bound to them, in the
/// order in which they were bound.
pub type Env = Seq<(Seq<char>, ValueModel)>;

/// The model of a list of name/value entries.
pub open spec fn entries_model(e: Seq<(String, Value)>) -> Env {
    e.map_values(|x: (String, Value)| (x.0@, x.1@))
}

/// The model of an optional list of entries.
pub open spec fn opt_entries_model(r: Option<Vec<(String, Value)>>) -> Option<Env> {
    match r {
        Some(b) => Some(entries_model(b@)),
        None => None,
    }
}

/// The value of the first entry named `name` at or after position `i`.
pub open spec fn lookup_from(env: Env, name: Seq<char>, i: nat) -> Option<ValueModel>
    decreases env.len() - i,
{
    if i >= env.len() {
        None
    } else if env[i as int].0 == name {
        Some(env[i as int].1)
    } else {
        lookup_from(env, name, i + 1)
    }
}

/// The value of the first entry named `name`.
pub open spec fn lookup(env: Env, name: Seq<char>) -> Option<ValueModel> {
    lookup_from(env, name, 0)
}

/// Some field pattern has this name.
pub open spec fn named_in(fps: Seq<(Seq<char>, PatternModel)>, name: Seq<char>) -> bool {
    exists|j: int| 0 <= j < fps.len() && #[trigger] fps[j].0 == name
}

/// Every field of the record is named by the pattern.
pub open spec fn fields_named(fvs: Env, fps: Seq<(Seq<char>, PatternModel)>) -> bool {
    forall|k: int| 0 <= k < fvs.len() ==> #[trigger] named_in(fps, fvs[k].0)
}

/// The bindings produced by matching `p` against `v`, or `None` when it does
/// not match.
pub open spec fn match_pat(p: PatternModel, v: ValueModel) -> Option<Env>
    decreases p, 0nat,
{
    match p {
        PatternModel::Wildcard => Some(Seq::empty()),
        PatternModel::Binding(n) => Some(seq![(n, v)]),
        PatternModel::LiteralEq(s) => match v {
            ValueModel::Leaf(t) => if t == s {
                Some(Seq::empty())
            } else {
                None
            },
            _ => None,
        },
        PatternModel::TuplePat(ps) => match v {
            ValueModel::Tuple(vs) => if ps.len() == vs.len() {
                match_elems(ps, vs, ps.len())
            } else {
                None
            },
            _ => None,
        },
        PatternModel::RecordPat(fps, rest_ignored) => match v {
            ValueModel::Record(fvs) => if rest_ignored || fields_named(fvs, fps) {
                match_fields(fps, fvs, fps.len())
            } else {
                None
            },
            _ => None,
        },
        PatternModel::VariantPat(tag, sub) => match v {
            ValueModel::Variant(t, payload) => if t != tag {
                None
            } else {
                match (sub, payload) {
                    (None, None) => Some(Seq::empty()),
                    (Some(q), Some(w)) => match_pat(*q, *w),
                    _ => None,
                }
            },
            _ => None,
        },
    }
}

/// Matches the first `n` element patterns against the elements at the same
/// positions, left to right, concatenating their bindings.
pub open spec fn match_elems(ps: Seq<PatternModel>, vs: Seq<ValueModel>, n: nat) -> Option<Env>
    decreases ps, n,
{
    if n == 0 || n > ps.len() || n > vs.len() {
        Some(Seq::empty())
    } else {
        match match_elems(ps, vs, (n - 1) as nat) {
            None => None,
            Some(acc) => match match_pat(ps[n - 1], vs[n - 1]) {
                None => None,
                Some(b) => Some(acc + b),
            },
        }
    }
}

/// Matches the first `n` field patterns against the record fields of the
/// same names, in the pattern's order, concatenating their bindings.
pub open spec fn match_fields(fps: Seq<(Seq<char>, PatternModel)>, fvs: Env, n: nat) -> Option<
    Env,
>
    decreases fps, n,
{
    if n == 0 || n > fps.len() {
        Some(Seq::empty())
    } else {
        match match_fields(fps, fvs, (n - 1) as nat) {
            None => None,
            Some(acc) => match lookup(fvs, fps[n - 1].0) {
                None => None,
                Some(fv) => {
                    proof {
                        assert(decreases_to!(fps => fps[n - 1]));
                    }
                    match match_pat(fps[n - 1].1, fv) {
                        None => None,
                        Some(b) => Some(acc + b),
                    }
                },
            },
        }
    }
}

/// The truth of a guard over a binding environment.
pub open spec fn eval_guard(g: GuardModel, env: Env) -> bool
    decreases g,
{
    match g {
        GuardModel::SameValue(a, b) => match (lookup(env, a), lookup(env, b)) {
            (Some(x), Some(y)) => x == y,
            _ => false,
        },
        GuardModel::Equals(a, s) => lookup(env, a) == Some(ValueModel::Leaf(s)),
        GuardModel::Not(h) => !eval_guard(*h, env),
        GuardModel::All(h, k) => eval_guard(*h, env) && eval_guard(*k, env),
        GuardModel::Any(h, k) => eval_guard(*h, env) || eval_guard(*k, env),
    }
}

/// The bindings with which an arm accepts `v`: its pattern matches and its
/// guard, if any, holds of exactly the bindings that pattern produced.
pub open spec fn arm_accepts(arm: ArmModel, v: ValueModel) -> Option<Env> {
    match match_pat(arm.pattern, v) {
        None => None,
        Some(b) => match arm.guard {
            None => Some(b),
            Some(g) => if eval_guard(g, b) {
                Some(b)
            } else {
                None
            },
        },
    }
}

/// Mathematical model of a match result.
pub enum Outcome {
    Matched { arm_index: nat, bindings: Env },
    NoMatch,
}

/// The first arm at or after position `i` that accepts `v`.
pub open spec fn select_from(arms: Seq<ArmModel>, v: ValueModel, i: nat) -> Outcome
    decreases arms.len() - i,
{
    if i >= arms.len() {
        Outcome::NoMatch
    } else {
        match arm_accepts(arms[i as int], v) {
            Some(b) => Outcome::Matched { arm_index: i, bindings: b },
            None => select_from(arms, v, i + 1),
        }
    }
}

/// The outcome of matching `v` against an ordered list of arms.
pub open spec fn outcome(v: ValueModel, arms: Seq<ArmModel>) -> Outcome {
    select_from(arms, v, 0)
}

/// The model of a list of field patterns.
pub open spec fn field_pats_model(fps: Seq<(String, Pattern)>) -> Seq<(Seq<char>, PatternModel)> {
    fps.map_values(|f: (String, Pattern)| (f.0@, f.1@))
}

/// Once a prefix of the elements fails to match, every longer prefix fails.
proof fn lemma_elems_failure_persists(ps: Seq<PatternModel>, vs: Seq<ValueModel>, n: nat, m: nat)
    requires
        n <= m <= ps.len(),
        m <= vs.len(),
        match_elems(ps, vs, n) is None,
    ensures
        match_elems(ps, vs, m) is None,
    decreases m - n,
{
    if n < m {
        assert(match_elems(ps, vs, n + 1) is None);
        lemma_elems_failure_persists(ps, vs, n + 1, m);
    }
}

/// Once a prefix of the field patterns fails to match, every longer prefix fails.
proof fn lemma_fields_failure_persists(fps: Seq<(Seq<char>, PatternModel)>, fvs: Env, n: nat, m: nat)
    requires
        n <= m <= fps.len(),
        match_fields(fps, fvs, n) is None,
    ensures
        match_fields(fps, fvs, m) is None,
    decreases m - n,
{
    if n < m {
        assert(match_fields(fps, fvs, n + 1) is None);
        lemma_fields_failure_persists(fps, fvs, n + 1, m);
    }
}

/// Position of the first entry named `name`, if any.
pub fn find_entry(entries: &Vec<(String, Value)>, name: &String) -> (r: Option<usize>)
    ensures
        match r {
            Some(k) => k < entries.len() && lookup(entries_model(entries@), name@) == Some(
                entries@[k as int].1@,
            ),
            None => lookup(entries_model(entries@), name@) is None,
        },
{
    let ghost env = entries_model(entries@);
    let mut i: usize = 0;
    while i < entries.len()
        invariant
            i <= entries.len(),
            env == entries_model(entries@),
            lookup(env, name@) == lookup_from(env, name@, i as nat),
        decreases entries.len() - i,
    {
        if entries[i].0 == *name {
            return Some(i);
        }
        i += 1;
    }
    None
}

/// True when every field of the record is named by one of the field patterns.
fn record_fields_named(fvs: &Vec<(String, Value)>, fps: &Vec<(String, Pattern)>) -> (r: bool)
    ensures
        r == fields_named(entries_model(fvs@), field_pats_model(fps@)),
{
    let ghost vm = entries_model(fvs@);
    let ghost pm = field_pats_model(fps@);
    let mut k: usize = 0;
    while k < fvs.len()
        invariant
            k <= fvs.len(),
            vm.len() == fvs.len(),
            pm.len() == fps.len(),
            vm == entries_model(fvs@),
            pm == field_pats_model(fps@),
            forall|kk: int| 0 <= kk < k ==> #[trigger] named_in(pm, vm[kk].0),
        decreases fvs.len() - k,
    {
        let mut j: usize = 0;
        let mut found = false;
        while j < fps.len() && !found
            invariant
                j <= fps.len(),
                k < fvs.len(),
                vm.len() == fvs.len(),
                pm.len() == fps.len(),
                vm == entries_model(fvs@),
                pm == field_pats_model(fps@),
                found ==> named_in(pm, vm[k as int].0),
                !found ==> forall|jj: int| 0 <= jj < j ==> pm[jj].0 != vm[k as int].0,
                forall|kk: int| 0 <= kk < k ==> #[trigger] named_in(pm, vm[kk].0),
            decreases fps.len() - j,
        {
            if fps[j].0 == fvs[k].0 {
                found = true;
                assert(pm[j as int].0 == vm[k as int].0);
            }
            j += 1;
        }
        if !found {
            assert(!named_in(pm, vm[k as int].0));
            return false;
        }
        k += 1;
    }
    true
}

/// Matches one pattern against a value; on success the bindings it
/// produces, on failure none at all.
pub fn match_pattern(p: &Pattern, v: &Value) -> (r: Option<Vec<(String, Value)>>)
    ensures
        opt_entries_model(r) == match_pat(p@, v@),
    decreases p,
{
    match p {
        Pattern::Wildcard => {
            let b: Vec<(String, Value)> = Vec::new();
            assert(entries_model(b@) =~= Seq::empty());
            Some(b)
        },
        Pattern::Binding(n) => {
            let mut b: Vec<(String, Value)> = Vec::new();
            b.push((n.clone(), copy_value(v)));
            assert(entries_model(b@) =~= seq![(n@, v@)]);
            Some(b)
        },
        Pattern::LiteralEq(s) => match v {
            Value::Leaf(t) => {
                if scalars_equal(t, s) {
                    let b: Vec<(String, Value)> = Vec::new();
                    assert(entries_model(b@) =~= Seq::empty());
                    Some(b)
                } else {
                    None
                }
            },
            _ => None,
        },
        Pattern::TuplePat(ps) => match v {
            Value::Tuple(vs) => {
                if ps.len() != vs.len() {
                    return None;
                }
                let ghost pm = p@->TuplePat_0;
                let ghost vm = v@->Tuple_0;
                let mut acc: Vec<(String, Value)> = Vec::new();
                assert(entries_model(acc@) =~= Seq::empty());
                let mut i: usize = 0;
                while i < ps.len()
                    invariant
                        i <= ps.len(),
                        ps.len() == vs.len(),
                        *p == Pattern::TuplePat(*ps),
                        *v == Value::Tuple(*vs),
                        pm == p@->TuplePat_0,
                        vm == v@->Tuple_0,
                        match_elems(pm, vm, i as nat) == Some(entries_model(acc@)),
                    decreases ps.len() - i,
                {
                    proof {
                        assert(decreases_to!(*p => (*p)->TuplePat_0));
                        assert(decreases_to!(*ps => ps[i as int]));
                    }
                    match match_pattern(&ps[i], &vs[i]) {
                        None => {
                            proof {
                                lemma_elems_failure_persists(pm, vm, (i + 1) as nat, pm.len());
                            }
                            return None;
                        },
                        Some(b) => {
                            let mut b = b;
                            let ghost before = entries_model(acc@);
                            let ghost added = entries_model(b@);
                            acc.append(&mut b);
                            assert(entries_model(acc@) =~= before + added);
                        },
                    }
                    i += 1;
                }
                Some(acc)
            },
            _ => None,
        },
        Pattern::RecordPat(fps, rest_ignored) => match v {
            Value::Record(fvs) => {
                let ghost pm = p@->RecordPat_0;
                let ghost vm = v@->Record_0;
                assert(pm =~= field_pats_model(fps@));
                assert(vm =~= entries_model(fvs@));
                if !*rest_ignored && !record_fields_named(fvs, fps) {
                    return None;
                }
                let mut acc: Vec<(String, Value)> = Vec::new();
                assert(entries_model(acc@) =~= Seq::empty());
                let mut j: usize = 0;
                while j < fps.len()
                    invariant
                        j <= fps.len(),
                        *p == Pattern::RecordPat(*fps, *rest_ignored),
                        *v == Value::Record(*fvs),
                        pm == p@->RecordPat_0,
                        vm == v@->Record_0,
                        pm == field_pats_model(fps@),
                        vm == entries_model(fvs@),
                        match_fields(pm, vm, j as nat) == Some(entries_model(acc@)),
                    decreases fps.len() - j,
                {
                    match find_entry(fvs, &fps[j].0) {
                        None => {
                            proof {
                                lemma_fields_failure_persists(pm, vm, (j + 1) as nat, pm.len());
                            }
                            return None;
                        },
                        Some(k) => {
                            proof {
                                assert(decreases_to!(*p => (*p)->RecordPat_0));
                                assert(decreases_to!(*fps => fps[j as int]));
                                assert(decreases_to!(fps[j as int] => fps[j as int].1));
                            }
                            match match_pattern(&fps[j].1, &fvs[k].1) {
                                None => {
                                    proof {
                                        lemma_fields_failure_persists(
                                            pm,
                                            vm,
                                            (j + 1) as nat,
                                            pm.len(),
                                        );
                                    }
                                    return None;
                                },
                                Some(b) => {
                                    let mut b = b;
                                    let ghost before = entries_model(acc@);
                                    let ghost added = entries_model(b@);
                                    acc.append(&mut b);
                                    assert(entries_model(acc@) =~= before + added);
                                },
                            }
                        },
                    }
                    j += 1;
                }
                Some(acc)
            },
            _ => None,
        },
        Pattern::VariantPat(tag, sub) => match v {
            Value::Variant(t, payload) => {
                if *t != *tag {
                    return None;
                }
                match (sub, payload) {
                    (None, None) => {
                        let b: Vec<(String, Value)> = Vec::new();
                        assert(entries_model(b@) =~= Seq::empty());
                        Some(b)
                    },
                    (Some(q), Some(w)) => match_pattern(q, w),
                    _ => None,
                }
            },
            _ => None,
        },
    }
}

/// Evaluates a guard over the bindings of one arm.
pub fn guard_holds(g: &Guard, env: &Vec<(String, Value)>) -> (r: bool)
    ensures
        r == eval_guard(g@, entries_model(env@)),
    decreases g,
{
    match g {
        Guard::SameValue(a, b) => match (find_entry(env, a), find_entry(env, b)) {
            (Some(i), Some(j)) => values_equal(&env[i].1, &env[j].1),
            _ => false,
        },
        Guard::Equals(a, s) => match find_entry(env, a) {
            Some(i) => match &env[i].1 {
                Value::Leaf(t) => scalars_equal(t, s),
                _ => false,
            },
            None => false,
        },
        Guard::Not(h) => !guard_holds(h, env),
        Guard::All(h, k) => guard_holds(h, env) && guard_holds(k, env),
        Guard::Any(h, k) => guard_holds(h, env) || guard_holds(k, env),
    }
}

/// Tries one arm: its pattern, then its guard over exactly the bindings that
/// pattern produced.
pub fn try_arm(arm: &Arm, v: &Value) -> (r: Option<Vec<(String, Value)>>)
    ensures
        opt_entries_model(r) == arm_accepts(arm@, v@),
{
    match match_pattern(&arm.pattern, v) {
        None => None,
        Some(b) => match &arm.guard {
            None => Some(b),
            Some(g) => {
                if guard_holds(g, &b) {
                    Some(b)
                } else {
                    None
                }
            },
        },
    }
}

/// The result of matching a value against an ordered list of arms.
#[derive(Debug, PartialEq, Eq)]
pub enum MatchResult {
    Matched { arm_index: usize, bindings: Vec<(String, Value)> },
    NoMatch,
}

impl View for MatchResult {
    type V = Outcome;

    open spec fn view(&self) -> Outcome {
        match self {
            MatchResult::Matched { arm_index, bindings } => Outcome::Matched {
                arm_index: *arm_index as nat,
                bindings: entries_model(bindings@),
            },
            MatchResult::NoMatch => Outcome::NoMatch,
        }
    }
}

/// Tries the arms in order and selects the first whose pattern matches and
/// whose guard holds; `NoMatch` when none does.
pub fn attempt_match(value: &Value, arms: &[Arm]) -> (r: MatchResult)
    ensures
        r@ == outcome(value@, arms_model(arms@)),
{
    let ghost am = arms_model(arms@);
    let mut i: usize = 0;
    while i < arms.len()
        invariant
            i <= arms.len(),
            am == arms_model(arms@),
            outcome(value@, am) == select_from(am, value@, i as nat),
        decreases arms.len() - i,
    {
        match try_arm(&arms[i], value) {
            Some(b) => {
                return MatchResult::Matched { arm_index: i, bindings: b };
            },
            None => {},
        }
        i += 1;
    }
    MatchResult::NoMatch
}

} // verus!
