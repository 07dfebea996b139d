use vstd::prelude::*;

use crate::value::{Scalar, ScalarModel, all_distinct};

verus! {

/// A pattern tree, structurally parallel to values, plus wildcards,
/// variable bindings and literal comparisons.
#[derive(Debug, PartialEq, Eq)]
pub enum Pattern {
    /// Matches anything and binds nothing.
    Wildcard,
    /// Matches anything and binds the name to the whole matched value.
    Binding(String),
    /// Matches a leaf holding an equal scalar.
    LiteralEq(Scalar),
    /// Matches a tuple of the same arity, element by element.
    TuplePat(Vec<Pattern>),
    /// Matches a record whose named fields match; when the flag is false the
    /// record must have no fields beyond those named.
    RecordPat(Vec<(String, Pattern)>, bool),
    /// Matches a variant with the same tag, and its payload if given.
    VariantPat(String, Option<Box<Pattern>>),
}

/// Mathematical model of a pattern tree.
pub enum PatternModel {
    Wildcard,
    Binding(Seq<char>),
    LiteralEq(ScalarModel),
    TuplePat(Seq<PatternModel>),
    RecordPat(Seq<(Seq<char>, PatternModel)>, bool),
    VariantPat(Seq<char>, Option<Box<PatternModel>>),
}

/// The model of a pattern tree, built recursively.
pub open spec fn pattern_model(p: &Pattern) -> PatternModel
    decreases p,
{
    match p {
        Pattern::Wildcard => PatternModel::Wildcard,
        Pattern::Binding(n) => PatternModel::Binding(n@),
        Pattern::LiteralEq(s) => PatternModel::LiteralEq(s@),
        Pattern::TuplePat(ps) => PatternModel::TuplePat(
            Seq::new(
                ps.len() as nat,
                |i: int|
                    if 0 <= i < ps.len() {
                        pattern_model(&ps[i])
                    } else {
                        PatternModel::Wildcard
                    },
            ),
        ),
        Pattern::RecordPat(fs, rest) => PatternModel::RecordPat(
            Seq::new(
                fs.len() as nat,
                |i: int|
                    if 0 <= i < fs.len() {
                        (fs[i].0@, pattern_model(&fs[i].1))
                    } else {
                        (Seq::empty(), PatternModel::Wildcard)
                    },
            ),
            *rest,
        ),
        Pattern::VariantPat(tag, sub) => PatternModel::VariantPat(
            tag@,
            match sub {
                Some(q) => Some(Box::new(pattern_model(q))),
                None => None,
            },
        ),
    }
}

impl View for Pattern {
    type V = PatternModel;

    open spec fn view(&self) -> PatternModel {
        pattern_model(self)
    }
}

/// A side-effect-free condition over the bindings of one arm.
#[derive(Debug, PartialEq, Eq)]
pub enum Guard {
    /// Both names are bound, to structurally equal values.
    SameValue(String, String),
    /// The name is bound to a leaf holding this scalar.
    Equals(String, Scalar),
    Not(Box<Guard>),
    All(Box<Guard>, Box<Guard>),
    Any(Box<Guard>, Box<Guard>),
}

/// Mathematical model of a guard.
pub enum GuardModel {
    SameValue(Seq<char>, Seq<char>),
    Equals(Seq<char>, ScalarModel),
    Not(Box<GuardModel>),
    All(Box<GuardModel>, Box<GuardModel>),
    Any(Box<GuardModel>, Box<GuardModel>),
}

/// The model of a guard, built recursively.
pub open spec fn guard_model(g: &Guard) -> GuardModel
    decreases g,
{
    match g {
        Guard::SameValue(a, b) => GuardModel::SameValue(a@, b@),
        Guard::Equals(a, s) => GuardModel::Equals(a@, s@),
        Guard::Not(h) => GuardModel::Not(Box::new(guard_model(h))),
        Guard::All(h, k) => GuardModel::All(Box::new(guard_model(h)), Box::new(guard_model(k))),
        Guard::Any(h, k) => GuardModel::Any(Box::new(guard_model(h)), Box::new(guard_model(k))),
    }
}

impl View for Guard {
    type V = GuardModel;

    open spec fn view(&self) -> GuardModel {
        guard_model(self)
    }
}

/// One match arm: a pattern, an optional guard and the token of the action
/// that the caller runs when the arm is selected.
#[derive(Debug, PartialEq, Eq)]
pub struct Arm {
    pub pattern: Pattern,
    pub guard: Option<Guard>,
    pub action: u64,
}

/// Mathematical model of an arm.
pub struct ArmModel {
    pub pattern: PatternModel,
    pub guard: Option<GuardModel>,
    pub action: u64,
}

impl View for Arm {
    type V = ArmModel;

    open spec fn view(&self) -> ArmModel {
        ArmModel {
            pattern: self.pattern@,
            guard: match self.guard {
                Some(g) => Some(g@),
                None => None,
            },
            action: self.action,
        }
    }
}

/// The models of a list of arms, in order.
pub open spec fn arms_model(arms: Seq<Arm>) -> Seq<ArmModel> {
    arms.map_values(|a: Arm| a@)
}

/// Why a pattern was refused when its arm was built.
#[derive(Debug, PartialEq, Eq)]
pub enum PatternError {
    /// Some record pattern names one field twice.
    DuplicateField,
    /// Two binding sub-patterns use the same name.
    DuplicateBinding,
}

/// The names that a pattern binds, in the order in which matching binds them.
pub open spec fn binders(p: PatternModel) -> Seq<Seq<char>>
    decreases p, 0nat,
{
    match p {
        PatternModel::Binding(n) => seq![n],
        PatternModel::TuplePat(ps) => elem_binders(ps, ps.len()),
        PatternModel::RecordPat(fs, _) => field_binders(fs, fs.len()),
        PatternModel::VariantPat(_, Some(q)) => binders(*q),
        _ => Seq::empty(),
    }
}

/// The names bound by the first `n` element patterns.
pub open spec fn elem_binders(ps: Seq<PatternModel>, n: nat) -> Seq<Seq<char>>
    decreases ps, n,
{
    if n == 0 || n > ps.len() {
        Seq::empty()
    } else {
        elem_binders(ps, (n - 1) as nat) + binders(ps[n - 1])
    }
}

/// The names bound by the first `n` field patterns.
pub open spec fn field_binders(fs: Seq<(Seq<char>, PatternModel)>, n: nat) -> Seq<Seq<char>>
    decreases fs, n,
{
    if n == 0 || n > fs.len() {
        Seq::empty()
    } else {
        proof {
            assert(decreases_to!(fs => fs[n - 1]));
        }
        field_binders(fs, (n - 1) as nat) + binders(fs[n - 1].1)
    }
}

/// True when every record pattern inside `p` names each field at most once.
pub open spec fn fields_distinct(p: PatternModel) -> bool
    decreases p, 0nat,
{
    match p {
        PatternModel::TuplePat(ps) => elems_fields_distinct(ps, ps.len()),
        PatternModel::RecordPat(fs, _) => all_distinct(fs.map_values(|f: (Seq<char>, PatternModel)| f.0))
            && subfields_distinct(fs, fs.len()),
        PatternModel::VariantPat(_, Some(q)) => fields_distinct(*q),
        _ => true,
    }
}

/// `fields_distinct` of each of the first `n` element patterns.
pub open spec fn elems_fields_distinct(ps: Seq<PatternModel>, n: nat) -> bool
    decreases ps, n,
{
    if n == 0 || n > ps.len() {
        true
    } else {
        elems_fields_distinct(ps, (n - 1) as nat) && fields_distinct(ps[n - 1])
    }
}

/// `fields_distinct` of each of the first `n` field patterns.
pub open spec fn subfields_distinct(fs: Seq<(Seq<char>, PatternModel)>, n: nat) -> bool
    decreases fs, n,
{
    if n == 0 || n > fs.len() {
        true
    } else {
        proof {
            assert(decreases_to!(fs => fs[n - 1]));
        }
        subfields_distinct(fs, (n - 1) as nat) && fields_distinct(fs[n - 1].1)
    }
}

/// A pattern that can stand in an arm: record fields and bound names are
/// each unique.
pub open spec fn pattern_well_formed(p: PatternModel) -> bool {
    fields_distinct(p) && all_distinct(binders(p))
}

/// The models of a list of names.
pub open spec fn names_model(names: Seq<String>) -> Seq<Seq<char>> {
    names.map_values(|s: String| s@)
}

/// True when no two of the names are equal.
pub fn names_distinct(names: &Vec<String>) -> (r: bool)
    ensures
        r == all_distinct(names_model(names@)),
{
    let ghost nm = names_model(names@);
    let mut i: usize = 0;
    while i < names.len()
        invariant
            i <= names.len(),
            nm == names_model(names@),
            forall|a: int, b: int| 0 <= a < i && a < b < nm.len() ==> nm[a] != nm[b],
        decreases names.len() - i,
    {
        let mut j: usize = i + 1;
        while j < names.len()
            invariant
                i < j <= names.len(),
                nm == names_model(names@),
                forall|a: int, b: int| 0 <= a < i && a < b < nm.len() ==> nm[a] != nm[b],
                forall|b: int| i < b < j ==> nm[i as int] != nm[b],
            decreases names.len() - j,
        {
            if names[i] == names[j] {
                assert(nm[i as int] == nm[j as int]);
                return false;
            }
            j += 1;
        }
        i += 1;
    }
    true
}

/// Whether every record pattern inside `p` names each field at most once.
fn fields_ok(p: &Pattern) -> (r: bool)
    ensures
        r == fields_distinct(p@),
    decreases p,
{
    match p {
        Pattern::TuplePat(ps) => {
            let ghost pm = p@->TuplePat_0;
            let mut i: usize = 0;
            while i < ps.len()
                invariant
                    i <= ps.len(),
                    *p == Pattern::TuplePat(*ps),
                    pm == p@->TuplePat_0,
                    elems_fields_distinct(pm, i as nat),
                decreases ps.len() - i,
            {
                proof {
                    assert(decreases_to!(*p => (*p)->TuplePat_0));
                    assert(decreases_to!(*ps => ps[i as int]));
                }
                if !fields_ok(&ps[i]) {
                    proof {
                        lemma_elems_distinct_failure_persists(pm, (i + 1) as nat, pm.len());
                    }
                    return false;
                }
                i += 1;
            }
            true
        },
        Pattern::RecordPat(fs, _) => {
            let ghost pm = p@->RecordPat_0;
            let mut names: Vec<String> = Vec::new();
            let mut i: usize = 0;
            while i < fs.len()
                invariant
                    i <= fs.len(),
                    *p == Pattern::RecordPat(*fs, p->RecordPat_1),
                    pm == p@->RecordPat_0,
                    names.len() == i,
                    forall|k: int| 0 <= k < i ==> names[k]@ == pm[k].0,
                    subfields_distinct(pm, i as nat),
                decreases fs.len() - i,
            {
                proof {
                    assert(decreases_to!(*p => (*p)->RecordPat_0));
                    assert(decreases_to!(*fs => fs[i as int]));
                    assert(decreases_to!(fs[i as int] => fs[i as int].1));
                }
                if !fields_ok(&fs[i].1) {
                    proof {
                        lemma_subfields_distinct_failure_persists(pm, (i + 1) as nat, pm.len());
                    }
                    return false;
                }
                names.push(fs[i].0.clone());
                i += 1;
            }
            assert(names_model(names@) =~= pm.map_values(|f: (Seq<char>, PatternModel)| f.0));
            names_distinct(&names)
        },
        Pattern::VariantPat(_, Some(q)) => fields_ok(q),
        _ => true,
    }
}

proof fn lemma_elems_distinct_failure_persists(ps: Seq<PatternModel>, n: nat, m: nat)
    requires
        n <= m <= ps.len(),
        !elems_fields_distinct(ps, n),
    ensures
        !elems_fields_distinct(ps, m),
    decreases m - n,
{
    if n < m {
        lemma_elems_distinct_failure_persists(ps, n + 1, m);
    }
}

proof fn lemma_subfields_distinct_failure_persists(
    fs: Seq<(Seq<char>, PatternModel)>,
    n: nat,
    m: nat,
)
    requires
        n <= m <= fs.len(),
        !subfields_distinct(fs, n),
    ensures
        !subfields_distinct(fs, m),
    decreases m - n,
{
    if n < m {
        lemma_subfields_distinct_failure_persists(fs, n + 1, m);
    }
}

/// Appends the names that `p` binds, in binding order.
fn collect_binders(p: &Pattern, out: &mut Vec<String>)
    ensures
        names_model(final(out)@) == names_model(old(out)@) + binders(p@),
    decreases p,
{
    let ghost start = names_model(out@);
    match p {
        Pattern::Binding(n) => {
            out.push(n.clone());
            assert(names_model(out@) =~= start + binders(p@));
        },
        Pattern::TuplePat(ps) => {
            let ghost pm = p@->TuplePat_0;
            let mut i: usize = 0;
            assert(names_model(out@) =~= start + elem_binders(pm, 0));
            while i < ps.len()
                invariant
                    i <= ps.len(),
                    *p == Pattern::TuplePat(*ps),
                    pm == p@->TuplePat_0,
                    names_model(out@) == start + elem_binders(pm, i as nat),
                decreases ps.len() - i,
            {
                proof {
                    assert(decreases_to!(*p => (*p)->TuplePat_0));
                    assert(decreases_to!(*ps => ps[i as int]));
                }
                collect_binders(&ps[i], out);
                assert(names_model(out@) =~= start + elem_binders(pm, (i + 1) as nat));
                i += 1;
            }
        },
        Pattern::RecordPat(fs, _) => {
            let ghost pm = p@->RecordPat_0;
            let mut i: usize = 0;
            assert(names_model(out@) =~= start + field_binders(pm, 0));
            while i < fs.len()
                invariant
                    i <= fs.len(),
                    *p == Pattern::RecordPat(*fs, p->RecordPat_1),
                    pm == p@->RecordPat_0,
                    names_model(out@) == start + field_binders(pm, i as nat),
                decreases fs.len() - i,
            {
                proof {
                    assert(decreases_to!(*p => (*p)->RecordPat_0));
                    assert(decreases_to!(*fs => fs[i as int]));
                    assert(decreases_to!(fs[i as int] => fs[i as int].1));
                }
                collect_binders(&fs[i].1, out);
                assert(names_model(out@) =~= start + field_binders(pm, (i + 1) as nat));
                i += 1;
            }
        },
        Pattern::VariantPat(_, Some(q)) => {
            collect_binders(q, out);
        },
        _ => {
            assert(names_model(out@) =~= start + binders(p@));
        },
    }
}

/// Checks a pattern for the errors that must be reported before any match:
/// a record pattern naming one field twice, then a name bound twice.
pub fn check_pattern(p: &Pattern) -> (r: Result<(), PatternError>)
    ensures
        !fields_distinct(p@) ==> r == Err::<(), PatternError>(PatternError::DuplicateField),
        fields_distinct(p@) && !all_distinct(binders(p@)) ==> r == Err::<(), PatternError>(
            PatternError::DuplicateBinding,
        ),
        pattern_well_formed(p@) ==> r is Ok,
{
    if !fields_ok(p) {
        return Err(PatternError::DuplicateField);
    }
    let mut names: Vec<String> = Vec::new();
    collect_binders(p, &mut names);
    assert(names_model(names@) =~= binders(p@));
    if !names_distinct(&names) {
        return Err(PatternError::DuplicateBinding);
    }
    Ok(())
}

impl Arm {
    /// Builds an arm, refusing a pattern that names a record field twice or
    /// binds a name twice.
    pub fn new(pattern: Pattern, guard: Option<Guard>, action: u64) -> (r: Result<Arm, PatternError>)
        ensures
            !fields_distinct(pattern@) ==> r == Err::<Arm, PatternError>(
                PatternError::DuplicateField,
            ),
            fields_distinct(pattern@) && !all_distinct(binders(pattern@)) ==> r == Err::<
                Arm,
                PatternError,
            >(PatternError::DuplicateBinding),
            pattern_well_formed(pattern@) ==> r == Ok::<Arm, PatternError>(
                Arm { pattern, guard, action },
            ),
    {
        match check_pattern(&pattern) {
            Err(e) => Err(e),
            Ok(()) => Ok(Arm { pattern, guard, action }),
        }
    }
}

} // verus!
