use vstd::prelude::*;

use crate::pattern::{Arm, ArmModel, Pattern, PatternModel, arms_model};

verus! {

/// One case of a closed enumerated type: its tag, and whether values of that
/// case carry a payload.
#[derive(Debug, PartialEq, Eq)]
pub struct CaseShape {
    pub tag: String,
    pub has_payload: bool,
}

/// Mathematical model of a case shape.
pub struct CaseShapeModel {
    pub tag: Seq<char>,
    pub has_payload: bool,
}

impl View for CaseShape {
    type V = CaseShapeModel;

    open spec fn view(&self) -> CaseShapeModel {
        CaseShapeModel { tag: self.tag@, has_payload: self.has_payload }
    }
}

/// A pattern that matches every value.
pub open spec fn irrefutable(p: PatternModel) -> bool {
    p is Wildcard || p is Binding
}

/// The pattern, at its top level, matches every value of the case.
pub open spec fn covers(p: PatternModel, c: CaseShapeModel) -> bool {
    irrefutable(p) || match p {
        PatternModel::VariantPat(tag, sub) => tag == c.tag && match sub {
            None => !c.has_payload,
            Some(q) => c.has_payload && irrefutable(*q),
        },
        _ => false,
    }
}

/// Some unguarded arm covers the case; a guarded arm never counts, since
/// its guard cannot be decided without a value.
pub open spec fn case_covered(arms: Seq<ArmModel>, c: CaseShapeModel) -> bool {
    exists|k: int| 0 <= k < arms.len() && #[trigger] arms[k].guard is None && covers(arms[k].pattern, c)
}

/// Positions, in increasing order, of the first `n` cases that no arm covers.
pub open spec fn uncovered_upto(arms: Seq<ArmModel>, cases: Seq<CaseShapeModel>, n: nat) -> Seq<int>
    decreases n,
{
    if n == 0 || n > cases.len() {
        Seq::empty()
    } else if case_covered(arms, cases[n - 1]) {
        uncovered_upto(arms, cases, (n - 1) as nat)
    } else {
        uncovered_upto(arms, cases, (n - 1) as nat).push(n - 1)
    }
}

/// The models of a list of case shapes.
pub open spec fn cases_model(cases: Seq<CaseShape>) -> Seq<CaseShapeModel> {
    cases.map_values(|c: CaseShape| c@)
}

fn is_irrefutable(p: &Pattern) -> (r: bool)
    ensures
        r == irrefutable(p@),
{
    match p {
        Pattern::Wildcard => true,
        Pattern::Binding(_) => true,
        _ => false,
    }
}

fn arm_covers(arm: &Arm, c: &CaseShape) -> (r: bool)
    ensures
        r == (arm@.guard is None && covers(arm@.pattern, c@)),
{
    if arm.guard.is_some() {
        return false;
    }
    if is_irrefutable(&arm.pattern) {
        return true;
    }
    match &arm.pattern {
        Pattern::VariantPat(tag, sub) => {
            if *tag != c.tag {
                return false;
            }
            match sub {
                None => !c.has_payload,
                Some(q) => c.has_payload && is_irrefutable(q),
            }
        },
        _ => false,
    }
}

/// Positions of the cases of a closed type that no arm of the list covers
/// at its top level: the report of a static exhaustiveness check.
pub fn uncovered_cases(arms: &[Arm], cases: &[CaseShape]) -> (r: Vec<usize>)
    ensures
        r@.map_values(|i: usize| i as int) == uncovered_upto(
            arms_model(arms@),
            cases_model(cases@),
            cases@.len(),
        ),
{
    let ghost am = arms_model(arms@);
    let ghost cm = cases_model(cases@);
    let mut out: Vec<usize> = Vec::new();
    let mut n: usize = 0;
    while n < cases.len()
        invariant
            n <= cases.len(),
            am == arms_model(arms@),
            cm == cases_model(cases@),
            out@.map_values(|i: usize| i as int) == uncovered_upto(am, cm, n as nat),
        decreases cases.len() - n,
    {
        let mut covered = false;
        let mut k: usize = 0;
        while k < arms.len() && !covered
            invariant
                k <= arms.len(),
                n < cases.len(),
                am == arms_model(arms@),
                cm == cases_model(cases@),
                covered ==> case_covered(am, cm[n as int]),
                !covered ==> forall|m: int|
                    0 <= m < k ==> !(#[trigger] am[m].guard is None && covers(am[m].pattern, cm[n as int])),
            decreases arms.len() - k,
        {
            if arm_covers(&arms[k], &cases[n]) {
                covered = true;
                assert(am[k as int].guard is None && covers(am[k as int].pattern, cm[n as int]));
            }
            k += 1;
        }
        let ghost before = out@.map_values(|i: usize| i as int);
        if !covered {
            out.push(n);
            assert(out@.map_values(|i: usize| i as int) =~= before.push(n as int));
        }
        n += 1;
    }
    out
}

} // verus!
