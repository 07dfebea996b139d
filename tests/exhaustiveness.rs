use matchkit::{Arm, CaseShape, Guard, Pattern, Value, attempt_match, uncovered_cases};

fn name(s: &str) -> String {
    String::from(s)
}

fn optional_i32() -> Vec<CaseShape> {
    vec![
        CaseShape { tag: name("AnI32"), has_payload: true },
        CaseShape { tag: name("Nothing"), has_payload: false },
    ]
}

fn variant_arm(tag: &str, sub: Option<Pattern>, guard: Option<Guard>) -> Arm {
    Arm::new(Pattern::VariantPat(name(tag), sub.map(Box::new)), guard, 0).unwrap()
}

#[test]
fn all_cases_covered() {
    let arms = vec![
        variant_arm("AnI32", Some(Pattern::Binding(name("n"))), None),
        variant_arm("Nothing", None, None),
    ];
    assert_eq!(uncovered_cases(&arms, &optional_i32()), Vec::<usize>::new());
}

#[test]
fn missing_case_is_reported() {
    let arms = vec![variant_arm("AnI32", Some(Pattern::Binding(name("n"))), None)];
    assert_eq!(uncovered_cases(&arms, &optional_i32()), vec![1]);
}

#[test]
fn guarded_arm_does_not_cover() {
    let arms = vec![
        variant_arm(
            "AnI32",
            Some(Pattern::Binding(name("n"))),
            Some(Guard::Equals(name("n"), matchkit::Scalar::Int(0))),
        ),
        variant_arm("Nothing", None, None),
    ];
    assert_eq!(uncovered_cases(&arms, &optional_i32()), vec![0]);
}

#[test]
fn refutable_payload_does_not_cover() {
    let arms = vec![variant_arm("AnI32", Some(Pattern::LiteralEq(matchkit::Scalar::Int(2))), None)];
    assert_eq!(uncovered_cases(&arms, &optional_i32()), vec![0, 1]);
}

#[test]
fn wildcard_covers_everything() {
    let arms = vec![Arm::new(Pattern::Wildcard, None, 0).unwrap()];
    assert_eq!(uncovered_cases(&arms, &optional_i32()), Vec::<usize>::new());
    let none: Vec<Arm> = vec![];
    assert_eq!(uncovered_cases(&none, &optional_i32()), vec![0, 1]);
}

#[test]
fn covered_case_values_always_match() {
    let arms = vec![
        variant_arm("AnI32", Some(Pattern::Wildcard), None),
        variant_arm("Nothing", None, None),
    ];
    assert!(uncovered_cases(&arms, &optional_i32()).is_empty());
    let a = Value::Variant(name("AnI32"), Some(Box::new(Value::Tuple(vec![]))));
    let b = Value::Variant(name("Nothing"), None);
    assert!(matches!(attempt_match(&a, &arms), matchkit::MatchResult::Matched { arm_index: 0, .. }));
    assert!(matches!(attempt_match(&b, &arms), matchkit::MatchResult::Matched { arm_index: 1, .. }));
}
