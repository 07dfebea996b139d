use matchkit::{
    Arm, Guard, MatchResult, Pattern, PatternError, Scalar, Value, attempt_match, copy_value,
    match_pattern, try_arm, values_equal,
};

fn name(s: &str) -> String {
    String::from(s)
}

fn leaf_int(n: i64) -> Value {
    Value::Leaf(Scalar::Int(n))
}

fn variant(tag: &str, payload: Option<Value>) -> Value {
    Value::Variant(name(tag), payload.map(Box::new))
}

fn variant_pat(tag: &str, sub: Option<Pattern>) -> Pattern {
    Pattern::VariantPat(name(tag), sub.map(Box::new))
}

fn bind(n: &str) -> Pattern {
    Pattern::Binding(name(n))
}

fn arm(pattern: Pattern, guard: Option<Guard>, action: u64) -> Arm {
    Arm::new(pattern, guard, action).unwrap()
}

fn optional_i32_arms() -> Vec<Arm> {
    vec![
        arm(variant_pat("AnI32", Some(bind("n"))), None, 10),
        arm(variant_pat("Nothing", None), None, 11),
    ]
}

fn foobar_value() -> Value {
    Value::Record(vec![
        (name("x"), leaf_int(15)),
        (name("y"), variant("AnI32", Some(leaf_int(32)))),
    ])
}

fn foobar_arms() -> Vec<Arm> {
    let same = |rest: bool| {
        Pattern::RecordPat(
            vec![
                (name("x"), bind("n")),
                (name("y"), variant_pat("AnI32", Some(bind("m")))),
            ],
            rest,
        )
    };
    vec![
        arm(
            Pattern::RecordPat(
                vec![
                    (name("x"), Pattern::LiteralEq(Scalar::Int(0))),
                    (name("y"), variant_pat("AnI32", Some(Pattern::LiteralEq(Scalar::Int(0))))),
                ],
                false,
            ),
            None,
            0,
        ),
        arm(same(false), Some(Guard::SameValue(name("n"), name("m"))), 1),
        arm(same(false), None, 2),
        arm(
            Pattern::RecordPat(
                vec![(name("x"), Pattern::Wildcard), (name("y"), variant_pat("Nothing", None))],
                false,
            ),
            None,
            3,
        ),
    ]
}

#[test]
fn variant_with_payload_binds_first_arm() {
    let r = attempt_match(&variant("AnI32", Some(leaf_int(2))), &optional_i32_arms());
    assert_eq!(r, MatchResult::Matched { arm_index: 0, bindings: vec![(name("n"), leaf_int(2))] });
}

#[test]
fn unit_variant_selects_second_arm() {
    let r = attempt_match(&variant("Nothing", None), &optional_i32_arms());
    assert_eq!(r, MatchResult::Matched { arm_index: 1, bindings: vec![] });
}

#[test]
fn failing_guard_advances_to_next_arm() {
    let arms = foobar_arms();
    let r = attempt_match(&foobar_value(), &arms);
    assert_eq!(
        r,
        MatchResult::Matched {
            arm_index: 2,
            bindings: vec![(name("n"), leaf_int(15)), (name("m"), leaf_int(32))],
        }
    );
    assert_eq!(arms[2].action, 2);
}

#[test]
fn passing_guard_selects_guarded_arm() {
    let v = Value::Record(vec![
        (name("x"), leaf_int(32)),
        (name("y"), variant("AnI32", Some(leaf_int(32)))),
    ]);
    let r = attempt_match(&v, &foobar_arms());
    assert_eq!(
        r,
        MatchResult::Matched {
            arm_index: 1,
            bindings: vec![(name("n"), leaf_int(32)), (name("m"), leaf_int(32))],
        }
    );
}

#[test]
fn record_with_nothing_selects_last_arm() {
    let v = Value::Record(vec![(name("x"), leaf_int(7)), (name("y"), variant("Nothing", None))]);
    let r = attempt_match(&v, &foobar_arms());
    assert_eq!(r, MatchResult::Matched { arm_index: 3, bindings: vec![] });
}

#[test]
fn tuple_with_wildcard_and_literal() {
    let v = Value::Tuple(vec![leaf_int(1), leaf_int(2)]);
    let arms = vec![arm(
        Pattern::TuplePat(vec![Pattern::Wildcard, Pattern::LiteralEq(Scalar::Int(2))]),
        None,
        0,
    )];
    assert_eq!(attempt_match(&v, &arms), MatchResult::Matched { arm_index: 0, bindings: vec![] });
}

#[test]
fn empty_match_set_never_matches() {
    let arms: Vec<Arm> = vec![];
    assert_eq!(attempt_match(&leaf_int(5), &arms), MatchResult::NoMatch);
    assert_eq!(attempt_match(&variant("Nothing", None), &arms), MatchResult::NoMatch);
}

#[test]
fn repeated_calls_give_identical_results() {
    let arms = foobar_arms();
    let v = foobar_value();
    let first = attempt_match(&v, &arms);
    let second = attempt_match(&v, &arms);
    assert_eq!(first, second);
}

#[test]
fn first_of_two_matching_arms_wins() {
    let arms = vec![
        arm(Pattern::LiteralEq(Scalar::Int(4)), None, 0),
        arm(bind("a"), None, 1),
        arm(Pattern::Wildcard, None, 2),
    ];
    assert_eq!(attempt_match(&leaf_int(9), &arms), MatchResult::Matched {
        arm_index: 1,
        bindings: vec![(name("a"), leaf_int(9))],
    });
    assert_eq!(attempt_match(&leaf_int(4), &arms), MatchResult::Matched { arm_index: 0, bindings: vec![] });
}

#[test]
fn failed_arm_leaves_no_bindings() {
    // the first element binds before the second fails
    let v = Value::Tuple(vec![leaf_int(1), leaf_int(2)]);
    let failing = Pattern::TuplePat(vec![bind("a"), Pattern::LiteralEq(Scalar::Int(3))]);
    assert_eq!(match_pattern(&failing, &v), None);
    let arms = vec![arm(failing, None, 0), arm(Pattern::Wildcard, None, 1)];
    assert_eq!(attempt_match(&v, &arms), MatchResult::Matched { arm_index: 1, bindings: vec![] });
    let only = vec![arm(Pattern::TuplePat(vec![bind("a"), Pattern::LiteralEq(Scalar::Int(3))]), None, 0)];
    assert_eq!(attempt_match(&v, &only), MatchResult::NoMatch);
}

#[test]
fn failed_guard_leaves_no_bindings() {
    let a = arm(bind("a"), Some(Guard::Equals(name("a"), Scalar::Int(1))), 0);
    assert_eq!(try_arm(&a, &leaf_int(2)), None);
    assert_eq!(try_arm(&a, &leaf_int(1)), Some(vec![(name("a"), leaf_int(1))]));
}

#[test]
fn tuple_arity_must_agree() {
    let pair = Pattern::TuplePat(vec![Pattern::Wildcard, Pattern::Wildcard]);
    let triple_value = Value::Tuple(vec![leaf_int(1), leaf_int(2), leaf_int(3)]);
    assert_eq!(match_pattern(&pair, &triple_value), None);
    let triple = Pattern::TuplePat(vec![Pattern::Wildcard, Pattern::Wildcard, Pattern::Wildcard]);
    let pair_value = Value::Tuple(vec![leaf_int(1), leaf_int(2)]);
    assert_eq!(match_pattern(&triple, &pair_value), None);
    assert_eq!(match_pattern(&pair, &pair_value), Some(vec![]));
}

#[test]
fn record_extra_fields_need_rest_ignored() {
    let v = Value::Record(vec![(name("x"), leaf_int(1)), (name("y"), leaf_int(2))]);
    let strict = Pattern::RecordPat(vec![(name("x"), bind("a"))], false);
    assert_eq!(match_pattern(&strict, &v), None);
    let loose = Pattern::RecordPat(vec![(name("x"), bind("a"))], true);
    assert_eq!(match_pattern(&loose, &v), Some(vec![(name("a"), leaf_int(1))]));
    let missing = Pattern::RecordPat(vec![(name("z"), Pattern::Wildcard)], true);
    assert_eq!(match_pattern(&missing, &v), None);
}

#[test]
fn record_fields_match_in_pattern_order() {
    let v = Value::Record(vec![(name("x"), leaf_int(1)), (name("y"), leaf_int(2))]);
    let p = Pattern::RecordPat(vec![(name("y"), bind("b")), (name("x"), bind("a"))], false);
    assert_eq!(match_pattern(&p, &v), Some(vec![(name("b"), leaf_int(2)), (name("a"), leaf_int(1))]));
}

#[test]
fn guard_reads_only_its_own_arm() {
    // the first arm binds "n" but fails; the guard of the second arm asks for
    // "n", which its own pattern does not bind, so it must be false
    let v = Value::Tuple(vec![leaf_int(1), leaf_int(2)]);
    let arms = vec![
        arm(Pattern::TuplePat(vec![bind("n"), Pattern::LiteralEq(Scalar::Int(9))]), None, 0),
        arm(
            Pattern::TuplePat(vec![bind("m"), Pattern::Wildcard]),
            Some(Guard::Equals(name("n"), Scalar::Int(1))),
            1,
        ),
        arm(
            Pattern::TuplePat(vec![bind("m"), Pattern::Wildcard]),
            Some(Guard::Equals(name("m"), Scalar::Int(1))),
            2,
        ),
    ];
    assert_eq!(attempt_match(&v, &arms), MatchResult::Matched {
        arm_index: 2,
        bindings: vec![(name("m"), leaf_int(1))],
    });
}

#[test]
fn guard_combinators() {
    let env = vec![(name("a"), leaf_int(1)), (name("b"), leaf_int(1)), (name("c"), leaf_int(2))];
    let same_ab = Guard::SameValue(name("a"), name("b"));
    let same_ac = Guard::SameValue(name("a"), name("c"));
    assert!(matchkit::guard_holds(&same_ab, &env));
    assert!(!matchkit::guard_holds(&same_ac, &env));
    assert!(matchkit::guard_holds(&Guard::Not(Box::new(Guard::SameValue(name("a"), name("c")))), &env));
    assert!(!matchkit::guard_holds(
        &Guard::All(Box::new(Guard::SameValue(name("a"), name("b"))), Box::new(same_ac)),
        &env
    ));
    assert!(matchkit::guard_holds(
        &Guard::Any(
            Box::new(Guard::SameValue(name("a"), name("c"))),
            Box::new(Guard::Equals(name("c"), Scalar::Int(2)))
        ),
        &env
    ));
    assert!(!matchkit::guard_holds(&Guard::SameValue(name("a"), name("zz")), &env));
}

#[test]
fn literal_compares_scalars_by_value() {
    let text = Pattern::LiteralEq(Scalar::Text(name("hi")));
    assert_eq!(match_pattern(&text, &Value::Leaf(Scalar::Text(name("hi")))), Some(vec![]));
    assert_eq!(match_pattern(&text, &Value::Leaf(Scalar::Text(name("ho")))), None);
    let yes = Pattern::LiteralEq(Scalar::Bool(true));
    assert_eq!(match_pattern(&yes, &Value::Leaf(Scalar::Bool(true))), Some(vec![]));
    assert_eq!(match_pattern(&yes, &leaf_int(1)), None);
    assert_eq!(match_pattern(&Pattern::LiteralEq(Scalar::Int(1)), &Value::Tuple(vec![])), None);
}

#[test]
fn variant_payload_presence_must_agree() {
    assert_eq!(match_pattern(&variant_pat("A", None), &variant("A", Some(leaf_int(1)))), None);
    assert_eq!(match_pattern(&variant_pat("A", Some(Pattern::Wildcard)), &variant("A", None)), None);
    assert_eq!(match_pattern(&variant_pat("B", None), &variant("A", None)), None);
}

#[test]
fn binding_holds_whole_subtree() {
    let v = variant("Wrap", Some(Value::Tuple(vec![leaf_int(1), variant("Nothing", None)])));
    let r = match_pattern(&variant_pat("Wrap", Some(bind("t"))), &v);
    assert_eq!(r, Some(vec![(name("t"), Value::Tuple(vec![leaf_int(1), variant("Nothing", None)]))]));
}

#[test]
fn duplicate_binding_is_refused() {
    let p = Pattern::TuplePat(vec![bind("a"), bind("a")]);
    assert_eq!(Arm::new(p, None, 0), Err(PatternError::DuplicateBinding));
    let nested = Pattern::RecordPat(
        vec![(name("x"), bind("a")), (name("y"), variant_pat("V", Some(bind("a"))))],
        false,
    );
    assert_eq!(Arm::new(nested, None, 0), Err(PatternError::DuplicateBinding));
}

#[test]
fn duplicate_record_field_is_refused() {
    let p = Pattern::RecordPat(vec![(name("x"), bind("a")), (name("x"), bind("b"))], false);
    assert_eq!(Arm::new(p, None, 0), Err(PatternError::DuplicateField));
    let both = Pattern::RecordPat(vec![(name("x"), bind("a")), (name("x"), bind("a"))], true);
    assert_eq!(matchkit::check_pattern(&both), Err(PatternError::DuplicateField));
}

#[test]
fn well_formed_arm_is_built() {
    let a = Arm::new(Pattern::TuplePat(vec![bind("a"), bind("b")]), None, 7).unwrap();
    assert_eq!(a.action, 7);
    assert_eq!(a.pattern, Pattern::TuplePat(vec![bind("a"), bind("b")]));
    assert_eq!(matchkit::check_pattern(&Pattern::Wildcard), Ok(()));
}

#[test]
fn record_value_refuses_repeated_field() {
    let ok = Value::record(vec![(name("x"), leaf_int(1)), (name("y"), leaf_int(2))]);
    assert_eq!(ok, Some(Value::Record(vec![(name("x"), leaf_int(1)), (name("y"), leaf_int(2))])));
    assert_eq!(Value::record(vec![(name("x"), leaf_int(1)), (name("x"), leaf_int(2))]), None);
    assert_eq!(Value::record(vec![]), Some(Value::Record(vec![])));
}

#[test]
fn structural_equality_and_copy() {
    let v = foobar_value();
    let c = copy_value(&v);
    assert_eq!(c, v);
    assert!(values_equal(&c, &v));
    let w = Value::Record(vec![
        (name("x"), leaf_int(15)),
        (name("y"), variant("AnI32", Some(leaf_int(33)))),
    ]);
    assert!(!values_equal(&v, &w));
    assert!(!values_equal(&Value::Tuple(vec![leaf_int(1)]), &Value::Tuple(vec![leaf_int(1), leaf_int(1)])));
}

#[test]
fn integer_sums() {
    assert_eq!(matchkit::add_ints(2, 3), 5);
    assert_eq!(matchkit::add_ints(-7, 3), -4);
    assert_eq!(matchkit::add_uints(40, 2), 42);
    assert_eq!(matchkit::add_uints(i32::MAX - 1, 1), i32::MAX);
}
