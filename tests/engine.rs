use zekuromu::data::{DataKey, DataKeyPath, OperatorData, RawData};
use zekuromu::engine::{merge_all, render, OperatorPayload, RenderError};
use zekuromu::expr::{Expr, Reference, StringLiteral};
use zekuromu::operators::{
    ExpectOperator, GrabOperator, NativeOperator, NativePayload, OperatorExecutionErrorReason,
    OperatorParsingErrorReason, OperatorPriority, OperatorPriorityRank, OperatorSource,
    ParamOperator,
};

fn key(s: &str) -> DataKey {
    DataKey(s.to_owned())
}

fn num(x: f64) -> RawData {
    RawData::Number(x.to_bits())
}

fn text(s: &str) -> RawData {
    RawData::String(s.to_owned())
}

fn map(entries: Vec<(&str, RawData)>) -> RawData {
    RawData::Mapping(entries.into_iter().map(|(k, v)| (key(k), v)).collect())
}

fn path(keys: &[&str]) -> DataKeyPath {
    DataKeyPath(keys.iter().map(|k| DataKey(k.to_string())).collect())
}

fn dump(d: &OperatorData) -> String {
    format!("{:?}", d)
}

fn onum(x: f64) -> OperatorData {
    OperatorData::Number(x.to_bits())
}

fn omap(entries: Vec<(&str, OperatorData)>) -> OperatorData {
    OperatorData::Mapping(entries.into_iter().map(|(k, v)| (key(k), v)).collect())
}

#[test]
fn param_fails_before_grab_resolves() {
    let base = map(vec![("a", num(1.0)), ("b", map(vec![("x", num(1.0))]))]);
    let overlay = map(vec![
        ("b", map(vec![("y", text("((param))"))])),
        ("c", text("((grab &a))")),
    ]);
    let merged = merge_all(base, &vec![overlay]);
    match render(merged) {
        Err(RenderError::Execution((p, OperatorExecutionErrorReason::OtherError(msg)))) => {
            assert_eq!(p, path(&["b", "y"]));
            assert_eq!(msg, "At path '\"b\".\"y\"', expected a parameter to be overriden");
        },
        other => panic!("unexpected {:?}", other),
    }
}

#[test]
fn grab_copies_the_referenced_value() {
    let base = map(vec![("a", num(5.0))]);
    let overlay = map(vec![("b", text("((grab &a))"))]);
    let merged = merge_all(base, &vec![overlay]);
    let resolved = render(merged).unwrap();
    assert_eq!(dump(&resolved), dump(&omap(vec![("a", onum(5.0)), ("b", onum(5.0))])));
}

#[test]
fn grab_reaches_into_sequences_and_mappings() {
    let doc = map(vec![
        ("list", RawData::Sequence(vec![num(1.0), map(vec![("deep", text("v"))])])),
        ("g", text("((grab &list.1.deep))")),
        ("h", text("((grab &list))")),
    ]);
    let resolved = render(doc).unwrap();
    let expected = omap(vec![
        (
            "list",
            OperatorData::Sequence(vec![onum(1.0), omap(vec![("deep", OperatorData::String("v".to_owned()))])]),
        ),
        ("g", OperatorData::String("v".to_owned())),
        (
            "h",
            OperatorData::Sequence(vec![onum(1.0), omap(vec![("deep", OperatorData::String("v".to_owned()))])]),
        ),
    ]);
    assert_eq!(dump(&resolved), dump(&expected));
}

#[test]
fn grab_of_a_missing_value_fails() {
    let doc = map(vec![("a", num(1.0)), ("b", text("((grab &nope))"))]);
    match render(doc) {
        Err(RenderError::Execution((p, OperatorExecutionErrorReason::ReferenceUnavailable))) => {
            assert_eq!(p, path(&["b"]));
        },
        other => panic!("unexpected {:?}", other),
    }
    let doc = map(vec![("a", RawData::Sequence(vec![num(1.0)])), ("b", text("((grab &a.3))"))]);
    assert!(matches!(
        render(doc),
        Err(RenderError::Execution((_, OperatorExecutionErrorReason::ReferenceUnavailable)))
    ));
}

#[test]
fn expect_fails_with_its_message() {
    let doc = map(vec![(
        "s",
        RawData::Sequence(vec![num(1.0), text("((expect \"needed\"))")]),
    )]);
    match render(doc) {
        Err(RenderError::Execution((p, OperatorExecutionErrorReason::OtherError(msg)))) => {
            assert_eq!(p, path(&["s", "1"]));
            assert_eq!(msg, "At path '\"s\".\"1\"', expected a value. Message: 'needed'");
        },
        other => panic!("unexpected {:?}", other),
    }
}

#[test]
fn grab_leaves_plain_values_alone() {
    let doc = map(vec![("a", num(2.0)), ("b", text("((grab &a))")), ("c", text("plain"))]);
    let resolved = render(doc).unwrap();
    assert_eq!(
        dump(&resolved),
        dump(&omap(vec![
            ("a", onum(2.0)),
            ("b", onum(2.0)),
            ("c", OperatorData::String("plain".to_owned()))
        ]))
    );
}

#[test]
fn shape_errors_name_the_kind() {
    let e = Expr::try_parse("((expect))").unwrap();
    let err = NativeOperator::try_parsing_operator(&e).unwrap_err();
    assert_eq!(err, (Some(NativeOperator::Expect), OperatorParsingErrorReason::ArgumentsLengthDoesNotMatch));

    let e = Expr::try_parse("((expect &a))").unwrap();
    let err = NativeOperator::try_parsing_operator(&e).unwrap_err();
    assert_eq!(err, (Some(NativeOperator::Expect), OperatorParsingErrorReason::ArgumentsTypesDoNotMatch));

    let e = Expr::try_parse("((grab \"a\"))").unwrap();
    let err = NativeOperator::try_parsing_operator(&e).unwrap_err();
    assert_eq!(err, (Some(NativeOperator::Grab), OperatorParsingErrorReason::ArgumentsTypesDoNotMatch));

    let e = Expr::try_parse("((param 1))").unwrap();
    let err = NativeOperator::try_parsing_operator(&e).unwrap_err();
    assert_eq!(err, (Some(NativeOperator::Param), OperatorParsingErrorReason::ArgumentsLengthDoesNotMatch));

    let e = Expr::try_parse("((unknown))").unwrap();
    let err = NativeOperator::try_parsing_operator(&e).unwrap_err();
    assert_eq!(err, (None, OperatorParsingErrorReason::NoneMatched));
}

#[test]
fn dispatch_builds_each_kind() {
    let op = NativeOperator::try_parsing_operator(&Expr::try_parse("((expect \"m\"))").unwrap()).unwrap();
    assert_eq!(op.priority, OperatorPriorityRank::Last);
    assert!(matches!(op.payload, NativePayload::Expect(ExpectOperator { .. })));
    let op = NativeOperator::try_parsing_operator(&Expr::try_parse("((grab &a.b))").unwrap()).unwrap();
    assert_eq!(op.priority, OperatorPriorityRank::AfterFirst);
    assert!(matches!(op.payload, NativePayload::Grab(GrabOperator { .. })));
    let op = NativeOperator::try_parsing_operator(&Expr::try_parse("((param))").unwrap()).unwrap();
    assert_eq!(op.priority, OperatorPriorityRank::AfterFirst);
    assert!(matches!(op.payload, NativePayload::Param(ParamOperator {})));
    assert_eq!(ParamOperator {}.priority(), OperatorPriorityRank::AfterFirst);
}

#[test]
fn refused_call_fails_the_conversion() {
    let doc = map(vec![("a", text("((grab 1))")), ("b", text("((expect))"))]);
    match doc.into_operator_data() {
        Err(err) => assert_eq!(err, (Some(NativeOperator::Grab), OperatorParsingErrorReason::ArgumentsTypesDoNotMatch)),
        Ok(d) => panic!("unexpected {:?}", d),
    }
    let doc = map(vec![("a", text("((grab &a)) tail")), ("b", text("(( param ))"))]);
    match doc.into_operator_data() {
        Ok(OperatorData::Mapping(es)) => {
            assert!(matches!(&es[0].1, OperatorData::String(s) if s == "((grab &a)) tail"));
            assert!(matches!(&es[1].1, OperatorData::Operator(_)));
        },
        other => panic!("unexpected {:?}", other),
    }
}

#[test]
fn document_without_operators_is_unchanged() {
    let doc = map(vec![("a", num(1.0)), ("b", RawData::Sequence(vec![RawData::Null, text("x")]))]);
    let resolved = render(doc).unwrap();
    assert_eq!(
        dump(&resolved),
        dump(&omap(vec![
            ("a", onum(1.0)),
            ("b", OperatorData::Sequence(vec![OperatorData::Null, OperatorData::String("x".to_owned())]))
        ]))
    );
}

#[test]
fn calls_are_parsed_before_they_are_checked() {
    let doc = map(vec![("a", text("((nosuch 1))")), ("b", text("plain"))]);
    let raw = doc.into_raw_operator_data();
    match &raw {
        zekuromu::data::RawOperatorData::Mapping(es) => {
            assert!(matches!(&es[0].1, zekuromu::data::RawOperatorData::RawOperator(e) if e.name.0 == "nosuch"));
            assert!(matches!(&es[1].1, zekuromu::data::RawOperatorData::String(s) if s == "plain"));
        },
        other => panic!("unexpected {:?}", other),
    }
    let err = raw.try_into_operator_data().unwrap_err();
    assert_eq!(err, (None, OperatorParsingErrorReason::NoneMatched));
}

#[test]
fn payloads_execute_on_their_own() {
    let tree = omap(vec![("a", onum(3.0))]);
    let here = path(&["x"]);
    let grab = GrabOperator { reference: Reference(vec!["a".to_owned()]) };
    assert_eq!(dump(&grab.execute(&tree, &here).unwrap()), dump(&onum(3.0)));
    let missing = GrabOperator { reference: Reference(vec!["b".to_owned()]) };
    assert_eq!(
        missing.execute(&tree, &here).unwrap_err(),
        OperatorExecutionErrorReason::ReferenceUnavailable
    );
    let expect = ExpectOperator { error_msg: StringLiteral("why".to_owned()) };
    assert_eq!(
        expect.execute(&tree, &here).unwrap_err(),
        OperatorExecutionErrorReason::OtherError("At path '\"x\"', expected a value. Message: 'why'".to_owned())
    );
    assert_eq!(
        ParamOperator {}.execute(&tree, &DataKeyPath::empty()).unwrap_err(),
        OperatorExecutionErrorReason::OtherError("At path '\"\"', expected a parameter to be overriden".to_owned())
    );
}

#[test]
fn operators_are_tagged_with_their_kind() {
    for (text, kind) in [
        ("((expect \"m\"))", NativeOperator::Expect),
        ("((param))", NativeOperator::Param),
        ("((grab &a))", NativeOperator::Grab),
    ] {
        let op = NativeOperator::try_parsing_operator(&Expr::try_parse(text).unwrap()).unwrap();
        assert_eq!(op.source, OperatorSource::Native(kind));
    }
}
