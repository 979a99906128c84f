use zekuromu::expr::{
    parse_bin_integer, parse_hex_integer, parse_number_literal, parse_oct_integer,
    parse_operator_name, Argument, Expr, NumberLiteral, OperatorName, Reference, StringLiteral,
};

#[test]
fn test_operator_parser() {
    assert_eq!(parse_operator_name("toto").unwrap(), OperatorName("toto".to_owned()));
    assert_ne!(parse_operator_name("tata").unwrap(), OperatorName("toto".to_owned()));

    assert_eq!(parse_operator_name("a123").unwrap(), OperatorName("a123".to_owned()));
    assert_ne!(parse_operator_name("a321").unwrap(), OperatorName("a123".to_owned()));

    assert!(parse_operator_name("").is_none());

    assert!(parse_operator_name("123").is_none());
    assert!(parse_operator_name("1ab").is_none());
    assert!(parse_operator_name("a.b").is_none());

    assert!(parse_operator_name("").is_none());
    assert!(parse_operator_name(" ").is_none());
    assert!(parse_operator_name(" toto").is_none());
    assert!(parse_operator_name("toto ").is_none());
    assert!(parse_operator_name("toto tata").is_none());
    assert!(parse_operator_name(" toto tata ").is_none());
}

#[test]
fn test_hex_parser() {
    assert_eq!(parse_hex_integer("0x123").unwrap(), NumberLiteral::Hex("123".to_owned()));
    assert_eq!(parse_hex_integer("0XAbCd").unwrap(), NumberLiteral::Hex("abcd".to_owned()));

    assert!(parse_hex_integer("0xdefg").is_none());
    assert!(parse_hex_integer("x123abc").is_none());
    assert!(parse_hex_integer("X123abc").is_none());
    assert!(parse_hex_integer("0123abc").is_none());
    assert!(parse_hex_integer("123abc").is_none());

    assert!(parse_hex_integer("0o123").is_none());
    assert!(parse_hex_integer("0b10").is_none());

    assert!(parse_hex_integer("").is_none());
    assert!(parse_hex_integer(" ").is_none());
    assert!(parse_hex_integer(" 0x123").is_none());
    assert!(parse_hex_integer("0x123 ").is_none());
    assert!(parse_hex_integer("0x123 0xabc").is_none());
    assert!(parse_hex_integer(" 0x123 0xabc ").is_none());
}

#[test]
fn test_oct_parser() {
    assert_eq!(parse_oct_integer("0o123").unwrap(), NumberLiteral::Oct("123".to_owned()));
    assert_eq!(parse_oct_integer("0O4567").unwrap(), NumberLiteral::Oct("4567".to_owned()));

    assert!(parse_oct_integer("0o78").is_none());
    assert!(parse_oct_integer("0o7a").is_none());
    assert!(parse_oct_integer("o123").is_none());
    assert!(parse_oct_integer("O123").is_none());
    assert!(parse_oct_integer("0123").is_none());
    assert!(parse_oct_integer("123").is_none());

    assert!(parse_oct_integer("0x123").is_none());
    assert!(parse_oct_integer("0b10").is_none());

    assert!(parse_oct_integer("").is_none());
    assert!(parse_oct_integer(" ").is_none());
    assert!(parse_oct_integer(" 0o123").is_none());
    assert!(parse_oct_integer("0o123 ").is_none());
    assert!(parse_oct_integer("0o123 0o456").is_none());
    assert!(parse_oct_integer(" 0x123 0x456 ").is_none());
}

#[test]
fn test_bin_parser() {
    assert_eq!(parse_bin_integer("0b1").unwrap(), NumberLiteral::Bin("1".to_owned()));
    assert_eq!(parse_bin_integer("0b101").unwrap(), NumberLiteral::Bin("101".to_owned()));
    assert_eq!(parse_bin_integer("0B0101").unwrap(), NumberLiteral::Bin("0101".to_owned()));

    assert!(parse_bin_integer("0b12").is_none());
    assert!(parse_bin_integer("0bab").is_none());
    assert!(parse_bin_integer("o101").is_none());
    assert!(parse_bin_integer("O101").is_none());
    assert!(parse_bin_integer("0101").is_none());
    assert!(parse_bin_integer("101").is_none());

    assert!(parse_bin_integer("0x101").is_none());
    assert!(parse_bin_integer("0o101").is_none());

    assert!(parse_bin_integer("").is_none());
    assert!(parse_bin_integer(" ").is_none());
    assert!(parse_bin_integer(" 0b").is_none());
    assert!(parse_bin_integer("0b101 ").is_none());
    assert!(parse_bin_integer("0b101 0b010").is_none());
    assert!(parse_bin_integer(" 0x101 0x010 ").is_none());
}

#[test]
fn number_literals_are_normalised() {
    assert_eq!(parse_number_literal("3").unwrap(), NumberLiteral::Float("3.0".to_owned()));
    assert_eq!(parse_number_literal(".5").unwrap(), NumberLiteral::Float("0.5".to_owned()));
    assert_eq!(parse_number_literal("3.").unwrap(), NumberLiteral::Float("3.0".to_owned()));
    assert_eq!(parse_number_literal("12.25").unwrap(), NumberLiteral::Float("12.25".to_owned()));
    assert_eq!(parse_number_literal("0xFF").unwrap(), NumberLiteral::Hex("ff".to_owned()));
    assert_eq!(parse_number_literal("0b101").unwrap(), NumberLiteral::Bin("101".to_owned()));
    assert_eq!(parse_number_literal("0o17").unwrap(), NumberLiteral::Oct("17".to_owned()));
    assert!(parse_number_literal("0x").is_none());
    assert!(parse_number_literal(".").is_none());
    assert!(parse_number_literal("").is_none());
}

fn grab_of(segments: &[&str]) -> Expr {
    Expr {
        name: OperatorName("grab".to_owned()),
        arguments: vec![Argument::Reference(Reference(
            segments.iter().map(|s| s.to_string()).collect(),
        ))],
    }
}

#[test]
fn expression_matching_is_anchored() {
    assert_eq!(Expr::try_parse("((grab &a))"), Some(grab_of(&["a"])));
    assert_eq!(Expr::try_parse(" ((grab &a)) "), Some(grab_of(&["a"])));
    assert_eq!(Expr::try_parse("((grab &a)) extra"), None);
    assert_eq!(Expr::try_parse("x ((grab &a))"), None);
    assert_eq!(Expr::try_parse("(( grab &a.b.c ))"), Some(grab_of(&["a", "b", "c"])));
    assert_eq!(Expr::try_parse("((grab &a.))"), None);
    assert_eq!(Expr::try_parse("grab &a"), None);
    assert_eq!(Expr::try_parse("((1abc))"), None);
}

#[test]
fn expression_arguments_in_order() {
    let e = Expr::try_parse("((op 0x1F \"msg\" &x.y .5 7))").unwrap();
    assert_eq!(e.name, OperatorName("op".to_owned()));
    assert_eq!(
        e.arguments,
        vec![
            Argument::NumberLiteral(NumberLiteral::Hex("1f".to_owned())),
            Argument::StringLiteral(StringLiteral("msg".to_owned())),
            Argument::Reference(Reference(vec!["x".to_owned(), "y".to_owned()])),
            Argument::NumberLiteral(NumberLiteral::Float("0.5".to_owned())),
            Argument::NumberLiteral(NumberLiteral::Float("7.0".to_owned())),
        ]
    );
    assert_eq!(Expr::try_parse("((param))").unwrap().arguments, vec![]);
    assert_eq!(Expr::try_parse("((param ))").unwrap().arguments, vec![]);
    // Arguments need whitespace between them.
    assert_eq!(Expr::try_parse("((op 1&a))"), None);
    // A string literal holds letters and digits only.
    assert_eq!(Expr::try_parse("((expect \"a b\"))"), None);
}
