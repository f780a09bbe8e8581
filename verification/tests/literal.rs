use lazy_expr::expr::{Expr, Scalar};
use lazy_expr::literal::{lit, HostKind, HostProbe, HostValue, LiteralError};

#[test]
fn null_gives_the_null_literal() {
    let literal = lit(HostValue::Null).unwrap();
    assert_eq!(literal, Expr::Literal(Scalar::Null));
    assert_ne!(literal, Expr::Literal(Scalar::Utf8("null".to_string())));
    assert_ne!(literal, Expr::Literal(Scalar::Boolean(false)));
}

#[test]
fn undefined_gives_the_null_literal() {
    assert_eq!(lit(HostValue::Undefined), Ok(Expr::Literal(Scalar::Null)));
}

#[test]
fn a_string_gives_a_string_literal() {
    assert_eq!(
        lit(HostValue::String("abc".to_string())),
        Ok(Expr::Literal(Scalar::Utf8("abc".to_string())))
    );
    assert_eq!(
        lit(HostValue::String(String::new())),
        Ok(Expr::Literal(Scalar::Utf8(String::new())))
    );
}

#[test]
fn a_boolean_gives_a_boolean_literal() {
    assert_eq!(lit(HostValue::Boolean(true)), Ok(Expr::Literal(Scalar::Boolean(true))));
    assert_eq!(lit(HostValue::Boolean(false)), Ok(Expr::Literal(Scalar::Boolean(false))));
}

#[test]
fn a_number_gives_a_numeric_literal() {
    assert_eq!(
        lit(HostValue::Number(3.5f64.to_bits())),
        Ok(Expr::Literal(Scalar::Float64(3.5f64.to_bits())))
    );
    match lit(HostValue::Number(3.5f64.to_bits())) {
        Ok(Expr::Literal(Scalar::Float64(bits))) => assert_eq!(f64::from_bits(bits), 3.5),
        other => panic!("not a numeric literal: {:?}", other),
    }
}

#[test]
fn a_number_keeps_its_bit_pattern() {
    for x in [0.0f64, -0.0, 1.0, -1.0, f64::MAX, f64::MIN_POSITIVE, f64::INFINITY, f64::NAN] {
        assert_eq!(
            lit(HostValue::Number(x.to_bits())),
            Ok(Expr::Literal(Scalar::Float64(x.to_bits())))
        );
    }
}

#[test]
fn a_large_integer_is_rounded_to_the_nearest_number() {
    let literal = lit(HostValue::BigInt(9007199254740993)).unwrap();
    match literal {
        Expr::Literal(Scalar::Float64(bits)) => {
            let value = f64::from_bits(bits);
            assert_eq!(value, 9007199254740992.0);
            assert_eq!(bits, (9007199254740993i128 as f64).to_bits());
            assert_ne!(value as i128, 9007199254740993i128);
            assert_eq!(value as i128, 9007199254740992i128);
        }
        other => panic!("not a numeric literal: {:?}", other),
    }
}

#[test]
fn a_small_large_integer_is_exact() {
    assert_eq!(
        lit(HostValue::BigInt(42)),
        Ok(Expr::Literal(Scalar::Float64(42.0f64.to_bits())))
    );
    assert_eq!(
        lit(HostValue::BigInt(-7)),
        Ok(Expr::Literal(Scalar::Float64((-7.0f64).to_bits())))
    );
    assert_eq!(lit(HostValue::BigInt(0)), Ok(Expr::Literal(Scalar::Float64(0.0f64.to_bits()))));
}

#[test]
fn an_array_has_no_literal() {
    assert_eq!(
        lit(HostValue::Array),
        Err(LiteralError::UnsupportedLiteralType(HostKind::Array))
    );
}

#[test]
fn another_kind_has_no_literal() {
    assert_eq!(
        lit(HostValue::Other),
        Err(LiteralError::UnsupportedLiteralType(HostKind::Other))
    );
}

#[test]
fn every_value_knows_its_kind() {
    assert_eq!(HostValue::Null.kind(), HostKind::Null);
    assert_eq!(HostValue::Undefined.kind(), HostKind::Undefined);
    assert_eq!(HostValue::Boolean(true).kind(), HostKind::Boolean);
    assert_eq!(HostValue::Number(0).kind(), HostKind::Number);
    assert_eq!(HostValue::BigInt(1).kind(), HostKind::BigInt);
    assert_eq!(HostValue::String("s".to_string()).kind(), HostKind::String);
    assert_eq!(HostValue::Array.kind(), HostKind::Array);
    assert_eq!(HostValue::Other.kind(), HostKind::Other);
}

#[test]
fn coercion_is_the_same_each_time() {
    assert_eq!(lit(HostValue::BigInt(1 << 70)), lit(HostValue::BigInt(1 << 70)));
    assert_eq!(
        lit(HostValue::String("x".to_string())),
        lit(HostValue::String("x".to_string()))
    );
}

fn nothing_holds() -> HostProbe {
    HostProbe {
        bigint: None,
        is_null: false,
        is_undefined: false,
        string: None,
        boolean: None,
        number: None,
        is_array: false,
    }
}

#[test]
fn a_single_answer_decides_the_kind() {
    assert_eq!(HostProbe { bigint: Some(5), ..nothing_holds() }.classify(), HostValue::BigInt(5));
    assert_eq!(HostProbe { is_null: true, ..nothing_holds() }.classify(), HostValue::Null);
    assert_eq!(
        HostProbe { is_undefined: true, ..nothing_holds() }.classify(),
        HostValue::Undefined
    );
    assert_eq!(
        HostProbe { string: Some("abc".to_string()), ..nothing_holds() }.classify(),
        HostValue::String("abc".to_string())
    );
    assert_eq!(
        HostProbe { boolean: Some(false), ..nothing_holds() }.classify(),
        HostValue::Boolean(false)
    );
    assert_eq!(
        HostProbe { number: Some(3.5f64.to_bits()), ..nothing_holds() }.classify(),
        HostValue::Number(3.5f64.to_bits())
    );
    assert_eq!(HostProbe { is_array: true, ..nothing_holds() }.classify(), HostValue::Array);
    assert_eq!(nothing_holds().classify(), HostValue::Other);
}

#[test]
fn the_first_answer_that_holds_wins() {
    let everything = HostProbe {
        bigint: Some(9007199254740993),
        is_null: true,
        is_undefined: true,
        string: Some("9007199254740993".to_string()),
        boolean: Some(true),
        number: Some(9007199254740992.0f64.to_bits()),
        is_array: true,
    };
    assert_eq!(everything.classify(), HostValue::BigInt(9007199254740993));
    let numeric_looking = HostProbe {
        bigint: Some(7),
        number: Some(7.0f64.to_bits()),
        ..nothing_holds()
    };
    assert_eq!(numeric_looking.classify(), HostValue::BigInt(7));
    let string_before_boolean = HostProbe {
        string: Some("true".to_string()),
        boolean: Some(true),
        number: Some(1.0f64.to_bits()),
        ..nothing_holds()
    };
    assert_eq!(string_before_boolean.classify(), HostValue::String("true".to_string()));
    let boolean_before_number = HostProbe {
        boolean: Some(true),
        number: Some(1.0f64.to_bits()),
        is_array: true,
        ..nothing_holds()
    };
    assert_eq!(boolean_before_number.classify(), HostValue::Boolean(true));
    let null_before_string = HostProbe {
        is_null: true,
        string: Some("null".to_string()),
        ..nothing_holds()
    };
    assert_eq!(null_before_string.classify(), HostValue::Null);
    let number_before_array = HostProbe {
        number: Some(0),
        is_array: true,
        ..nothing_holds()
    };
    assert_eq!(number_before_array.classify(), HostValue::Number(0));
}

#[test]
fn a_probed_value_is_coerced_like_any_other() {
    let probe = HostProbe {
        bigint: Some(9007199254740993),
        number: Some(1.0f64.to_bits()),
        ..nothing_holds()
    };
    assert_eq!(
        lit(probe.classify()),
        Ok(Expr::Literal(Scalar::Float64(9007199254740992.0f64.to_bits())))
    );
    assert_eq!(
        lit(HostProbe { is_array: true, ..nothing_holds() }.classify()),
        Err(LiteralError::UnsupportedLiteralType(HostKind::Array))
    );
    assert_eq!(
        lit(nothing_holds().classify()),
        Err(LiteralError::UnsupportedLiteralType(HostKind::Other))
    );
}
