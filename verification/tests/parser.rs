use fparse::error::Error;
use fparse::grammar::BinaryOp::{
    EAND, EDiv, EExp, EGT, EGTE, ELT, ELTE, EMinus, EMod, EMul, ENE, EOR, EPlus, EEQ,
};
use fparse::grammar::ExpressionTok::{EBinaryOp, EValue};
use fparse::grammar::Value::EConstant;
use fparse::grammar::{Constant, Expression, ExpressionTok};
use fparse::parser::{is_at_eof, is_space, peek, read, space, Parser};

type DefHook = fn(u8, usize) -> bool;

fn default_parser() -> Parser<DefHook, DefHook, DefHook> {
    Parser { is_const_byte: None, is_func_byte: None, is_var_byte: None }
}

fn constant(digits: &str, multiplier: u64) -> Constant {
    Constant { digits: digits.as_bytes().to_vec(), multiplier }
}

/// The double a constant denotes: its digit run parsed base-10, times the
/// unit-suffix factor.
fn value_of(c: &Constant) -> f64 {
    std::str::from_utf8(&c.digits).unwrap().parse::<f64>().unwrap() * c.multiplier as f64
}

fn parse_values(text: &str) -> Vec<f64> {
    let p = default_parser();
    let Expression(toks) = p.parse(text).unwrap();
    toks.iter()
        .filter_map(|t| match t {
            EValue(EConstant(c)) => Some(value_of(c)),
            EBinaryOp(_) => None,
        })
        .collect()
}

#[test]
fn util() {
    match (|| -> Result<(), Error> {
        let bsarr = [1, 2, 3];
        let bs = &mut &bsarr[..];

        assert_eq!(peek(bs, 0), Some(1));
        assert_eq!(peek(bs, 1), Some(2));
        assert_eq!(peek(bs, 2), Some(3));
        assert_eq!(peek(bs, 3), None);

        assert_eq!(read(bs)?, 1);
        assert_eq!(read(bs)?, 2);
        assert_eq!(read(bs)?, 3);
        match read(bs).err() {
            Some(Error { .. }) => {}
            None => panic!("I expected an EOF"),
        }

        Ok(())
    })() {
        Ok(_) => {}
        Err(_) => {
            panic!("the util exercise itself failed");
        }
    }

    assert!(is_at_eof(&[]));
    assert!(!is_at_eof(&[1]));
    assert!(is_at_eof(b""));
    assert!(!is_at_eof(b"x"));

    assert!(is_space(b' '));
    assert!(is_space(b'\t'));
    assert!(is_space(b'\r'));
    assert!(is_space(b'\n'));
    assert!(!is_space(b'a'));
    assert!(!is_space(b'1'));
    assert!(!is_space(b'.'));

    {
        let bsarr = b"  abc 123   ";
        let bs = &mut &bsarr[..];
        space(bs);
        assert_eq!(*bs, &b"abc 123   "[..]);
    }
}

#[test]
fn parser() {
    let p = default_parser();
    assert!(p.call_is_func_byte(Some(b'a'), 0));
    assert!(p.call_is_var_byte(Some(b'a'), 0));
    assert!(!p.call_is_const_byte(Some(b'a'), 0));

    let always = |_: u8, _: usize| true;
    let p = Parser::<_, DefHook, DefHook> {
        is_const_byte: Some(always),
        is_func_byte: None,
        is_var_byte: None,
    };
    assert!(p.call_is_const_byte(Some(b'a'), 0));

    let p = default_parser();

    {
        let bsarr = b"12.34";
        let bs = &mut &bsarr[..];
        assert_eq!(p.read_value(bs), Ok(EConstant(constant("12.34", 1))));
    }

    assert_eq!(
        p.parse("12.34 + 43.21 + 11.11"),
        Ok(Expression(vec![
            EValue(EConstant(constant("12.34", 1))),
            EBinaryOp(EPlus),
            EValue(EConstant(constant("43.21", 1))),
            EBinaryOp(EPlus),
            EValue(EConstant(constant("11.11", 1))),
        ]))
    );
    assert_eq!(parse_values("12.34 + 43.21 + 11.11"), vec![12.34, 43.21, 11.11]);
}

#[test]
fn unit_suffixes() {
    assert_eq!(parse_values("1k"), vec![1000.0]);
    assert_eq!(parse_values("1K"), vec![1000.0]);
    assert_eq!(parse_values("2M"), vec![2_000_000.0]);
    assert_eq!(parse_values("3G"), vec![3e9]);
    assert_eq!(parse_values("4T"), vec![4e12]);
    assert_eq!(parse_values("5"), vec![5.0]);
}

#[test]
fn parse_failures() {
    let p = default_parser();

    // trailing bytes after a complete expression
    let e = p.parse("1 + 2 x").unwrap_err();
    assert_eq!(e.message, "unparsed tokens remaining");
    assert!(e.context.is_empty());

    // an operator with no value after it
    let e = p.parse("1 +").unwrap_err();
    assert_eq!(e.message, "InvalidValue");
    assert_eq!(e.context, vec!["read_value".to_string()]);

    // no value at all
    let e = p.parse("").unwrap_err();
    assert_eq!(e.message, "InvalidValue");
    let e = p.parse("   ").unwrap_err();
    assert_eq!(e.message, "InvalidValue");

    // malformed numeric literals carry the offending run as a breadcrumb
    let e = p.parse("1.2.3").unwrap_err();
    assert_eq!(e.message, "parse<f64> error");
    assert_eq!(e.context, vec!["read_value".to_string(), "1.2.3".to_string()]);
    let e = p.parse(".").unwrap_err();
    assert_eq!(e.message, "parse<f64> error");
    assert_eq!(e.context, vec!["read_value".to_string(), ".".to_string()]);
    // a unit-suffix letter that is not last stays in the digit run
    let e = p.parse("1k2").unwrap_err();
    assert_eq!(e.message, "parse<f64> error");
    assert_eq!(e.context, vec!["read_value".to_string(), "1k2".to_string()]);

    // an operator spelling cut short, reached directly
    let bsarr = b"=x";
    let bs = &mut &bsarr[..];
    let e = p.read_binaryop(bs).unwrap_err();
    assert_eq!(e.message, "illegal binaryop");
}

#[test]
fn whitespace_insensitive() {
    let p = default_parser();
    let a = p.parse("1+2").unwrap();
    let b = p.parse("1 + 2").unwrap();
    let c = p.parse("1\t+\n2").unwrap();
    assert_eq!(a, b);
    assert_eq!(a, c);
    assert_eq!(parse_values("1+2"), parse_values("1 \t +  \r\n 2"));
}

#[test]
fn token_alternation() {
    let p = default_parser();
    let Expression(toks) = p.parse("1 + 2 * 3 < 4").unwrap();
    // three operators: exactly 2 * 3 + 1 tokens, values on even positions
    assert_eq!(toks.len(), 7);
    for (i, t) in toks.iter().enumerate() {
        match t {
            EValue(_) => assert_eq!(i % 2, 0),
            EBinaryOp(_) => assert_eq!(i % 2, 1),
        }
    }
}

#[test]
fn operator_spellings() {
    let p = default_parser();
    let Expression(toks) = p
        .parse("1 <= 2 >= 3 == 4 != 5 and 6 or 7 < 8 > 9 - 2 / 3 % 4 ^ 5 * 6")
        .unwrap();
    let ops: Vec<ExpressionTok> = toks
        .iter()
        .filter(|t| matches!(t, EBinaryOp(_)))
        .cloned()
        .collect();
    assert_eq!(
        ops,
        vec![
            EBinaryOp(ELTE),
            EBinaryOp(EGTE),
            EBinaryOp(EEQ),
            EBinaryOp(ENE),
            EBinaryOp(EAND),
            EBinaryOp(EOR),
            EBinaryOp(ELT),
            EBinaryOp(EGT),
            EBinaryOp(EMinus),
            EBinaryOp(EDiv),
            EBinaryOp(EMod),
            EBinaryOp(EExp),
            EBinaryOp(EMul),
        ]
    );
}

#[test]
fn custom_classifier_narrows_constants() {
    // a hook accepting bare digits only: the dot is no longer part of a
    // constant, so the fraction is left over as trailing input
    let digits_only = |b: u8, _: usize| b.is_ascii_digit();
    let p = Parser::<_, DefHook, DefHook> {
        is_const_byte: Some(digits_only),
        is_func_byte: None,
        is_var_byte: None,
    };
    let e = p.parse("12.5").unwrap_err();
    assert_eq!(e.message, "unparsed tokens remaining");

    // the default accepts the same text whole
    assert_eq!(parse_values("12.5"), vec![12.5]);
}
