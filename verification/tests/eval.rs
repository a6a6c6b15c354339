use zd::eval::ops::{gather_sign2, latter_precedes};
use zd::eval::lexer::tokenize;
use zd::eval::rpn::{mark_prefices, sort_into_rpn};
use zd::eval::simplify::canonize_rpn;
use zd::eval::text::chars_of;
use zd::eval::Token::{Op, Paren, Prefix, Val};
use zd::eval::{
    parse_delimited, parse_int, parse_isize, parse_isize_pair, parse_range, parse_usize, parse_usize_pair, to_string,
    Rpn, Token, VarAttr,
};

#[test]
fn test_precedence() {
    assert_eq!(latter_precedes(&Op('*'), &Op('*')), false);
    assert_eq!(latter_precedes(&Op('*'), &Op('/')), false);
    assert_eq!(latter_precedes(&Op('*'), &Op('%')), false);
    assert_eq!(latter_precedes(&Op('/'), &Op('*')), false);
    assert_eq!(latter_precedes(&Op('%'), &Op('*')), false);

    assert_eq!(latter_precedes(&Op('*'), &Op('+')), false);
    assert_eq!(latter_precedes(&Op('*'), &Op('+')), false);
    assert_eq!(latter_precedes(&Op('*'), &Op('+')), false);
    assert_eq!(latter_precedes(&Op('/'), &Op('+')), false);
    assert_eq!(latter_precedes(&Op('%'), &Op('+')), false);

    assert_eq!(latter_precedes(&Op('+'), &Op('*')), true);
    assert_eq!(latter_precedes(&Op('+'), &Op('*')), true);
    assert_eq!(latter_precedes(&Op('+'), &Op('*')), true);
    assert_eq!(latter_precedes(&Op('+'), &Op('/')), true);
    assert_eq!(latter_precedes(&Op('+'), &Op('%')), true);

    assert_eq!(latter_precedes(&Op('+'), &Op('+')), false);
    assert_eq!(latter_precedes(&Op('-'), &Op('+')), false);
    assert_eq!(latter_precedes(&Op('+'), &Op('-')), false);

    assert_eq!(latter_precedes(&Op('*'), &Op('<')), false);
    assert_eq!(latter_precedes(&Op('<'), &Op('*')), true);
    assert_eq!(latter_precedes(&Op('+'), &Op('<')), false);
    assert_eq!(latter_precedes(&Op('<'), &Op('+')), true);
    assert_eq!(latter_precedes(&Op('<'), &Op('>')), false);

    assert_eq!(latter_precedes(&Op('*'), &Op('@')), false);
    assert_eq!(latter_precedes(&Op('@'), &Op('*')), true);
    assert_eq!(latter_precedes(&Op('+'), &Op('@')), false);
    assert_eq!(latter_precedes(&Op('@'), &Op('+')), true);
    assert_eq!(latter_precedes(&Op('@'), &Op('@')), true);

    assert_eq!(latter_precedes(&Op('+'), &Op('g')), false);
    assert_eq!(latter_precedes(&Op('g'), &Op('+')), true);
    assert_eq!(latter_precedes(&Op('@'), &Op('g')), false);
    assert_eq!(latter_precedes(&Op('g'), &Op('@')), true);
    assert_eq!(latter_precedes(&Op('g'), &Op('g')), false);

    assert_eq!(latter_precedes(&Prefix('+'), &Op('*')), false);
    assert_eq!(latter_precedes(&Prefix('+'), &Op('+')), false);
    assert_eq!(latter_precedes(&Prefix('+'), &Op('<')), false);
    assert_eq!(latter_precedes(&Prefix('+'), &Op('g')), false);
    assert_eq!(latter_precedes(&Prefix('+'), &Op('@')), true);
}

fn check_sort(input: &[Token], expected: &[(Token, usize)]) {
    let mut v = vec![Paren('(')];
    v.extend_from_slice(input);
    v.push(Paren(')'));

    let rpn = sort_into_rpn(&v).unwrap();
    assert_eq!(rpn.as_slice(), expected);
}

#[test]
fn test_sort_into_rpn() {
    {
        let e: [Token; 0] = [];
        let f: [(Token, usize); 0] = [];
        check_sort(&e, &f);
    }
    check_sort(&[Prefix('-'), Val(2)], &[(Val(2), 0), (Prefix('-'), 1)]);
    check_sort(&[Val(2), Op('-'), Val(3)], &[(Val(2), 0), (Val(3), 0), (Op('-'), 2)]);
    check_sort(&[Prefix('-'), Prefix('-'), Val(2)], &[(Val(2), 0), (Prefix('-'), 1), (Prefix('-'), 1)]);
    check_sort(&[Val(5), Op('*'), Paren('('), Prefix('-'), Val(2), Paren(')')], &[(Val(5), 0), (Val(2), 0), (Prefix('-'), 1), (Op('*'), 3)]);
    check_sort(&[Prefix('-'), Paren('('), Prefix('-'), Val(2), Paren(')')], &[(Val(2), 0), (Prefix('-'), 1), (Prefix('-'), 1)]);
}

#[test]
fn test_gather_sign2() {
    assert_eq!(gather_sign2('+', '+', '+'), '+');
    assert_eq!(gather_sign2('+', '-', '+'), '-');
    assert_eq!(gather_sign2('+', '#', '+'), '#');
    assert_eq!(gather_sign2('+', '~', '+'), '~');
    assert_eq!(gather_sign2('+', '+', '-'), '-');
    assert_eq!(gather_sign2('+', '-', '-'), '+');
    assert_eq!(gather_sign2('+', '#', '-'), '~');
    assert_eq!(gather_sign2('+', '~', '-'), '#');
    assert_eq!(gather_sign2('-', '+', '+'), '~');
    assert_eq!(gather_sign2('-', '-', '+'), '#');
    assert_eq!(gather_sign2('-', '#', '+'), '-');
    assert_eq!(gather_sign2('-', '~', '+'), '+');
    assert_eq!(gather_sign2('-', '+', '-'), '#');
    assert_eq!(gather_sign2('-', '-', '-'), '~');
    assert_eq!(gather_sign2('-', '#', '-'), '+');
    assert_eq!(gather_sign2('-', '~', '-'), '-');
}

fn check_simplify(input: &str, expected: &str) {
    let x_: &[u8] = b"x";
    let y_: &[u8] = b"y";
    let z_: &[u8] = b"z";
    let a_: &[u8] = b"a";
    let b_: &[u8] = b"b";
    let c_: &[u8] = b"c";
    let s_: &[u8] = b"s";
    let t_: &[u8] = b"t";
    let u_: &[u8] = b"u";
    let vars: Vec<(&[u8], VarAttr)> = vec![
        (x_, VarAttr { is_array: false, id: 0 }),
        (y_, VarAttr { is_array: false, id: 1 }),
        (z_, VarAttr { is_array: false, id: 2 }),
        (a_, VarAttr { is_array: true, id: 3 }),
        (b_, VarAttr { is_array: true, id: 4 }),
        (c_, VarAttr { is_array: true, id: 5 }),
        (s_, VarAttr { is_array: false, id: 6 }),
        (t_, VarAttr { is_array: false, id: 7 }),
        (u_, VarAttr { is_array: false, id: 8 }),
    ];

    let chars = chars_of(input);
    let mut x = tokenize(&chars, Some(vars.as_slice())).unwrap();
    mark_prefices(&mut x).unwrap();
    let mut x = sort_into_rpn(&x).unwrap();

    let len = canonize_rpn(&mut x).unwrap();
    x.truncate(len);

    let names: Vec<(usize, &[u8])> = vars.iter().map(|(x, y)| (y.id, *x)).collect();
    let mut s = String::new();
    to_string(&x, &names, &mut s);

    assert_eq!(&s, expected);
}

#[test]
fn test_simplify_rpn() {
    check_simplify("1", "1");
    check_simplify("!1", "-2");
    check_simplify("-(1)", "-1");
    check_simplify("-(-(1))", "1");
    check_simplify("-(-(-(1)))", "-1");
    check_simplify("1 - 3", "-2");
    check_simplify("x - 0", "x");
    check_simplify("x & -1", "x");
    check_simplify("x - x", "0");
    check_simplify("x - x", "0");
    check_simplify("x - y", "(x + -1 * y)");
    check_simplify("-(-x)", "x");
    check_simplify("!(!x)", "x");
    check_simplify("+(-x)", "-1 * x");
    check_simplify("!(-x)", "!(-1 * x)");
    check_simplify("2 + x", "(x + 2)");
    check_simplify("2 * x", "2 * x");
    check_simplify("2 & x", "(x & 2)");
    check_simplify("2 - x", "(-1 * x + 2)");
    check_simplify("2 / x", "(2 / x)");
    check_simplify("x - 0", "x");
    check_simplify("0 + x", "x");
    check_simplify("0 - x", "-1 * x");
    check_simplify("-1 & x", "x");
    check_simplify("0 | x", "x");
    check_simplify("-x + 2", "(-1 * x + 2)");
    check_simplify("-x - 2", "(-1 * x + -2)");
    check_simplify("-x + -2", "(-1 * x + -2)");
    check_simplify("2 + -x", "(-1 * x + 2)");
    check_simplify("-2 + -x", "(-1 * x + -2)");
    check_simplify("-x + y", "(-1 * x + y)");
    check_simplify("x + -y", "(x + -1 * y)");
    check_simplify("(x + 2) + 5", "(x + 7)");
    check_simplify("(x - 2) + 5", "(x + 3)");
    check_simplify("(x + 2) - 5", "(x + -3)");
    check_simplify("(x - 2) - 5", "(x + -7)");
    check_simplify("5 - (x + 2)", "(-1 * x + 3)");
    check_simplify("5 - (-x + 2)", "(x + 3)");
    check_simplify("5 - (2 - x)", "(x + 3)");
    check_simplify("x + (y + 2)", "((x + y) + 2)");
    check_simplify("-y - (x + 2)", "((-1 * x + -1 * y) + -2)");
    check_simplify("(x + 2) - y", "((x + -1 * y) + 2)");
    check_simplify("(y + 2) - x", "((-1 * x + y) + 2)");
    check_simplify("(x + y) - y", "x");
    check_simplify("(x + y) - y - x", "0");
    check_simplify("(x + 2) + (y + 5)", "((x + y) + 7)");
    check_simplify("(x + 2) + (5 + y)", "((x + y) + 7)");
    check_simplify("x + (2 + 5) + y", "((x + y) + 7)");
    check_simplify("2 + (y + 5) + x", "((x + y) + 7)");
    check_simplify("(x + 2) - (y + 5)", "((x + -1 * y) + -3)");
    check_simplify("(x + 2) - (y - 5)", "((x + -1 * y) + 7)");
    check_simplify("(x + 2) - (-y + 5)", "((x + y) + -3)");
    check_simplify("((2 + x) + (x + 3)) + 4", "(2 * x + 9)");
    check_simplify("((2 + x) + 4) + (x + 3)", "(2 * x + 9)");
    check_simplify("3 + (x + ((2 + x) + 4))", "(2 * x + 9)");
    check_simplify("((2 + x) - (x + 3)) - 4", "-5");
    check_simplify("((2 + x) - 4) - (x + 3)", "-5");
    check_simplify("3 + (x - ((2 + x) + 4))", "-3");
    check_simplify("x + (y + 2) - 4 * x + -3 * y", "((-3 * x + -2 * y) + 2)");
    check_simplify("4 >= 0", "1");
    check_simplify("-4 >= 0", "0");
    check_simplify("4 < 0", "0");
    check_simplify("x >= 0", "G(x)");
    check_simplify("x > 0", "G((x + -1))");
    check_simplify("x <= 0", "G(-1 * x)");
    check_simplify("x < 0", "G((-1 * x + -1))");
    check_simplify("x + 4 < 0", "G((-1 * x + -5))");
    check_simplify("-(y - x) < -4", "G(((-1 * x + y) + -5))");
    check_simplify("x <= -x + (x + x) - (-x)", "G(x)");
}

fn check_parse_vals(input: &str, name: &[u8], attr: VarAttr) {
    let vars: Vec<(&[u8], VarAttr)> = vec![(name, attr)];
    let rpn = Rpn::new(input, Some(vars.as_slice()));
    assert!(rpn.is_ok());
}

#[test]
fn test_parse_vals() {
    check_parse_vals("0", b"x", VarAttr { is_array: false, id: 0 });
    check_parse_vals("x", b"x", VarAttr { is_array: false, id: 0 });
    check_parse_vals("x + x + x", b"x", VarAttr { is_array: false, id: 0 });
    check_parse_vals("xyz", b"xyz", VarAttr { is_array: false, id: 0 });
    check_parse_vals("x[0]", b"x", VarAttr { is_array: true, id: 0 });
    check_parse_vals("x[1 + 3 * 2]", b"x", VarAttr { is_array: true, id: 0 });
    check_parse_vals("x[2 * x[2] + 2]", b"x", VarAttr { is_array: true, id: 0 });
    check_parse_vals("4 * (x[(3 - 5) * 4] + 3)", b"x", VarAttr { is_array: true, id: 0 });
    check_parse_vals("5 + ((x[11] & 0xff) << 4)", b"x", VarAttr { is_array: true, id: 0 });
}

#[test]
fn test_parse_int() {
    // TODO: check what kind of error being reported
    assert!(parse_int("").is_err());
    assert_eq!(parse_int("0"), Ok(0));
    assert_eq!(parse_int("+0"), Ok(0));
    assert_eq!(parse_int("-0"), Ok(0));
    assert_eq!(parse_int("!2"), Ok(-3));
    assert_eq!(parse_int("~3"), Ok(-4));

    assert!(parse_int("0b").is_err());
    assert!(parse_int("0B").is_err());
    assert!(parse_int("0x").is_err());
    assert_eq!(parse_int("0b0"), Ok(0));
    assert_eq!(parse_int("0b10"), Ok(2));
    assert!(parse_int("0b12").is_err());
    assert_eq!(parse_int("0d123"), Ok(123));
    assert!(parse_int("0d123a").is_err());
    assert_eq!(parse_int("0xabcdef"), Ok(0xabcdef));
    assert_eq!(parse_int("0xFEDCBA"), Ok(0xFEDCBA));

    assert_eq!(parse_int("1k"), Ok(1000));
    assert_eq!(parse_int("1K"), Ok(1000));
    assert_eq!(parse_int("1ki"), Ok(1024));
    assert_eq!(parse_int("1Ki"), Ok(1024));

    assert_eq!(parse_int("1Mi"), Ok(1024 * 1024));
    assert_eq!(parse_int("1g"), Ok(1000 * 1000 * 1000));
    assert_eq!(parse_int("4ki"), Ok(4096));
    assert_eq!(parse_int("-3k"), Ok(-3000));

    assert_eq!(parse_int("0+1"), Ok(1));
    assert_eq!(parse_int("4 - 3"), Ok(1));
    assert_eq!(parse_int("2 * 5"), Ok(10));
    assert_eq!(parse_int("4-1+2"), Ok(5));
    assert_eq!(parse_int("4- 1 +2"), Ok(5));
    assert_eq!(parse_int("4 -1+ 2"), Ok(5));
    assert_eq!(parse_int("4 -1+2"), Ok(5));
    assert_eq!(parse_int("4-1+   2"), Ok(5));

    assert_eq!(parse_int("(4 - 1)"), Ok(3));
    assert_eq!(parse_int("2 * (4 - 1)"), Ok(6));
    assert_eq!(parse_int("(4 - 1) * 2"), Ok(6));
    assert_eq!(parse_int("-(4 - 1) * 2"), Ok(-6));
    assert_eq!(parse_int("-(4 - (1 + 2)) * 2"), Ok(-2));
    assert_eq!(parse_int("-(4 - ((1 + 2))) * 2"), Ok(-2));

    assert!(parse_int("(*4 - 1) * 2").is_err());
    assert!(parse_int("(4 - 1+) * 2").is_err());
    assert!(parse_int("(4 -* 1) * 2").is_err());
    assert!(parse_int("(4 - 1 * 2").is_err());
    assert!(parse_int("4 - 1) * 2").is_err());
    assert!(parse_int("(4 - 1)) * 2").is_err());

    assert_eq!(parse_int("4+-2"), Ok(2));
    assert_eq!(parse_int("4+ -2"), Ok(2));
    assert_eq!(parse_int("4 +-2"), Ok(2));
    assert_eq!(parse_int("4+- 2"), Ok(2));
    assert_eq!(parse_int("4 + -2"), Ok(2));
    assert_eq!(parse_int("15 & !2"), Ok(13));

    assert_eq!(parse_int("15 << 0"), Ok(15));
    assert_eq!(parse_int("15 >> 0"), Ok(15));
    assert_eq!(parse_int("15 << 2"), Ok(60));
    assert_eq!(parse_int("15 >> 2"), Ok(3));
    assert_eq!(parse_int("15 << -2"), Ok(3));
    assert_eq!(parse_int("15 >> -2"), Ok(60));
    assert_eq!(parse_int("15 <<-2"), Ok(3));
    assert_eq!(parse_int("15 >>-2"), Ok(60));

    assert_eq!(parse_int("3 * 4 - 1"), Ok(11));
    assert_eq!(parse_int("4 - 1 * 5"), Ok(-1));

    assert_eq!(parse_int("3 << 2 - 1"), Ok(6));
    assert_eq!(parse_int("3 - 2 << 1"), Ok(2));

    assert_eq!(parse_int("4 - 2 ** 3"), Ok(8));
    assert_eq!(parse_int("3 ** 2 - 1"), Ok(3));
    assert_eq!(parse_int("2 ** 3 ** 2"), Ok(512));

    assert_eq!(parse_int("3 ** (0 - 2)"), Ok(0));
    assert_eq!(parse_int("3**-2"), Ok(0));
    assert_eq!(parse_int("-12**2"), Ok(-144));
    assert_eq!(parse_int("(-12)**2"), Ok(144));

    assert!(parse_int("4 : 3").is_err());
    assert!(parse_int("4 + 3;").is_err());
    assert!(parse_int("4 - `3").is_err());
    assert!(parse_int("4,3").is_err());
}

#[test]
fn test_parse_usize() {
    assert!(parse_usize("").is_err());
    assert_eq!(parse_usize("0"), Ok(0));
    assert_eq!(parse_usize("100000"), Ok(100000));
    assert_eq!(parse_usize("4Gi"), Ok(1usize << 32));
    assert_eq!(parse_usize("-0"), Ok(0));
    assert!(parse_usize("-1").is_err());
}

#[test]
fn test_parse_isize() {
    assert!(parse_isize("").is_err());
    assert_eq!(parse_isize("0"), Ok(0));
    assert_eq!(parse_isize("100000"), Ok(100000));
    assert_eq!(parse_isize("4Gi"), Ok(1isize << 32));

    assert_eq!(parse_isize("-0"), Ok(0));
    assert_eq!(parse_isize("-1"), Ok(-1));
    assert_eq!(parse_isize("-4Gi"), Ok(-1isize << 32));
}

#[test]
fn test_parse_delimited() {
    assert_eq!(parse_delimited(""), Ok(vec![None]));
    assert_eq!(parse_delimited(":"), Ok(vec![None, None]));
    assert_eq!(parse_delimited("::"), Ok(vec![None, None, None]));

    assert_eq!(parse_delimited("0"), Ok(vec![Some(0)]));
    assert_eq!(parse_delimited(":1"), Ok(vec![None, Some(1)]));
    assert_eq!(parse_delimited("2:"), Ok(vec![Some(2), None]));
    assert_eq!(parse_delimited("4::5:2:"), Ok(vec![Some(4), None, Some(5), Some(2), None]));

    assert!(parse_delimited("a").is_err());
    assert!(parse_delimited(":-").is_err());
    assert!(parse_delimited("+:").is_err());
}

#[test]
fn test_parse_usize_pair() {
    assert!(parse_usize_pair("").is_err());
    assert_eq!(parse_usize_pair(":"), Ok((0, 0)));
    assert_eq!(parse_usize_pair("1:"), Ok((1, 0)));
    assert_eq!(parse_usize_pair(":3"), Ok((0, 3)));
    assert_eq!(parse_usize_pair("4:5"), Ok((4, 5)));

    assert!(parse_usize_pair("-1:").is_err());
    assert!(parse_usize_pair("1:-1").is_err());
}

#[test]
fn test_parse_isize_pair() {
    assert!(parse_isize_pair("").is_err());
    assert_eq!(parse_isize_pair(":"), Ok((0, 0)));
    assert_eq!(parse_isize_pair("1:"), Ok((1, 0)));
    assert_eq!(parse_isize_pair(":3"), Ok((0, 3)));
    assert_eq!(parse_isize_pair("4:5"), Ok((4, 5)));

    assert_eq!(parse_isize_pair("-1:"), Ok((-1, 0)));
    assert_eq!(parse_isize_pair("1:-1"), Ok((1, -1)));

    assert!(parse_isize_pair("-:").is_err());
    assert!(parse_isize_pair("1:-").is_err());
}

#[test]
fn test_parse_range() {
    assert!(parse_range("").is_err());
    assert_eq!(parse_range(":"), Ok(0..usize::MAX));
    assert_eq!(parse_range("1:"), Ok(1..usize::MAX));
    assert_eq!(parse_range(":3"), Ok(0..3));
    assert_eq!(parse_range("4:5"), Ok(4..5));

    assert!(parse_range("-1:0").is_err());
    assert!(parse_range(":-1").is_err());
    assert!(parse_range("3:0").is_err());
}

#[test]
fn array_subscripts_close_at_their_bracket() {
    let vars: Vec<(&[u8], VarAttr)> = vec![(b"b", VarAttr { is_array: true, id: 1 })];
    let get = |id: usize, idx: i64| if id == 1 { 10 * (idx + 1) } else { 0 };
    let eval = |e: &str| Rpn::new(e, Some(vars.as_slice())).unwrap().evaluate(get);
    // b[k] reads 10 * (k + 1)
    assert_eq!(eval("b[0]"), Ok(10));
    assert_eq!(eval("b[0] + 1"), Ok(11));
    assert_eq!(eval("2 * b[2]"), Ok(60));
    assert_eq!(eval("b[1] & 0xff"), Ok(20));
    assert_eq!(eval("b[b[0] - 9]"), Ok(20));
}
