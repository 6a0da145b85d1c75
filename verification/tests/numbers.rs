use nvm::num::{Double, MINUS_ONE, ONE};
use nvm::text::{
    decimal, no_piece, put, put_all, put_decimal, put_padded, put_text, same, single, text, Piece,
};

fn num(x: f64) -> Double {
    Double::from_bits(x.to_bits())
}

fn samples() -> Vec<f64> {
    vec![
        0.0,
        -0.0,
        1.0,
        -1.0,
        2.5,
        -2.5,
        0.1,
        -0.1,
        3.0,
        7.0,
        1e10,
        -1e10,
        f64::MIN_POSITIVE,
        -f64::MIN_POSITIVE,
        5e-324,
        -5e-324,
        f64::MAX,
        f64::MIN,
        f64::INFINITY,
        f64::NEG_INFINITY,
        f64::NAN,
        -f64::NAN,
        f64::from_bits(0x7ff0_0000_0000_0001),
        f64::from_bits(0xfff8_0000_0000_0123),
    ]
}

#[test]
fn from_bits_keeps_the_bits() {
    assert_eq!(Double::from_bits(0x4014_0000_0000_0000).bits, 0x4014_0000_0000_0000);
    assert_eq!(num(5.0).bits, 0x4014_0000_0000_0000);
    assert_eq!(num(1.0).bits, ONE);
    assert_eq!(num(-1.0).bits, MINUS_ONE);
}

#[test]
fn neg_is_negation_of_doubles() {
    for x in samples() {
        assert_eq!(num(x).neg().bits, (-x).to_bits(), "{x}");
    }
    assert_eq!(num(5.0).neg(), num(-5.0));
    assert_eq!(num(0.0).neg().bits, 0x8000_0000_0000_0000);
}

#[test]
fn neg_twice_is_the_value() {
    for x in samples() {
        assert_eq!(num(x).neg().neg(), num(x));
    }
}

#[test]
fn is_zero_is_comparison_with_zero() {
    for x in samples() {
        assert_eq!(num(x).is_zero(), x == 0.0, "{x}");
    }
    assert!(num(0.0).is_zero());
    assert!(num(-0.0).is_zero());
    assert!(!num(f64::NAN).is_zero());
    assert!(!num(5e-324).is_zero());
}

#[test]
fn is_nan_is_nan_of_doubles() {
    for x in samples() {
        assert_eq!(num(x).is_nan(), x.is_nan(), "{x}");
    }
}

#[test]
fn lt_is_less_of_doubles() {
    for x in samples() {
        for y in samples() {
            assert_eq!(num(x).lt(num(y)), x < y, "{x} < {y}");
        }
    }
}

#[test]
fn compare_gives_minus_one_zero_or_one() {
    for x in samples() {
        for y in samples() {
            let want = if x < y {
                -1.0
            } else if x > y {
                1.0
            } else {
                0.0
            };
            assert_eq!(num(x).compare(num(y)), num(want), "{x} ? {y}");
        }
    }
    assert_eq!(num(1.0).compare(num(2.0)).bits, MINUS_ONE);
    assert_eq!(num(2.0).compare(num(1.0)).bits, ONE);
    assert_eq!(num(2.0).compare(num(2.0)).bits, 0);
    assert_eq!(num(f64::NAN).compare(num(2.0)).bits, 0);
}

#[test]
fn to_index_is_the_cast_of_doubles() {
    let mut xs = samples();
    xs.extend([
        0.5,
        0.99,
        1.5,
        1.999,
        2.0,
        3.99,
        255.0,
        4294967295.0,
        4294967296.0,
        4294967296.5,
        4503599627370496.0,
        4503599627370497.0,
        9007199254740992.0,
        9007199254740994.0,
        1e18,
        9223372036854775808.0,
        18446744073709549568.0,
        18446744073709551616.0,
        1e30,
    ]);
    for x in xs {
        assert_eq!(num(x).to_index(), x as usize, "{x}");
    }
    assert_eq!(num(3.0).to_index(), 3);
    assert_eq!(num(3.99).to_index(), 3);
    assert_eq!(num(-3.0).to_index(), 0);
    assert_eq!(num(f64::NAN).to_index(), 0);
    assert_eq!(num(f64::INFINITY).to_index(), usize::MAX);
}

#[test]
fn from_index_is_the_cast_to_doubles() {
    let mut ns: Vec<usize> = vec![0, 1, 2, 3, 4, 7, 8, 9, 10, 100, 255, 256, 65535, 1 << 31];
    for k in 32..usize::BITS {
        let p = 1usize << k;
        ns.extend([p - 1, p, p + 1, p + (p >> 1), p + (p >> 1) + 1, p + (p >> 1) - 1]);
    }
    if usize::BITS == 64 {
        let p = 1usize << 53;
        ns.extend([p + 1, p + 2, p + 3, p + 4, p + 5, p + 6, 2 * p + 2, 2 * p + 3, 2 * p + 6]);
        let q = 1usize << 63;
        ns.extend([q + 1024, q + 1025, q + 2048, q + 3072, q + 3071, q + 3073]);
    }
    ns.extend([usize::MAX, usize::MAX - 1, usize::MAX - 1023, usize::MAX - 1024]);
    for n in ns {
        assert_eq!(Double::from_index(n).bits, (n as f64).to_bits(), "{n}");
    }
    assert_eq!(Double::from_index(0), num(0.0));
    assert_eq!(Double::from_index(1), num(1.0));
    assert_eq!(Double::from_index(3), num(3.0));
}

#[test]
fn index_round_trip_below_two_to_the_53rd() {
    for n in [0usize, 1, 2, 3, 5, 1000, 123456789, (1 << 31) - 1] {
        assert_eq!(Double::from_index(n).to_index(), n);
    }
    if usize::BITS == 64 {
        for n in [1usize << 40, (1 << 52) + 1, (1 << 53) - 1] {
            assert_eq!(Double::from_index(n).to_index(), n);
        }
    }
}

#[test]
fn decimal_writes_digits() {
    assert_eq!(decimal(0), "0");
    assert_eq!(decimal(7), "7");
    assert_eq!(decimal(10), "10");
    assert_eq!(decimal(123), "123");
    assert_eq!(decimal(9007199254740993 % (usize::MAX / 2 + 1)), (9007199254740993usize % (usize::MAX / 2 + 1)).to_string());
    assert_eq!(decimal(usize::MAX), usize::MAX.to_string());
}

#[test]
fn put_decimal_appends() {
    let mut s = String::from("n = ");
    put_decimal(&mut s, 42);
    assert_eq!(s, "n = 42");
    put_decimal(&mut s, 0);
    assert_eq!(s, "n = 420");
}

#[test]
fn put_padded_aligns_to_three() {
    for (n, want) in [(0, "  0"), (9, "  9"), (10, " 10"), (99, " 99"), (100, "100"), (12345, "12345")] {
        let mut s = String::new();
        put_padded(&mut s, n);
        assert_eq!(s, want);
        assert_eq!(s, format!("{n:3}"));
    }
}

#[test]
fn same_compares_characters() {
    assert!(same("", ""));
    assert!(same("+", "+"));
    assert!(!same("+", "-"));
    assert!(!same("x", "xy"));
    assert!(same("grüß", "grüß"));
}

#[test]
fn text_and_put_all_build_pieces() {
    let mut out = vec![text("a"), Piece::Num(num(1.5))];
    put_all(&mut out, vec![text("b"), text("")]);
    let shown: Vec<String> = out
        .iter()
        .map(|p| match p {
            Piece::Text(t) => t.clone(),
            Piece::Char(c) => c.to_string(),
            Piece::Num(d) => format!("<{}>", d.bits),
        })
        .collect();
    assert_eq!(shown, ["a", "<4609434218613702656>", "b", ""]);
    put_all(&mut out, vec![]);
    assert_eq!(out.len(), 4);
    put(&mut out, Piece::Char('c'));
    put_text(&mut out, "tail");
    assert_eq!(out[4..], [Piece::Char('c'), text("tail")]);
    assert_eq!(single(text("one")), vec![Piece::Text(String::from("one"))]);
    assert!(no_piece().is_empty());
}
