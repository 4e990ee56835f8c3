use statusline::numbers::{ctx_text, fmt_num};

/// One decimal by way of a double, a trailing `.0` dropped.
fn by_double(n: u64) -> String {
    if n < 1000 {
        return n.to_string();
    }
    let (scale, unit) = if n < 1_000_000 {
        (1000.0f64, "k")
    } else if n < 1_000_000_000 {
        (1_000_000.0, "M")
    } else {
        (1_000_000_000.0, "B")
    };
    let text = format!("{:.1}", n as f64 / scale);
    match text.strip_suffix(".0") {
        Some(whole) => format!("{}{}", whole, unit),
        None => format!("{}{}", text, unit),
    }
}

#[test]
fn shortens_the_documented_examples() {
    assert_eq!(fmt_num(5500), "5.5k");
    assert_eq!(fmt_num(5000), "5k");
    assert_eq!(fmt_num(1_200_000), "1.2M");
    assert_eq!(fmt_num(1_500_000_000), "1.5B");
}

#[test]
fn keeps_small_numbers() {
    assert_eq!(fmt_num(0), "0");
    assert_eq!(fmt_num(7), "7");
    assert_eq!(fmt_num(10), "10");
    assert_eq!(fmt_num(999), "999");
    assert_eq!(fmt_num(1000), "1k");
}

#[test]
fn rounds_up_to_a_thousand_of_the_unit() {
    assert_eq!(fmt_num(999_999), "1000k");
    assert_eq!(fmt_num(999_949), "999.9k");
    assert_eq!(fmt_num(999_999_999), "1000M");
    assert_eq!(fmt_num(u64::MAX), "18446744073.7B");
}

#[test]
fn ties_go_by_the_nearest_double() {
    // 1.25 and 1.75 are doubles: the tie goes to the even tenth.
    assert_eq!(fmt_num(1250), "1.2k");
    assert_eq!(fmt_num(1750), "1.8k");
    // 1.05 lies above its tie as a double, 1.15 below.
    assert_eq!(fmt_num(1050), by_double(1050));
    assert_eq!(fmt_num(1150), by_double(1150));
    let mut n: u64 = 1000;
    while n < 1_000_000 {
        assert_eq!(fmt_num(n), by_double(n), "{}", n);
        n += 50;
    }
    while n < 1_000_000_000 {
        assert_eq!(fmt_num(n), by_double(n), "{}", n);
        n += 50_000;
    }
    let mut i: u64 = 0;
    while i < 200_000 {
        let n = 1_050_000_000 + i * 92_233_000_000_000 / 200_000 * 50_000_000 / 1000;
        assert_eq!(fmt_num(n), by_double(n), "{}", n);
        i += 7;
    }
}

#[test]
fn large_numbers_go_by_the_nearest_double() {
    let mut i: u64 = 0;
    while i < 64 {
        let p = 1u64 << i;
        for n in [p - 1, p, p + 1, p + p / 3, p | (p >> 1) | (p >> 20)] {
            assert_eq!(fmt_num(n), by_double(n), "{}", n);
        }
        i += 1;
    }
    // Near the ties of a tenth of a billion, where a double is coarser than 1.
    let mut k: u64 = 0;
    while k < 184_467_440_000 {
        let tie = k * 100_000_000 + 50_000_000;
        for off in [0u64, 1, 2, 63, 64, 65, 127, 128, 255, 256, 511, 512, 1000, 1023, 1024] {
            assert_eq!(fmt_num(tie + off), by_double(tie + off), "{}", tie + off);
            assert_eq!(fmt_num(tie - off), by_double(tie - off), "{}", tie - off);
        }
        k += 92_233_719;
    }
    let mut seed: u64 = 0x9e37_79b9_7f4a_7c15;
    for _ in 0..50_000 {
        seed = seed.wrapping_mul(6364136223846793005).wrapping_add(1442695040888963407);
        let n = seed >> (seed % 60);
        assert_eq!(fmt_num(n), by_double(n), "{}", n);
    }
}

#[test]
fn whole_tenths_are_exact() {
    for t in [10u64, 11, 55, 999, 5000, 9999] {
        assert_eq!(
            fmt_num(t * 100),
            if t % 10 == 0 {
                format!("{}k", t / 10)
            } else {
                format!("{}.{}k", t / 10, t % 10)
            }
        );
    }
    assert_eq!(fmt_num(184_467_440_737 * 100_000_000), "18446744073.7B");
}

#[test]
fn shown_value_never_falls() {
    let value = |n: u64| -> f64 {
        let text = fmt_num(n);
        let (digits, unit) = match text.chars().last().unwrap() {
            'k' => (&text[..text.len() - 1], 1e3),
            'M' => (&text[..text.len() - 1], 1e6),
            'B' => (&text[..text.len() - 1], 1e9),
            _ => (text.as_str(), 1.0),
        };
        digits.parse::<f64>().unwrap() * unit
    };
    let mut before = 0.0;
    let mut n: u64 = 0;
    while n < 3_000_000_000_000 {
        let now = value(n);
        assert!(now >= before, "{}", n);
        before = now;
        n += 1 + n / 997;
    }
    for n in [999u64, 999_949, 999_950, 999_999, 999_949_999, 999_999_999] {
        assert!(value(n) <= value(n + 1), "{}", n);
    }
}

#[test]
fn context_section() {
    assert_eq!(ctx_text(2000, Some(10_000)).as_deref(), Some("ctx:20.0% (2k/10k)"));
    assert_eq!(ctx_text(500, Some(10_000)).as_deref(), Some("ctx:5.0% (500/10k)"));
    assert_eq!(ctx_text(1234, Some(200_000)).as_deref(), Some("ctx:0.6% (1.2k/200k)"));
    assert_eq!(ctx_text(3, Some(2)).as_deref(), Some("ctx:150.0% (3/2)"));
}

#[test]
fn context_section_saturates() {
    assert_eq!(
        ctx_text(u64::MAX, Some(u64::MAX)).as_deref(),
        Some("ctx:0.1% (18446744073.7B/18446744073.7B)")
    );
}

#[test]
fn context_section_hides_until_both_are_known() {
    assert_eq!(ctx_text(2000, None), None);
    assert_eq!(ctx_text(0, Some(10_000)), None);
    assert_eq!(ctx_text(2000, Some(0)), None);
    assert_eq!(ctx_text(0, None), None);
}
