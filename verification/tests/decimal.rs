use fluxplay::decimal::{at_least_exec, at_most_exec, parse_decimal, round_to_u32_exec};

fn chars(s: &str) -> Vec<char> {
    s.chars().collect()
}

fn texts() -> Vec<String> {
    let mut out = Vec::new();
    let wholes = [0u64, 1, 2, 3, 7, 19, 20, 31, 59, 63, 64, 143, 359, 360, 1023, 65535, 4294967294];
    let tails = [
        "5", "49", "4999999999999999", "49999999999999999", "499999999999999999",
        "4999999999999999999999", "50000000000000001", "9999999999999999", "99999999999999999",
        "999999999999999999999", "0000000000000001", "00000000000000001", "000000000000000000001",
        "0", "25", "75",
    ];
    for w in wholes {
        for t in tails {
            out.push(format!("{w}.{t}"));
        }
        out.push(format!("{w}"));
    }
    out.push("5.9e1".to_string());
    out.push("0.0000000000000000000000000001e28".to_string());
    out.push("-0.4".to_string());
    out
}

#[test]
fn rounding_matches_binary64() {
    for s in texts() {
        let f: f64 = s.parse().unwrap();
        let d = parse_decimal(&chars(&s)).unwrap();
        assert_eq!(round_to_u32_exec(d), f.round() as u32, "{s}");
    }
}

#[test]
fn bounds_match_binary64() {
    for s in texts() {
        let f: f64 = s.parse().unwrap();
        let d = parse_decimal(&chars(&s)).unwrap();
        for n in [1u64, 2, 3, 20, 32, 60, 64, 144, 360, 1024, 65536] {
            assert_eq!(at_least_exec(d, n), f >= n as f64, "{s} >= {n}");
            assert_eq!(at_most_exec(d, n), f <= n as f64, "{s} <= {n}");
        }
    }
}
