use parqeye::double::Double;
use parqeye::utils::{
    commas, format_size, human_readable_bytes, human_readable_count, truncate_str,
};

#[test]
fn test_human_readable_bytes() {
    assert_eq!(human_readable_bytes(0), "0 B");
    assert_eq!(human_readable_bytes(500), "500 B");
    assert_eq!(human_readable_bytes(1024), "1.00 KiB");
    assert_eq!(human_readable_bytes(1536), "1.50 KiB");
    assert_eq!(human_readable_bytes(1024 * 1024), "1.00 MiB");
    assert_eq!(human_readable_bytes(1024 * 1024 * 1024), "1.00 GiB");
    assert_eq!(human_readable_bytes(1024 * 1024 * 1024 * 1024), "1.00 TiB");
    assert_eq!(human_readable_bytes(2500 * 1024 * 1024), "2.44 GiB");
}

#[test]
fn test_human_readable_count() {
    assert_eq!(human_readable_count(0), "0");
    assert_eq!(human_readable_count(500), "500");
    assert_eq!(human_readable_count(999), "999");
    assert_eq!(human_readable_count(1000), "1.0 K");
    assert_eq!(human_readable_count(1500), "1.5 K");
    assert_eq!(human_readable_count(1_000_000), "1.0 M");
    assert_eq!(human_readable_count(1_500_000), "1.5 M");
    assert_eq!(human_readable_count(1_000_000_000), "1.0 B");
    assert_eq!(human_readable_count(2_500_000_000), "2.5 B");
}

#[test]
fn test_truncate_str() {
    assert_eq!(truncate_str("hello", 10), "hello");
    assert_eq!(truncate_str("hello", 5), "hello");
    assert_eq!(truncate_str("hello world", 8), "hello wâ€¦");
    assert_eq!(truncate_str("hello world", 6), "helloâ€¦");
    assert_eq!(truncate_str("", 5), "");
    assert_eq!(truncate_str("a", 1), "a");
    assert_eq!(truncate_str("ab", 1), "â€¦");
    assert_eq!(truncate_str("hello", 3), "heâ€¦");
}

#[test]
fn test_commas() {
    assert_eq!(commas(0), "0");
    assert_eq!(commas(100), "100");
    assert_eq!(commas(999), "999");
    assert_eq!(commas(1000), "1,000");
    assert_eq!(commas(1234), "1,234");
    assert_eq!(commas(1234567), "1,234,567");
    assert_eq!(commas(1_000_000), "1,000,000");
    assert_eq!(commas(1_234_567_890), "1,234,567,890");
}

#[test]
fn test_format_size() {
    assert_eq!(format_size(0), "0 B");
    assert_eq!(format_size(500), "500 B");
    assert_eq!(format_size(1024), "1.0 KB");
    assert_eq!(format_size(1536), "1.5 KB");
    assert_eq!(format_size(1024 * 1024), "1.0 MB");
    assert_eq!(format_size(1024 * 1024 * 1024), "1.0 GB");
    assert_eq!(format_size(1024 * 1024 * 1024 * 1024), "1.0 TB");
}

#[test]
fn test_edge_cases() {
    // Test maximum values
    assert!(human_readable_bytes(u64::MAX).contains("TiB"));
    assert!(human_readable_count(u64::MAX).contains("B"));

    // Test empty string truncation
    assert_eq!(truncate_str("", 0), "");

    // Test single digit comma formatting
    assert_eq!(commas(1), "1");
}

fn sample_numbers() -> Vec<u64> {
    let mut v: Vec<u64> = vec![
        0, 1, 2, 9, 10, 999, 1000, 1001, 1023, 1024, 1025, 1049, 1050, 1051, 1149, 1150, 1151,
        1250, 1350, 1450, 1500, 1536, 1550, 9949, 9950, 9951, 99_949, 99_950, 999_949,
        999_950, 999_999, 1_000_000, 1_049_999, 1_050_000, 1_048_575, 1_048_576, 1_099_999,
        999_999_999, 1_000_000_000, 1_073_741_823, 1_073_741_824, 1_099_511_627_775,
        1_099_511_627_776, 999_999_999_999, 1_000_000_000_000, 1_000_000_000_000_000,
        (1 << 53) - 1, 1 << 53, (1 << 53) + 1, (1 << 53) + 2, (1 << 53) + 3, (1 << 54) + 2,
        (1 << 54) + 6, (1 << 60) - 1, (1 << 63) - 1, 1 << 63, u64::MAX - 1, u64::MAX,
        u64::MAX - 1023, u64::MAX - 1024, u64::MAX - 2048, 18_446_744_073_709_549_568,
    ];
    let mut state: u64 = 0x2545_F491_4F6C_DD1D;
    for i in 0..3000 {
        state ^= state << 13;
        state ^= state >> 7;
        state ^= state << 17;
        v.push(state >> (i % 64));
    }
    v
}

fn bytes_by_floats(bytes: u64) -> String {
    let units = ["B", "KiB", "MiB", "GiB", "TiB"];
    let mut size = bytes as f64;
    let mut unit = 0;
    while size >= 1024.0 && unit < units.len() - 1 {
        size /= 1024.0;
        unit += 1;
    }
    if unit == 0 {
        format!("{:.0} {}", size, units[unit])
    } else {
        format!("{:.2} {}", size, units[unit])
    }
}

fn size_by_floats(bytes: u64) -> String {
    let units = ["B", "KB", "MB", "GB", "TB"];
    let mut size = bytes as f64;
    let mut unit = 0;
    while size >= 1024.0 && unit < units.len() - 1 {
        size /= 1024.0;
        unit += 1;
    }
    if unit == 0 {
        format!("{} {}", bytes, units[unit])
    } else {
        format!("{:.1} {}", size, units[unit])
    }
}

fn count_by_floats(n: u64) -> String {
    let units = ["", "K", "M", "B"];
    let mut unit = 0;
    let mut value = n as f64;
    while value >= 1000.0 && unit < units.len() - 1 {
        value /= 1000.0;
        unit += 1;
    }
    if unit == 0 {
        format!("{n}")
    } else {
        format!("{:.1} {}", value, units[unit])
    }
}

#[test]
fn sizes_and_counts_agree_with_floating_point() {
    for n in sample_numbers() {
        assert_eq!(human_readable_bytes(n), bytes_by_floats(n), "bytes of {}", n);
        assert_eq!(format_size(n), size_by_floats(n), "size of {}", n);
        assert_eq!(human_readable_count(n), count_by_floats(n), "count of {}", n);
    }
}

fn as_float(d: Double) -> f64 {
    match d {
        Double::Finite { negative, mantissa, exponent } => {
            let magnitude = mantissa as f64 * 2f64.powi(exponent);
            if negative {
                -magnitude
            } else {
                magnitude
            }
        }
        Double::Infinite { negative } => {
            if negative {
                f64::NEG_INFINITY
            } else {
                f64::INFINITY
            }
        }
        Double::NotANumber => f64::NAN,
    }
}

#[test]
fn doubles_convert_as_the_machine_does() {
    for n in sample_numbers() {
        assert_eq!(as_float(Double::from_u64(n)).to_bits(), (n as f64).to_bits(), "{}", n);
        let signed = n as i64;
        assert_eq!(
            as_float(Double::from_i64(signed)).to_bits(),
            (signed as f64).to_bits(),
            "{}",
            signed
        );
        assert_eq!(Double::from_u64(n).to_u64(), (n as f64) as u64, "{}", n);
    }
    assert_eq!(as_float(Double::from_i64(i64::MIN)), i64::MIN as f64);
    assert_eq!(Double::from_i64(-5).to_u64(), 0);
}

#[test]
fn doubles_divide_as_the_machine_does() {
    let numbers = sample_numbers();
    for (i, a) in numbers.iter().enumerate() {
        let b = numbers[(i * 7 + 3) % numbers.len()];
        let q = Double::from_u64(*a).divide(Double::from_u64(b));
        let expected = (*a as f64) / (b as f64);
        if expected.is_nan() {
            assert_eq!(q, Double::NotANumber);
        } else {
            assert_eq!(as_float(q).to_bits(), expected.to_bits(), "{} / {}", a, b);
            assert_eq!(q.to_u64(), expected as u64, "{} / {}", a, b);
            assert_eq!(q.to_fixed(2), format!("{:.2}", expected), "{} / {}", a, b);
            assert_eq!(q.is_at_least(1000), expected >= 1000.0, "{} / {}", a, b);
            assert_eq!(q.is_at_least(1), expected >= 1.0, "{} / {}", a, b);
        }
        let signed = Double::from_i64(-(*a as i64 / 3)).divide(Double::from_i64(b as i64 / 5));
        let expected = (-(*a as i64 / 3)) as f64 / ((b as i64 / 5) as f64);
        if expected.is_nan() {
            assert_eq!(signed, Double::NotANumber);
        } else {
            assert_eq!(as_float(signed).to_bits(), expected.to_bits());
            assert_eq!(signed.to_fixed(2), format!("{:.2}", expected));
        }
    }
    assert_eq!(Double::from_u64(1).divide(Double::from_u64(0)).to_fixed(2), "inf");
    assert_eq!(Double::from_i64(-1).divide(Double::from_u64(0)).to_fixed(2), "-inf");
    assert_eq!(Double::from_u64(0).divide(Double::from_u64(0)).to_fixed(2), "NaN");
    assert_eq!(Double::from_u64(1).divide(Double::from_u64(3)).to_fixed(4), "0.3333");
    assert_eq!(Double::from_u64(2).divide(Double::from_u64(3)).to_fixed(4), "0.6667");
}

#[test]
fn text_that_fits_is_kept() {
    assert_eq!(truncate_str("abc", 3), "abc");
    assert_eq!(truncate_str("abc", usize::MAX), "abc");
    assert_eq!(truncate_str("añb", 3), "añb");
    assert_eq!(truncate_str("añbc", 3).chars().count(), 5);
    assert!(truncate_str("añbc", 3).starts_with("añ"));
    assert_eq!(commas(u64::MAX), "18,446,744,073,709,551,615");
    assert_eq!(commas(12), "12");
    assert_eq!(commas(123_456), "123,456");
}
