use opendal_demo::size_text::{format_average_kb, format_kb, format_kb_or_bytes, format_size};

// The size text as the walkthrough computes it with floating point.
fn float_format_size(bytes: u64) -> String {
    const KB: u64 = 1024;
    const MB: u64 = KB * 1024;
    const GB: u64 = MB * 1024;
    if bytes >= GB {
        format!("{:.2} GB", bytes as f64 / GB as f64)
    } else if bytes >= MB {
        format!("{:.2} MB", bytes as f64 / MB as f64)
    } else if bytes >= KB {
        format!("{:.2} KB", bytes as f64 / KB as f64)
    } else {
        format!("{} bytes", bytes)
    }
}

fn sample_sizes() -> Vec<u64> {
    let mut v: Vec<u64> = Vec::new();
    for b in 0..5000u64 {
        v.push(b);
    }
    let mut x: u64 = 1;
    while x < u64::MAX / 3 {
        for d in [0u64, 1, 2, 3, 5, 7, 511, 512, 513, 1023, 1024, 1025] {
            v.push(x.wrapping_add(d));
            v.push(x.wrapping_sub(d));
            v.push(x.wrapping_mul(3).wrapping_add(d));
        }
        x = x * 2;
    }
    // ties of the hundredths rounding in each unit
    for k in 0..2000u64 {
        v.push(k * 1024 + 128 * 5);
        v.push(k * 1048576 + 131072 * 5);
        v.push(k * 1073741824 + 134217728 * 5);
        v.push(k.wrapping_mul(2654435761).wrapping_mul(40503));
    }
    v.push(u64::MAX);
    v.push(u64::MAX - 1);
    v.push((1u64 << 53) + 1);
    v.push((1u64 << 54) + 2);
    v.push((1u64 << 54) + 6);
    v
}

#[test]
fn format_size_matches_float_formatting() {
    for b in sample_sizes() {
        assert_eq!(format_size(b), float_format_size(b), "size {}", b);
    }
}

#[test]
fn format_size_examples() {
    assert_eq!(format_size(0), "0 bytes");
    assert_eq!(format_size(1023), "1023 bytes");
    assert_eq!(format_size(1024), "1.00 KB");
    assert_eq!(format_size(1536), "1.50 KB");
    assert_eq!(format_size(10 * 1024), "10.00 KB");
    assert_eq!(format_size(100 * 1024), "100.00 KB");
    assert_eq!(format_size(1048576), "1.00 MB");
    assert_eq!(format_size(1073741824), "1.00 GB");
    assert_eq!(format_size(u64::MAX), "17179869184.00 GB");
}

#[test]
fn format_kb_or_bytes_matches_float_formatting() {
    for b in sample_sizes() {
        let expected = if b >= 1024 {
            format!("{:.2} KB", b as f64 / 1024.0)
        } else {
            format!("{} bytes", b)
        };
        assert_eq!(format_kb_or_bytes(b), expected, "size {}", b);
        assert_eq!(format_kb(b), format!("{:.2} KB", b as f64 / 1024.0), "size {}", b);
    }
}

#[test]
fn format_kb_or_bytes_examples() {
    assert_eq!(format_kb_or_bytes(3), "3 bytes");
    assert_eq!(format_kb_or_bytes(1024), "1.00 KB");
    assert_eq!(format_kb_or_bytes(10240), "10.00 KB");
    assert_eq!(format_kb(11267), "11.00 KB");
}

#[test]
fn average_matches_float_formatting() {
    let totals = sample_sizes();
    let counts: Vec<usize> = vec![1, 2, 3, 5, 7, 9, 10, 11, 13, 100, 1000, 3333, 65537, 1 << 40, usize::MAX];
    for (i, t) in totals.iter().enumerate() {
        for c in counts.iter() {
            if (i + *c) % 3 != 0 {
                continue;
            }
            let expected = format!("{:.2} KB", (*t as f64 / *c as f64) / 1024.0);
            assert_eq!(format_average_kb(*t, *c), expected, "total {} count {}", t, c);
        }
    }
}

#[test]
fn average_examples() {
    // the metadata walkthrough: 3 bytes, 1024 bytes and 10240 bytes
    assert_eq!(format_average_kb(3 + 1024 + 10240, 3), "3.67 KB");
    assert_eq!(format_average_kb(0, 0), "NaN KB");
    assert_eq!(format_average_kb(5, 0), "inf KB");
    assert_eq!(format_average_kb(0, 4), "0.00 KB");
    assert_eq!(format_average_kb(1, 3), format!("{:.2} KB", (1.0f64 / 3.0) / 1024.0));
}

// The unit's rank and the figure of a readable size.
fn rank_and_figure(text: &str) -> (u32, f64) {
    let (number, unit) = text.split_once(' ').unwrap();
    let rank = match unit {
        "bytes" => 0,
        "KB" => 1,
        "MB" => 2,
        "GB" => 3,
        _ => panic!("unexpected unit {}", unit),
    };
    (rank, number.parse().unwrap())
}

#[test]
fn larger_sizes_never_read_smaller() {
    let mut sizes = sample_sizes();
    sizes.extend([1535, 1536, 1537, 1048575, 1048576, 1073741823, 1073741824, 9007199254740993, u64::MAX]);
    sizes.sort();
    for pair in sizes.windows(2) {
        let (ra, fa) = rank_and_figure(&format_size(pair[0]));
        let (rb, fb) = rank_and_figure(&format_size(pair[1]));
        assert!(ra <= rb, "{} then {}", pair[0], pair[1]);
        if ra == rb {
            assert!(fa <= fb, "{} then {}", pair[0], pair[1]);
        }
    }
}
