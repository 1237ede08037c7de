use struct_tree::utils::format_size;

#[test]
fn format_size_writes_plain_bytes_below_one_kibibyte() {
    assert_eq!(format_size(0), "0B");
    assert_eq!(format_size(1), "1B");
    assert_eq!(format_size(1023), "1023B");
}

#[test]
fn format_size_switches_units_at_binary_thresholds() {
    assert_eq!(format_size(1024), "1.0K");
    assert_eq!(format_size(1536), "1.5K");
    assert_eq!(format_size(1024 * 1024 - 1), "1024.0K");
    assert_eq!(format_size(1024 * 1024), "1.0M");
    assert_eq!(format_size(5 * 1024 * 1024 + 512 * 1024), "5.5M");
    assert_eq!(format_size(1024 * 1024 * 1024), "1.0G");
    assert_eq!(format_size(u64::MAX), "17179869184.0G");
}

#[test]
fn format_size_rounds_ties_to_the_even_tenth() {
    assert_eq!(format_size(1280), "1.2K");
    assert_eq!(format_size(1792), "1.8K");
    assert_eq!(format_size(1075), "1.0K");
    assert_eq!(format_size(1126), "1.1K");
}

#[test]
fn format_size_agrees_with_float_formatting() {
    let mut n: u64 = 1;
    let mut step: u64 = 1;
    while n < u64::MAX / 3 {
        let expected = if n >= 1 << 30 {
            format!("{:.1}G", n as f64 / (1u64 << 30) as f64)
        } else if n >= 1 << 20 {
            format!("{:.1}M", n as f64 / (1u64 << 20) as f64)
        } else if n >= 1 << 10 {
            format!("{:.1}K", n as f64 / (1u64 << 10) as f64)
        } else {
            format!("{}B", n)
        };
        assert_eq!(format_size(n), expected);
        n += step;
        step = step + step / 7 + 1;
    }
    let near = [
        (1u64 << 53) - 1,
        1 << 53,
        (1 << 53) + 1,
        (1 << 53) + 3,
        (1 << 60) + (1 << 29) + 255,
        (1 << 63) + 1023,
        (1 << 63) + 1024,
        (1 << 63) + 1025,
        (1 << 63) + 3072,
        u64::MAX - 1024,
        u64::MAX - 1023,
    ];
    for n in near {
        assert_eq!(format_size(n), format!("{:.1}G", n as f64 / (1u64 << 30) as f64));
    }
}
