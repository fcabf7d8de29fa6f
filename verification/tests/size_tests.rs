use snack::size::{format_bytes, format_file_size};

/// Byte counts around every unit boundary and tenth, ties included.
fn samples() -> Vec<u64> {
    let mut out = vec![0, 1, 1023, 1024, 1025, 1536, 1638, 1639, 10_240, 1_048_575, 1_048_576];
    for unit in [1024_u64, 1 << 20, 1 << 30] {
        for tenth in 0..40_u64 {
            let base = unit + unit * tenth / 20;
            out.extend([base.saturating_sub(1), base, base + 1]);
        }
    }
    out.extend([
        (1 << 30) - 1,
        (1 << 40) + 7,
        (1 << 53) + 1,
        (1 << 53) + 3,
        u64::MAX / 3,
        u64::MAX - 1,
        u64::MAX,
    ]);
    let mut x: u64 = 0x9E37_79B9_7F4A_7C15;
    for _ in 0..2000 {
        x ^= x << 13;
        x ^= x >> 7;
        x ^= x << 17;
        out.push(x >> (x % 60));
    }
    out
}

fn float_file_size(bytes: u64) -> String {
    const KB: f64 = 1024.0;
    const MB: f64 = KB * 1024.0;
    const GB: f64 = MB * 1024.0;
    if bytes < 1024 {
        format!("{bytes} B")
    } else if (bytes as f64) < MB {
        format!("{:.1} KB", bytes as f64 / KB)
    } else if (bytes as f64) < GB {
        format!("{:.1} MB", bytes as f64 / MB)
    } else {
        format!("{:.1} GB", bytes as f64 / GB)
    }
}

fn float_bytes(bytes: u64) -> String {
    if bytes < 1024 * 1024 {
        format!("{} KB", (bytes + 1023) / 1024)
    } else {
        format!("{:.1} MB", bytes as f64 / (1024.0 * 1024.0))
    }
}

#[test]
fn file_sizes_match_float_formatting() {
    for bytes in samples() {
        assert_eq!(format_file_size(bytes), float_file_size(bytes), "bytes = {bytes}");
    }
}

#[test]
fn composer_sizes_match_float_formatting() {
    for bytes in samples() {
        assert_eq!(format_bytes(bytes), float_bytes(bytes), "bytes = {bytes}");
    }
}

#[test]
fn composer_sizes_exact_values() {
    assert_eq!(format_bytes(0), "0 KB");
    assert_eq!(format_bytes(1), "1 KB");
    assert_eq!(format_bytes(12 * 1024), "12 KB");
    assert_eq!(format_bytes(1_572_864), "1.5 MB");
}
