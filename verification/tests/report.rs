use warmer::report::{
    decimal, display_target, format_data_size, round_div, status_style, StatusStyle,
};

#[test]
fn status_styles() {
    assert_eq!(status_style(200), StatusStyle::Green);
    assert_eq!(status_style(299), StatusStyle::Green);
    assert_eq!(status_style(300), StatusStyle::Yellow);
    assert_eq!(status_style(399), StatusStyle::Yellow);
    assert_eq!(status_style(400), StatusStyle::Red);
    assert_eq!(status_style(499), StatusStyle::Red);
    assert_eq!(status_style(500), StatusStyle::RedBold);
    assert_eq!(status_style(599), StatusStyle::RedBold);
    assert_eq!(status_style(600), StatusStyle::White);
    assert_eq!(status_style(199), StatusStyle::White);
    assert_eq!(status_style(0), StatusStyle::White);
}

#[test]
fn decimal_digits() {
    for n in [0u64, 1, 9, 10, 11, 99, 100, 101, 1234567890, u64::MAX] {
        assert_eq!(decimal(n), n.to_string());
    }
    assert_eq!(decimal(0), "0");
    assert_eq!(decimal(u64::MAX), "18446744073709551615");
}

#[test]
fn division_rounds_to_nearest_and_ties_to_even() {
    assert_eq!(round_div(0, 1024), 0);
    assert_eq!(round_div(511, 1024), 0);
    assert_eq!(round_div(512, 1024), 0);
    assert_eq!(round_div(513, 1024), 1);
    assert_eq!(round_div(1536, 1024), 2);
    assert_eq!(round_div(2560, 1024), 2);
    assert_eq!(round_div(3584, 1024), 4);
    assert_eq!(round_div(7, 2), 4);
    assert_eq!(round_div(5, 2), 2);
    assert_eq!(round_div(10, 3), 3);
    assert_eq!(round_div(11, 3), 4);
    assert_eq!(round_div(u64::MAX, 2), 9223372036854775808);
    assert_eq!(round_div(u64::MAX, u64::MAX), 1);
    assert_eq!(round_div(u64::MAX, 1), u64::MAX);
    assert_eq!(round_div(0, 1), 0);
}

#[test]
fn data_sizes() {
    assert_eq!(format_data_size(0), "0 bytes");
    assert_eq!(format_data_size(1023), "1023 bytes");
    assert_eq!(format_data_size(1024), "1 KB");
    assert_eq!(format_data_size(1536), "2 KB");
    assert_eq!(format_data_size(2560), "2 KB");
    assert_eq!(format_data_size(1024 * 1024 - 1), "1024 KB");
    assert_eq!(format_data_size(1024 * 1024), "1 MB");
    assert_eq!(format_data_size(5 * 1024 * 1024 + 1), "5 MB");
    assert_eq!(format_data_size(1572864), "2 MB");
    assert_eq!(format_data_size(2621440), "2 MB");
}

#[test]
fn data_sizes_agree_with_floating_point_formatting() {
    let mut samples: Vec<u64> = (0..5000).collect();
    for k in 0..4000u64 {
        samples.push(k * 257 + 1024);
        samples.push(k * 512);
        samples.push(k * 524_288);
        samples.push(k * 1_048_576 + 524_287 + (k % 3));
        samples.push(k * 7_919_003);
    }
    for bytes in samples {
        let expected = if bytes < 1024 {
            format!("{} bytes", bytes)
        } else if bytes < 1024 * 1024 {
            format!("{:.0} KB", bytes as f64 / 1024.0)
        } else {
            format!("{:.0} MB", bytes as f64 / (1024.0 * 1024.0))
        };
        assert_eq!(format_data_size(bytes), expected, "for {}", bytes);
    }
}

#[test]
fn target_of_a_run() {
    assert_eq!(display_target(&vec!["https://x/".to_string()]), "https://x/");
    assert_eq!(
        display_target(&vec!["a".to_string(), "b".to_string(), "c".to_string()]),
        "3 URLs from sitemap"
    );
    assert_eq!(display_target(&Vec::new()), "0 URLs from sitemap");
}
