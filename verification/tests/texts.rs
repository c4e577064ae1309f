use opendal_demo::clock::format_elapsed;
use opendal_demo::entry::{EntryInfo, EntryKind};
use opendal_demo::report::{byte_ramp, detail_line, file_size_lines, numbered_text, root_line, summary_line, table_row};
use opendal_demo::text::{pad_left, pad_right, push_decimal, repeat_text};

fn decimal(n: u128) -> String {
    let mut s = String::new();
    push_decimal(&mut s, n);
    s
}

#[test]
fn decimals() {
    assert_eq!(decimal(0), "0");
    assert_eq!(decimal(7), "7");
    assert_eq!(decimal(10), "10");
    assert_eq!(decimal(1234567890), "1234567890");
    assert_eq!(decimal(u128::MAX), u128::MAX.to_string());
    let mut s = String::from("n=");
    push_decimal(&mut s, 42);
    assert_eq!(s, "n=42");
}

#[test]
fn repetition() {
    assert_eq!(repeat_text("x", 0), "");
    assert_eq!(repeat_text("x", 1024 * 100), "x".repeat(1024 * 100));
    assert_eq!(repeat_text("  ", 3), "      ");
    assert_eq!(repeat_text("-", 58), "-".repeat(58));
}

#[test]
fn padding_follows_format_widths() {
    for s in ["", "a", "文件名", "stat-demo/medium.txt", "a-very-long-name-that-exceeds-the-field-width.txt"] {
        assert_eq!(pad_right(s, 30), format!("{:<30}", s));
        assert_eq!(pad_left(s, 15), format!("{:>15}", s));
        assert_eq!(pad_left(s, 0), s);
    }
}

#[test]
fn table_rows() {
    assert_eq!(table_row("文件名", "大小", "类型"), format!("   {:<30} {:>15} {:>10}", "文件名", "大小", "类型"));
    assert_eq!(
        table_row("stat-demo/small.txt", "15 bytes", "FILE"),
        format!("   {:<30} {:>15} {:>10}", "stat-demo/small.txt", "15 bytes", "FILE")
    );
}

#[test]
fn entry_lines() {
    let f = EntryInfo::new("stat-demo/medium.txt".to_string(), "medium.txt".to_string(), EntryKind::File, 10240);
    let d = EntryInfo::new("stat-demo/subdir/".to_string(), "subdir/".to_string(), EntryKind::Dir, 0);
    assert_eq!(summary_line(&f), format!("   📄 {:<25} {}", "medium.txt", "10.00 KB"));
    assert_eq!(summary_line(&d), format!("   📁 {:<25} {}", "subdir/", "-"));
    assert_eq!(detail_line(&f), "   📄 stat-demo/medium.txt (10240 bytes)");
    assert_eq!(detail_line(&d), "   📁 stat-demo/subdir/ (-)");
    assert_eq!(root_line(&f), "   📄 FILE stat-demo/medium.txt");
    assert_eq!(root_line(&d), "   📁 DIR  stat-demo/subdir/");
}

#[test]
fn numbered_names() {
    assert_eq!(numbered_text("complete/batch/file_", 3, ".txt"), "complete/batch/file_3.txt");
    assert_eq!(numbered_text("批量文件 ", 5, ""), "批量文件 5");
    assert_eq!(numbered_text("这是批量上传的第 ", 1, " 个文件"), "这是批量上传的第 1 个文件");
}

#[test]
fn ramp() {
    let v = byte_ramp();
    let expected: Vec<u8> = (0..=255).collect();
    assert_eq!(v, expected);
}

#[test]
fn elapsed() {
    assert_eq!(format_elapsed(0), "0 秒前");
    assert_eq!(format_elapsed(59), "59 秒前");
    assert_eq!(format_elapsed(60), "1 分钟前");
    assert_eq!(format_elapsed(3599), "59 分钟前");
    assert_eq!(format_elapsed(3600), "1 小时前");
    assert_eq!(format_elapsed(86399), "23 小时前");
    assert_eq!(format_elapsed(86400), "1 天前");
    assert_eq!(format_elapsed(10 * 86400 + 5), "10 天前");
}

#[test]
fn analysis_file_lines() {
    let v = vec![
        EntryInfo::new("complete/analysis/large.txt".to_string(), "large.txt".to_string(), EntryKind::File, 10240),
        EntryInfo::new("complete/analysis/medium.txt".to_string(), "medium.txt".to_string(), EntryKind::File, 1024),
        EntryInfo::new("complete/analysis/sub/".to_string(), "sub/".to_string(), EntryKind::Dir, 0),
        EntryInfo::new("complete/analysis/small.txt".to_string(), "small.txt".to_string(), EntryKind::File, 3),
    ];
    assert_eq!(
        file_size_lines(&v),
        vec!["  📄 large.txt - 10.00 KB", "  📄 medium.txt - 1.00 KB", "  📄 small.txt - 3 bytes"]
    );
}
