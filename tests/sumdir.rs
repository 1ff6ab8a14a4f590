use sumdir::{
    compare_keys, content_type, decimal_string, escape_json, extension_of, friendly_bytes,
    mime_or_default, CountMap, OutputFormat, Report, ScanError, Visit,
};
use std::cmp::Ordering;

const PNG_HEADER: [u8; 8] = [0x89, 0x50, 0x4E, 0x47, 0x0D, 0x0A, 0x1A, 0x0A];

fn file(path: &str, name: &str, size: u64, head: &[u8]) -> Visit {
    Visit::File {
        path: path.to_string(),
        name: name.to_string(),
        size: Ok(size),
        head: Ok(head.to_vec()),
    }
}

fn scan(visits: Vec<Visit>) -> Report {
    let mut report = Report::new();
    for v in visits {
        assert!(report.fits(&v));
        report.record(v);
    }
    report
}

#[test]
fn test_friendly_bytes() {
    assert_eq!(friendly_bytes(123), "123 bytes".to_string());
    assert_eq!(friendly_bytes(1234), "1 KiB".to_string());
    assert_eq!(friendly_bytes(1234567), "1 MiB".to_string());
    assert_eq!(friendly_bytes(1234567890), "1 GiB".to_string());
    assert_eq!(friendly_bytes(1234567890123), "1 TiB".to_string());
}

#[test]
fn friendly_bytes_unit_boundaries() {
    assert_eq!(friendly_bytes(0), "0 bytes");
    assert_eq!(friendly_bytes(1023), "1023 bytes");
    assert_eq!(friendly_bytes(1024), "1 KiB");
    assert_eq!(friendly_bytes(1024 * 1024 - 1), "1023 KiB");
    assert_eq!(friendly_bytes(1024 * 1024), "1 MiB");
    assert_eq!(friendly_bytes(5 * 1024 * 1024 * 1024), "5 GiB");
    assert_eq!(friendly_bytes(3000 * 1024 * 1024 * 1024 * 1024), "3000 TiB");
    assert_eq!(friendly_bytes(u64::MAX), "16777215 TiB");
}

#[test]
fn decimal_string_writes_digits() {
    assert_eq!(decimal_string(0), "0");
    assert_eq!(decimal_string(7), "7");
    assert_eq!(decimal_string(10), "10");
    assert_eq!(decimal_string(9876543210), "9876543210");
    assert_eq!(decimal_string(u64::MAX), "18446744073709551615");
}

#[test]
fn test_detect_mimetype_png() {
    assert_eq!(content_type(&PNG_HEADER), "image/png");
}

#[test]
fn test_detect_mimetype_pdf() {
    assert_eq!(content_type(b"%PDF-1.4"), "application/pdf");
}

#[test]
fn test_detect_mimetype_unknown() {
    assert_eq!(content_type(b"Hello, world!"), "application/octet-stream");
}

#[test]
fn empty_prefix_gets_fallback_label() {
    assert_eq!(content_type(b""), "application/octet-stream");
}

#[test]
fn mime_or_default_keeps_found_type() {
    assert_eq!(mime_or_default(Some("image/gif".to_string())), "image/gif");
    assert_eq!(mime_or_default(None), "application/octet-stream");
}

#[test]
fn extension_is_text_after_last_dot() {
    assert_eq!(extension_of("photo.png"), "png");
    assert_eq!(extension_of("archive.tar.gz"), "gz");
    assert_eq!(extension_of("README"), "");
    assert_eq!(extension_of("trailing."), "");
    assert_eq!(extension_of("Report.PDF"), "PDF");
    assert_eq!(extension_of("名前.tëxt"), "tëxt");
    assert_eq!(extension_of(""), "");
}

#[test]
fn escape_json_escapes_backslash_and_quote() {
    assert_eq!(escape_json(r#"say "hi" \o/"#), r#"say \"hi\" \\o/"#);
    assert_eq!(escape_json("plain"), "plain");
    assert_eq!(escape_json(""), "");
}

#[test]
fn compare_keys_is_lexicographic() {
    assert_eq!(compare_keys("abc", "abd"), Ordering::Less);
    assert_eq!(compare_keys("ab", "abc"), Ordering::Less);
    assert_eq!(compare_keys("b", "abc"), Ordering::Greater);
    assert_eq!(compare_keys("same", "same"), Ordering::Equal);
    assert_eq!(compare_keys("Z", "a"), Ordering::Less);
}

#[test]
fn count_map_counts_and_sorts() {
    let mut m = CountMap::new();
    for k in ["txt", "png", "txt", "md", "png", "txt", "a"] {
        m.increment(k.to_string());
    }
    assert_eq!(m.len(), 4);
    assert_eq!(m.get("txt"), Some(3));
    assert_eq!(m.get("png"), Some(2));
    assert_eq!(m.get("missing"), None);
    assert_eq!(m.total(), 7);
    let sorted = m.sorted();
    let keys: Vec<&str> = sorted.iter().map(|e| e.0.as_str()).collect();
    assert_eq!(keys, vec!["txt", "png", "a", "md"]);
}

#[test]
fn test_scan_error_contains_path_and_message() {
    let error = ScanError {
        path: "/some/path/file.txt".to_string(),
        message: "test error message".to_string(),
    };

    assert_eq!(error.path, "/some/path/file.txt");
    assert_eq!(error.message, "test error message");
}

#[test]
fn test_report_with_errors_displays_count() {
    let mut report = Report::default();
    report.errors.push(ScanError {
        path: "/path/to/file1.txt".to_string(),
        message: "error 1".to_string(),
    });
    report.errors.push(ScanError {
        path: "/path/to/file2.txt".to_string(),
        message: "error 2".to_string(),
    });

    assert_eq!(report.errors.len(), 2);
    assert_eq!(report.errors[0].path, "/path/to/file1.txt");
    assert_eq!(report.errors[1].path, "/path/to/file2.txt");
}

#[test]
fn test_scan_populates_mimetypes() {
    let report = scan(vec![
        file("d/image.png", "image.png", 8, &PNG_HEADER),
        file("d/doc.pdf", "doc.pdf", 8, b"%PDF-1.4"),
        file("d/readme.txt", "readme.txt", 5, b"Hello"),
    ]);

    assert_eq!(report.mimetypes.get("image/png"), Some(1));
    assert_eq!(report.mimetypes.get("application/pdf"), Some(1));
    assert_eq!(report.mimetypes.get("application/octet-stream"), Some(1));
    assert_eq!(report.mimetypes.len(), 3);
    assert_eq!(report.errors.len(), 0);
}

#[test]
fn test_scan_unreadable_directory() {
    let report = scan(vec![
        Visit::Failed {
            path: "/tmp/sumdir_test_unreadable/no_access".to_string(),
            message: "failed to read entry: Permission denied".to_string(),
        },
        file("/tmp/sumdir_test_unreadable/readable.txt", "readable.txt", 5, b"hello"),
    ]);

    assert_eq!(report.extensions.get("txt"), Some(1));
    assert_eq!(report.extensions.len(), 1);
    assert!(!report.errors.is_empty(), "expected errors for unreadable directory");
    assert!(
        report.errors.iter().any(|e| e.path.contains("no_access")),
        "error should contain path to unreadable directory"
    );
}

#[test]
fn totals_follow_the_visits() {
    let report = scan(vec![
        Visit::Folder { path: "root/a".to_string() },
        file("root/a/x.txt", "x.txt", 100, b"x"),
        Visit::Folder { path: "root/b".to_string() },
        file("root/b/y.png", "y.png", 8, &PNG_HEADER),
        Visit::File {
            path: "root/b/gone.txt".to_string(),
            name: "gone.txt".to_string(),
            size: Err("failed to read metadata".to_string()),
            head: Ok(vec![]),
        },
        Visit::File {
            path: "root/b/locked.bin".to_string(),
            name: "locked.bin".to_string(),
            size: Ok(4096),
            head: Err("failed to open".to_string()),
        },
        file("root/z.txt", "z.txt", 1000, b"z"),
        Visit::Failed { path: "root/c".to_string(), message: "denied".to_string() },
    ]);
    assert_eq!(report.extensions.total(), 3);
    assert_eq!(report.mimetypes.total(), 3);
    assert_eq!(report.folders, vec!["root/a".to_string(), "root/b".to_string()]);
    assert_eq!(report.size, 1108);
    assert_eq!(report.errors.len(), 3);
    assert_eq!(report.extensions.get("bin"), None);
    assert_eq!(report.errors[1].path, "root/b/locked.bin");
    assert_eq!(report.errors[1].message, "failed to open");
}

#[test]
fn fits_refuses_size_overflow() {
    let mut report = Report::new();
    report.record(file("big", "big", u64::MAX - 1, b""));
    assert!(report.fits(&file("one", "one", 1, b"")));
    assert!(!report.fits(&file("two", "two", 2, b"")));
    assert!(report.fits(&Visit::Folder { path: "d".to_string() }));
}

#[test]
fn text_form_lists_sorted_counts() {
    let report = scan(vec![
        Visit::Folder { path: "r/sub".to_string() },
        file("r/b.txt", "b.txt", 1000, b"b"),
        file("r/a.md", "a.md", 1000, b"a"),
        file("r/c.txt", "c.txt", 1000, b"c"),
        file("r/d.md", "d.md", 72, b"d"),
        file("r/e.rs", "e.rs", 1, b"e"),
    ]);
    let out = report.display(&OutputFormat::Text, false);
    assert_eq!(out, "5 files, 1 folders, 3 KiB\nmd: 2\ntxt: 2\nrs: 1\n");
}

#[test]
fn text_form_shows_error_count_only_when_present() {
    let mut report = scan(vec![file("r/a.txt", "a.txt", 10, b"a")]);
    assert_eq!(report.display(&OutputFormat::Text, false), "1 files, 0 folders, 10 bytes\ntxt: 1\n");
    report.record(Visit::Failed { path: "r/x".to_string(), message: "m".to_string() });
    assert_eq!(
        report.display(&OutputFormat::Text, false),
        "1 files, 0 folders, 10 bytes, 1 errors\ntxt: 1\n"
    );
}

#[test]
fn csv_form_names_the_grouping() {
    let report = scan(vec![
        file("r/a.png", "a.png", 8, &PNG_HEADER),
        file("r/b.txt", "b.txt", 2, b"hi"),
        file("r/c.txt", "c.txt", 2, b"yo"),
    ]);
    assert_eq!(report.display(&OutputFormat::Csv, false), "extension,count\ntxt,2\npng,1\n");
    assert_eq!(
        report.display(&OutputFormat::Csv, true),
        "mimetype,count\napplication/octet-stream,2\nimage/png,1\n"
    );
}

#[test]
fn json_form_of_empty_report_is_valid() {
    let report = Report::new();
    let expected = "{\n  \"files\": 0,\n  \"folders\": 0,\n  \"size\": 0,\n  \"extensions\": {\n\n  },\n  \"errors\": [\n\n  ]\n}\n";
    assert_eq!(report.display(&OutputFormat::Json, false), expected);
    let mime = report.display(&OutputFormat::Json, true);
    assert!(mime.contains("\"mimetypes\": {\n\n  },"));
    assert!(!mime.contains(",\n  }"));
    assert!(!mime.contains(",\n  ]"));
}

#[test]
fn json_form_with_entries_and_errors() {
    let report = scan(vec![
        Visit::Folder { path: "r/s".to_string() },
        file("r/a.txt", "a.txt", 3, b"abc"),
        file("r/b.png", "b.png", 8, &PNG_HEADER),
        file("r/c.txt", "c.txt", 3, b"abc"),
        Visit::Failed { path: "r/x".to_string(), message: "bad \"name\" at C:\\".to_string() },
        Visit::Failed { path: "r/y".to_string(), message: "denied".to_string() },
    ]);
    let expected = [
        "{\n",
        "  \"files\": 3,\n",
        "  \"folders\": 1,\n",
        "  \"size\": 14,\n",
        "  \"extensions\": {\n",
        "    \"txt\": 2,\n",
        "    \"png\": 1\n",
        "  },\n",
        "  \"errors\": [\n",
        "    {\n",
        "      \"path\": \"r/x\",\n",
        "      \"message\": \"bad \\\"name\\\" at C:\\\\\"\n",
        "    },\n",
        "    {\n",
        "      \"path\": \"r/y\",\n",
        "      \"message\": \"denied\"\n",
        "    }\n",
        "  ]\n",
        "}\n",
    ]
    .concat();
    assert_eq!(report.display(&OutputFormat::Json, false), expected);
}

#[test]
fn rendering_twice_gives_identical_output() {
    let build = |order: &[&str]| {
        let visits = order
            .iter()
            .map(|n| file(&format!("r/{n}"), n, 1, b"x"))
            .collect::<Vec<_>>();
        scan(visits)
    };
    let first = build(&["b.zz", "a.yy", "c.xx", "a2.yy", "c2.xx"]);
    let second = build(&["c.xx", "c2.xx", "a.yy", "a2.yy", "b.zz"]);
    for format in [OutputFormat::Text, OutputFormat::Csv, OutputFormat::Json] {
        for use_mime in [false, true] {
            let once = first.display(&format, use_mime);
            assert_eq!(once, first.display(&format, use_mime));
            assert_eq!(once, second.display(&format, use_mime));
        }
    }
    assert_eq!(first.display(&OutputFormat::Csv, false), "extension,count\nxx,2\nyy,2\nzz,1\n");
}
