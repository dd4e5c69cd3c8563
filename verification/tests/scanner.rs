use rgrep::exit_code;
use rgrep::matcher::build_matcher;
use rgrep::matcher::LiteralMatcher;
use rgrep::scanner::aggregate;
use rgrep::scanner::combine;
use rgrep::scanner::scan_files;
use rgrep::scanner::scan_lines;
use rgrep::scanner::scan_one_file;
use rgrep::scanner::FileAccess;
use rgrep::scanner::FileInput;
use rgrep::scanner::LineRead;
use rgrep::scanner::Outcome;

fn lines(texts: &[&str]) -> Vec<LineRead> {
    texts.iter().map(|t| LineRead::Line(t.to_string())).collect()
}

fn text_file(path: &str, texts: &[&str]) -> FileInput {
    FileInput { path: path.to_string(), access: FileAccess::Text(lines(texts)) }
}

fn hello() -> LiteralMatcher {
    LiteralMatcher { pattern: "Hello".to_string() }
}

#[test]
fn scan_lines_emits_matching_line_with_number_and_text() {
    // A two-line file and a literal pattern: exactly one record, for line 2.
    let m = hello();
    let file_lines = lines(&["This is my", "Hello World!"]);
    let (records, outcome) = scan_lines(&m, "with_pattern.txt", &file_lines);

    assert_eq!(records.len(), 1);
    assert_eq!(records[0].path, "with_pattern.txt");
    assert_eq!(records[0].line_number, 2);
    assert_eq!(records[0].text, "Hello World!");
    assert_eq!(outcome, Outcome { had_match: true, had_error: false });
}

#[test]
fn scan_lines_numbers_lines_from_one_in_ascending_order() {
    let m = hello();
    let file_lines = lines(&["Hello a", "none", "Hello b", "Hello c"]);
    let (records, _) = scan_lines(&m, "f", &file_lines);

    let numbers: Vec<usize> = records.iter().map(|r| r.line_number).collect();
    assert_eq!(numbers, vec![1, 3, 4]);
}

#[test]
fn scan_lines_failed_line_sets_error_and_keeps_numbering() {
    // The unreadable line still occupies its line number; scanning goes on.
    let m = hello();
    let file_lines = vec![
        LineRead::Line("This is my".to_string()),
        LineRead::ReadFailed,
        LineRead::Line("Hello World!".to_string()),
    ];
    let (records, outcome) = scan_lines(&m, "f", &file_lines);

    assert_eq!(records.len(), 1);
    assert_eq!(records[0].line_number, 3);
    assert_eq!(outcome, Outcome { had_match: true, had_error: true });
}

#[test]
fn scan_one_file_open_failure_is_an_error_without_records() {
    let m = hello();
    let f = FileInput { path: "gone.txt".to_string(), access: FileAccess::OpenFailed };
    let (records, outcome) = scan_one_file(&m, &f);
    assert_eq!(records.len(), 0);
    assert_eq!(outcome, Outcome { had_match: false, had_error: true });
}

#[test]
fn scan_one_file_sniff_failure_is_an_error_without_records() {
    let m = hello();
    let f = FileInput { path: "f".to_string(), access: FileAccess::SniffFailed };
    let (_, outcome) = scan_one_file(&m, &f);
    assert_eq!(outcome, Outcome { had_match: false, had_error: true });
}

#[test]
fn scan_one_file_rewind_failure_is_an_error_without_records() {
    let m = hello();
    let f = FileInput { path: "f".to_string(), access: FileAccess::RewindFailed };
    let (_, outcome) = scan_one_file(&m, &f);
    assert_eq!(outcome, Outcome { had_match: false, had_error: true });
}

#[test]
fn scan_one_file_binary_is_silently_skipped() {
    let m = hello();
    let f = FileInput { path: "image.bin".to_string(), access: FileAccess::Binary };
    let (records, outcome) = scan_one_file(&m, &f);
    assert_eq!(records.len(), 0);
    assert_eq!(outcome, Outcome { had_match: false, had_error: false });
}

#[test]
fn scan_files_no_match_yields_clean_outcome() {
    let m = hello();
    let files = vec![
        text_file("a.txt", &["This is my", "my World!"]),
        text_file("b.txt", &["Just some", "random string"]),
    ];
    let (records, outcome) = scan_files(&m, &files);
    assert_eq!(records.len(), 0);
    assert_eq!(outcome, Outcome { had_match: false, had_error: false });
}

#[test]
fn scan_files_error_outcome_keeps_matches_from_readable_files() {
    // One matching file and one that cannot be opened: both flags are set
    // and the matching line is still reported.
    let m = hello();
    let files = vec![
        text_file("with_pattern.txt", &["This is my", "Hello World!"]),
        FileInput { path: "no_read_permissions.txt".to_string(), access: FileAccess::OpenFailed },
    ];
    let (records, outcome) = scan_files(&m, &files);

    assert_eq!(outcome, Outcome { had_match: true, had_error: true });
    assert_eq!(records.len(), 1);
    assert_eq!(records[0].path, "with_pattern.txt");
    assert_eq!(records[0].line_number, 2);
    assert_eq!(records[0].text, "Hello World!");
}

#[test]
fn scan_files_empty_list_is_the_identity_outcome() {
    let m = hello();
    let files: Vec<FileInput> = Vec::new();
    let (records, outcome) = scan_files(&m, &files);
    assert_eq!(records.len(), 0);
    assert_eq!(outcome, Outcome { had_match: false, had_error: false });
}

#[test]
fn scan_twice_produces_the_same_records() {
    // An unmodified file set scanned twice: the very same records, with
    // per-file line order preserved.
    let m = hello();
    let files = vec![
        text_file("a.txt", &["Hello a", "x", "Hello b"]),
        FileInput { path: "skip.bin".to_string(), access: FileAccess::Binary },
        text_file("c.txt", &["no", "Hello c"]),
    ];
    let (records1, outcome1) = scan_files(&m, &files);
    let (records2, outcome2) = scan_files(&m, &files);

    assert_eq!(outcome1, outcome2);
    assert_eq!(records1.len(), records2.len());
    for (r1, r2) in records1.iter().zip(records2.iter()) {
        assert_eq!(r1.path, r2.path);
        assert_eq!(r1.line_number, r2.line_number);
        assert_eq!(r1.text, r2.text);
    }
}

#[test]
fn combine_is_commutative_associative_with_identity() {
    let values = [
        Outcome { had_match: false, had_error: false },
        Outcome { had_match: true, had_error: false },
        Outcome { had_match: false, had_error: true },
        Outcome { had_match: true, had_error: true },
    ];
    let id = Outcome { had_match: false, had_error: false };
    for a in values {
        assert_eq!(combine(a, id), a);
        assert_eq!(combine(id, a), a);
        for b in values {
            assert_eq!(combine(a, b), combine(b, a));
            for c in values {
                assert_eq!(combine(combine(a, b), c), combine(a, combine(b, c)));
            }
        }
    }
}

#[test]
fn aggregate_is_order_independent() {
    let a = Outcome { had_match: true, had_error: false };
    let b = Outcome { had_match: false, had_error: true };
    let c = Outcome { had_match: false, had_error: false };
    let one_order = vec![a, b, c];
    let another_order = vec![c, b, a];
    let third_order = vec![b, c, a];
    let expected = Outcome { had_match: true, had_error: true };
    assert_eq!(aggregate(&one_order), expected);
    assert_eq!(aggregate(&another_order), expected);
    assert_eq!(aggregate(&third_order), expected);
}

#[test]
fn run_returns_zero_when_any_match_found() {
    let m = build_matcher(false, "Hello".to_string()).unwrap();
    let files = vec![
        text_file("with_pattern.txt", &["This is my", "Hello World!"]),
        text_file("no_pattern.txt", &["Just some", "random string"]),
    ];
    let (_, outcome) = scan_files(&m, &files);
    assert_eq!(exit_code(&outcome), 0);
}

#[test]
fn run_returns_one_when_no_matches_and_no_errors() {
    let m = build_matcher(false, "Hello".to_string()).unwrap();
    let files = vec![
        text_file("no_pattern_A.txt", &["This is my", "my World!"]),
        text_file("no_pattern_B.txt", &["Just some", "random string"]),
    ];
    let (_, outcome) = scan_files(&m, &files);
    assert_eq!(exit_code(&outcome), 1);
}

#[test]
fn run_returns_two_when_any_error_occurs() {
    let m = build_matcher(false, "Hello".to_string()).unwrap();
    let files = vec![
        text_file("with_pattern.txt", &["This is my", "Hello World!"]),
        FileInput { path: "no_read_permissions.txt".to_string(), access: FileAccess::OpenFailed },
    ];
    let (_, outcome) = scan_files(&m, &files);
    assert_eq!(exit_code(&outcome), 2);
}

#[test]
fn cli_returns_0_and_prints_match_when_found() {
    // The record that would be printed is exactly
    // `with_pattern.txt:2:Hello World!`, and the exit status is 0.
    let m = build_matcher(false, "Hello".to_string()).unwrap();
    let files = vec![text_file("with_pattern.txt", &["This is my", "Hello World!"])];
    let (records, outcome) = scan_files(&m, &files);

    assert_eq!(records.len(), 1);
    let printed = format!("{}:{}:{}", records[0].path, records[0].line_number, records[0].text);
    assert_eq!(printed, "with_pattern.txt:2:Hello World!");
    assert_eq!(exit_code(&outcome), 0);
}

#[test]
fn cli_prints_matches_even_if_error_occurs_and_exits_2() {
    let m = build_matcher(false, "Hello".to_string()).unwrap();
    let files = vec![
        text_file("with_pattern.txt", &["This is my", "Hello World!"]),
        FileInput { path: "no_read_permissions.txt".to_string(), access: FileAccess::OpenFailed },
    ];
    let (records, outcome) = scan_files(&m, &files);

    assert_eq!(records.len(), 1);
    let printed = format!("{}:{}:{}", records[0].path, records[0].line_number, records[0].text);
    assert_eq!(printed, "with_pattern.txt:2:Hello World!");
    assert_eq!(exit_code(&outcome), 2);
}
