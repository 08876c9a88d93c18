use oxc_yaml_parser::conformance::{
    header_row, row, sort_by_path, str_lt, suite_snapshot_text, summary_snapshot_text, write_failure_lines,
    Failure, Outcome, SuiteReport, Tally,
};

fn tally(values: [u32; 7]) -> Tally {
    Tally {
        files: values[0],
        clean: values[1],
        hard_error: values[2],
        panic: values[3],
        rejected: values[4],
        accepted: values[5],
        invalid_panic: values[6],
    }
}

/// The row as the standard formatter lays it out.
fn formatted_row(label: &str, t: &Tally) -> String {
    format!(
        "{label:<18} {:>6} {:>8} {:>7} {:>6} {:>9} {:>9} {:>9}",
        t.files,
        t.clean,
        t.hard_error + t.panic,
        t.panic,
        t.rejected,
        t.accepted,
        t.invalid_panic
    )
}

#[test]
fn tally_adds_field_by_field() {
    let mut total = Tally::default();
    total.add(&tally([3, 1, 1, 1, 0, 0, 0]));
    total.add(&tally([4, 2, 0, 0, 1, 1, 0]));
    assert_eq!(total.files, 7);
    assert_eq!(total.success(), 3);
    assert_eq!(total.failed(), 2);
    assert_eq!(total.rejected, 1);
    assert_eq!(total.accepted, 1);
    assert_eq!(total.invalid_panic, 0);
}

#[test]
fn record_sorts_outcomes_into_columns() {
    let mut report = SuiteReport::default();
    report.record("a.yaml".to_string(), false, Outcome::Clean);
    report.record("b.yaml".to_string(), false, Outcome::HardError("InvalidChar".to_string()));
    report.record("c.yaml".to_string(), false, Outcome::Panic);
    report.record("d.yaml".to_string(), true, Outcome::Clean);
    report.record("e.yaml".to_string(), true, Outcome::HardError("ExpectedNode".to_string()));
    report.record("f.yaml".to_string(), true, Outcome::Panic);
    let t = &report.tally;
    assert_eq!((t.files, t.clean, t.hard_error, t.panic), (6, 1, 1, 1));
    assert_eq!((t.rejected, t.accepted, t.invalid_panic), (1, 1, 1));
    let failures: Vec<(&str, &str, &str)> =
        report.failures.iter().map(|f| (f.tag, f.rel_path.as_str(), f.label.as_str())).collect();
    assert_eq!(failures, [("ERROR", "b.yaml", "InvalidChar"), ("PANIC", "c.yaml", "")]);
    let invalid: Vec<(&str, &str, &str)> =
        report.invalid_outcomes.iter().map(|f| (f.tag, f.rel_path.as_str(), f.label.as_str())).collect();
    assert_eq!(invalid, [("ACCEPT", "d.yaml", ""), ("PANIC", "f.yaml", "")]);
}

#[test]
fn header_row_matches_the_formatter() {
    let expected = format!(
        "{:<18} {:>6} {:>8} {:>7} {:>6} {:>9} {:>9} {:>9}",
        "suite", "files", "success", "failed", "panic", "rejected", "accepted", "inv_panic"
    );
    assert_eq!(header_row("suite"), expected);
    assert_eq!(header_row("a-name-longer-than-the-column"), format!(
        "{:<18} {:>6} {:>8} {:>7} {:>6} {:>9} {:>9} {:>9}",
        "a-name-longer-than-the-column", "files", "success", "failed", "panic", "rejected", "accepted", "inv_panic"
    ));
}

#[test]
fn row_matches_the_formatter() {
    let t = tally([1234567, 1200000, 34000, 567, 12, 3456789, 0]);
    assert_eq!(row("yaml-test-suite", &t), formatted_row("yaml-test-suite", &t));
    let z = Tally::default();
    assert_eq!(row("édge", &z), formatted_row("édge", &z));
}

#[test]
fn failure_lines_pad_the_tag() {
    let failures = vec![
        Failure { tag: "ERROR", rel_path: "x/in.yaml".to_string(), label: "InvalidChar".to_string() },
        Failure { tag: "PANIC", rel_path: "y.yml".to_string(), label: String::new() },
    ];
    let mut out = String::from("head\n");
    write_failure_lines(&mut out, &failures);
    assert_eq!(out, "head\nERROR    x/in.yaml    InvalidChar\nPANIC    y.yml\n");
    let mut empty = String::new();
    write_failure_lines(&mut empty, &[]);
    assert_eq!(empty, "none\n");
}

#[test]
fn suite_snapshot_lists_failures_and_invalid_outcomes() {
    let mut report = SuiteReport::default();
    report.record("ok.yaml".to_string(), false, Outcome::Clean);
    report.record("bad.yaml".to_string(), false, Outcome::HardError("TabAsIndent".to_string()));
    report.record("inv.yaml".to_string(), true, Outcome::Clean);
    let text = suite_snapshot_text("prettier", "cf7db35", &report);
    assert_eq!(
        text,
        "suite: prettier\nsha: cf7db35\nfiles: 3   success: 1   failed: 1   rejected: 0   accepted: 1\n\
         \nfailures:\nERROR    bad.yaml    TabAsIndent\n\
         \naccepted invalid inputs (rejecting invalid YAML is not a goal; tracked for review):\n\
         ACCEPT   inv.yaml\n"
    );
    let quiet = suite_snapshot_text("edge", "", &SuiteReport::default());
    assert_eq!(
        quiet,
        "suite: edge\nfiles: 0   success: 0   failed: 0   rejected: 0   accepted: 0\n\nfailures:\nnone\n"
    );
}

#[test]
fn summary_snapshot_has_rows_and_total() {
    let a = tally([2, 2, 0, 0, 0, 0, 0]);
    let b = tally([3, 1, 1, 0, 1, 0, 0]);
    let mut total = Tally::default();
    total.add(&a);
    total.add(&b);
    let text = summary_snapshot_text(&[("alpha", a), ("beta", b)], &total);
    let mut expected = String::new();
    expected.push_str("# oxc-yaml-parser conformance — `cargo run -p conformance`\n");
    expected.push_str("# success = clean parse; failed = hard_error + panic;\n");
    expected.push_str(
        "# rejected/accepted = outcomes on expected-invalid inputs (either is acceptable, panics are not)\n",
    );
    expected.push('\n');
    expected.push_str(&format!(
        "{:<18} {:>6} {:>8} {:>7} {:>6} {:>9} {:>9} {:>9}\n",
        "suite", "files", "success", "failed", "panic", "rejected", "accepted", "inv_panic"
    ));
    expected.push_str(&formatted_row("alpha", &a));
    expected.push('\n');
    expected.push_str(&formatted_row("beta", &b));
    expected.push('\n');
    expected.push_str(&"-".repeat(84));
    expected.push('\n');
    expected.push_str(&formatted_row("total", &total));
    expected.push('\n');
    assert_eq!(text, expected);
}

#[test]
fn str_lt_is_byte_order() {
    assert!(str_lt("a", "b"));
    assert!(!str_lt("b", "a"));
    assert!(str_lt("ab", "abc"));
    assert!(!str_lt("abc", "ab"));
    assert!(!str_lt("abc", "abc"));
    assert!(str_lt("", "a"));
    assert!(str_lt("Z", "a"));
    assert!(str_lt("z", "\u{e9}"));
}

#[test]
fn listings_sort_by_path() {
    let entry = |p: &str, label: &str| Failure { tag: "ERROR", rel_path: p.to_string(), label: label.to_string() };
    let mut v = vec![entry("b/in.yaml", "1"), entry("a/in.yaml", "2"), entry("b/in.yaml", "3"), entry("a", "4")];
    sort_by_path(&mut v);
    let got: Vec<(&str, &str)> = v.iter().map(|f| (f.rel_path.as_str(), f.label.as_str())).collect();
    assert_eq!(got, [("a", "4"), ("a/in.yaml", "2"), ("b/in.yaml", "1"), ("b/in.yaml", "3")]);

    let mut report = SuiteReport::default();
    report.record("z.yaml".to_string(), false, Outcome::Panic);
    report.record("m.yaml".to_string(), false, Outcome::HardError("InvalidChar".to_string()));
    report.record("y.yaml".to_string(), true, Outcome::Clean);
    report.record("c.yaml".to_string(), true, Outcome::Panic);
    report.sort_listings();
    let paths: Vec<&str> = report.failures.iter().map(|f| f.rel_path.as_str()).collect();
    assert_eq!(paths, ["m.yaml", "z.yaml"]);
    let paths: Vec<&str> = report.invalid_outcomes.iter().map(|f| f.rel_path.as_str()).collect();
    assert_eq!(paths, ["c.yaml", "y.yaml"]);
}
