//! Bookkeeping of the conformance runs: counting parse outcomes per suite
//! and rendering the snapshot reports.
//!
//! `success` is a clean parse; `failed` is hard errors plus panics on files
//! that are expected to parse. Files that a suite marks invalid are expected
//! to fail: their outcomes are counted in separate `rejected`/`accepted`
//! columns (either is acceptable, a panic is not) and listed on their own.
use crate::text::{
    append_decimal, append_decimal_padded, append_fill, append_padded_end, append_padded_start, decimal,
    fill, pad_end, pad_start,
};
use vstd::prelude::*;
use vstd::string::{StringExecFns, StringSliceAdditionalSpecFns};

verus! {

/// Outcome counts of a conformance run.
#[derive(Clone, Copy, Debug)]
pub struct Tally {
    pub files: u32,
    pub clean: u32,
    pub hard_error: u32,
    pub panic: u32,
    /// Outcomes on expected-invalid files (not counted in the above).
    pub rejected: u32,
    pub accepted: u32,
    pub invalid_panic: u32,
}

impl Default for Tally {
    fn default() -> (t: Self)
        ensures
            t.files == 0,
            t.clean == 0,
            t.hard_error == 0,
            t.panic == 0,
            t.rejected == 0,
            t.accepted == 0,
            t.invalid_panic == 0,
    {
        Tally { files: 0, clean: 0, hard_error: 0, panic: 0, rejected: 0, accepted: 0, invalid_panic: 0 }
    }
}

impl Tally {
    /// Adding `other` to `self` overflows no counter.
    pub open spec fn can_add(&self, other: &Tally) -> bool {
        &&& self.files + other.files <= u32::MAX
        &&& self.clean + other.clean <= u32::MAX
        &&& self.hard_error + other.hard_error <= u32::MAX
        &&& self.panic + other.panic <= u32::MAX
        &&& self.rejected + other.rejected <= u32::MAX
        &&& self.accepted + other.accepted <= u32::MAX
        &&& self.invalid_panic + other.invalid_panic <= u32::MAX
    }

    pub fn add(&mut self, other: &Tally)
        requires
            old(self).can_add(other),
        ensures
            final(self).files == old(self).files + other.files,
            final(self).clean == old(self).clean + other.clean,
            final(self).hard_error == old(self).hard_error + other.hard_error,
            final(self).panic == old(self).panic + other.panic,
            final(self).rejected == old(self).rejected + other.rejected,
            final(self).accepted == old(self).accepted + other.accepted,
            final(self).invalid_panic == old(self).invalid_panic + other.invalid_panic,
    {
        self.files = self.files + other.files;
        self.clean = self.clean + other.clean;
        self.hard_error = self.hard_error + other.hard_error;
        self.panic = self.panic + other.panic;
        self.rejected = self.rejected + other.rejected;
        self.accepted = self.accepted + other.accepted;
        self.invalid_panic = self.invalid_panic + other.invalid_panic;
    }

    pub fn success(&self) -> (r: u32)
        ensures
            r == self.clean,
    {
        self.clean
    }

    pub fn failed(&self) -> (r: u32)
        requires
            self.hard_error + self.panic <= u32::MAX,
        ensures
            r == self.hard_error + self.panic,
    {
        self.hard_error + self.panic
    }
}

/// The outcome of parsing one file.
#[derive(Debug)]
pub enum Outcome {
    Clean,
    /// The parser returned an error; the label names its kind.
    HardError(String),
    Panic,
}

/// One listed file: `tag` is `ERROR`/`PANIC`/`ACCEPT`, `rel_path` is
/// relative to the suite root, `label` is the error kind (empty otherwise).
#[derive(Debug)]
pub struct Failure {
    pub tag: &'static str,
    pub rel_path: String,
    pub label: String,
}

/// The counts of a suite and the files it lists.
#[derive(Debug)]
pub struct SuiteReport {
    pub tally: Tally,
    pub failures: Vec<Failure>,
    /// Outcomes on expected-invalid files, listed in their own section, so
    /// that a rejected case flipping to accepted (or back) shows in the diff.
    pub invalid_outcomes: Vec<Failure>,
}

impl Default for SuiteReport {
    fn default() -> (r: Self)
        ensures
            r.tally.files == 0 && r.tally.clean == 0 && r.tally.hard_error == 0 && r.tally.panic == 0,
            r.tally.rejected == 0 && r.tally.accepted == 0 && r.tally.invalid_panic == 0,
            r.failures@.len() == 0,
            r.invalid_outcomes@.len() == 0,
    {
        SuiteReport { tally: Tally::default(), failures: Vec::new(), invalid_outcomes: Vec::new() }
    }
}

/// The failure entry that an outcome adds to a report, if any, as its tag
/// and label: an accepted or panicking invalid input, an error or a panic
/// on a valid one.
pub open spec fn listed(expect_error: bool, outcome: Outcome) -> Option<(Seq<char>, Seq<char>)> {
    if expect_error {
        match outcome {
            Outcome::Clean => Some(("ACCEPT"@, seq![])),
            Outcome::HardError(_) => None,
            Outcome::Panic => Some(("PANIC"@, seq![])),
        }
    } else {
        match outcome {
            Outcome::Clean => None,
            Outcome::HardError(label) => Some(("ERROR"@, label@)),
            Outcome::Panic => Some(("PANIC"@, seq![])),
        }
    }
}

impl SuiteReport {
    /// The counter that an outcome increments can still grow.
    pub open spec fn can_record(&self, expect_error: bool, outcome: Outcome) -> bool {
        &&& self.tally.files < u32::MAX
        &&& expect_error ==> match outcome {
            Outcome::Clean => self.tally.accepted < u32::MAX,
            Outcome::HardError(_) => self.tally.rejected < u32::MAX,
            Outcome::Panic => self.tally.invalid_panic < u32::MAX,
        }
        &&& !expect_error ==> match outcome {
            Outcome::Clean => self.tally.clean < u32::MAX,
            Outcome::HardError(_) => self.tally.hard_error < u32::MAX,
            Outcome::Panic => self.tally.panic < u32::MAX,
        }
    }

    /// Count the outcome of one input file (at `rel_path`), and list it
    /// when it is a failure or an expected-invalid input that did not
    /// fail cleanly.
    pub fn record(&mut self, rel_path: String, expect_error: bool, outcome: Outcome)
        requires
            old(self).can_record(expect_error, outcome),
        ensures
            final(self).tally.files == old(self).tally.files + 1,
            final(self).tally.clean == old(self).tally.clean + (if !expect_error && outcome is Clean { 1int } else { 0 }),
            final(self).tally.hard_error == old(self).tally.hard_error + (if !expect_error && outcome is HardError { 1int } else { 0 }),
            final(self).tally.panic == old(self).tally.panic + (if !expect_error && outcome is Panic { 1int } else { 0 }),
            final(self).tally.accepted == old(self).tally.accepted + (if expect_error && outcome is Clean { 1int } else { 0 }),
            final(self).tally.rejected == old(self).tally.rejected + (if expect_error && outcome is HardError { 1int } else { 0 }),
            final(self).tally.invalid_panic == old(self).tally.invalid_panic + (if expect_error && outcome is Panic { 1int } else { 0 }),
            expect_error ==> final(self).failures@ == old(self).failures@,
            !expect_error ==> final(self).invalid_outcomes@ == old(self).invalid_outcomes@,
            ({
                let listing = if expect_error { final(self).invalid_outcomes@ } else { final(self).failures@ };
                let before = if expect_error { old(self).invalid_outcomes@ } else { old(self).failures@ };
                match listed(expect_error, outcome) {
                    None => listing == before,
                    Some((tag, label)) => {
                        &&& listing.len() == before.len() + 1
                        &&& listing.drop_last() == before
                        &&& listing.last().tag@ == tag
                        &&& listing.last().rel_path@ == rel_path@
                        &&& listing.last().label@ == label
                    },
                }
            }),
    {
        proof {
            reveal_strlit("ACCEPT");
            reveal_strlit("PANIC");
            reveal_strlit("ERROR");
        }
        let t = &mut self.tally;
        t.files = t.files + 1;
        if expect_error {
            match outcome {
                Outcome::Clean => {
                    t.accepted = t.accepted + 1;
                    self.invalid_outcomes.push(Failure { tag: "ACCEPT", rel_path, label: String::new() });
                },
                Outcome::HardError(_) => {
                    t.rejected = t.rejected + 1;
                },
                Outcome::Panic => {
                    t.invalid_panic = t.invalid_panic + 1;
                    self.invalid_outcomes.push(Failure { tag: "PANIC", rel_path, label: String::new() });
                },
            }
        } else {
            match outcome {
                Outcome::Clean => {
                    t.clean = t.clean + 1;
                },
                Outcome::HardError(label) => {
                    t.hard_error = t.hard_error + 1;
                    self.failures.push(Failure { tag: "ERROR", rel_path, label });
                },
                Outcome::Panic => {
                    t.panic = t.panic + 1;
                    self.failures.push(Failure { tag: "PANIC", rel_path, label: String::new() });
                },
            }
        }
    }
}

/// One listed file: its tag in a column of 8, its path, and its label
/// after four spaces when it has one.
pub open spec fn failure_line(f: Failure) -> Seq<char> {
    pad_end(f.tag@, 8) + " "@ + f.rel_path@ + (if f.label@.len() == 0 {
        seq![]
    } else {
        "    "@ + f.label@
    }) + "\n"@
}

pub open spec fn failure_lines(fs: Seq<Failure>) -> Seq<char>
    decreases fs.len(),
{
    if fs.len() == 0 {
        seq![]
    } else {
        failure_lines(fs.drop_last()) + failure_line(fs.last())
    }
}

/// A list of files: one line each, or `none`.
pub open spec fn failure_listing(fs: Seq<Failure>) -> Seq<char> {
    if fs.len() == 0 {
        "none\n"@
    } else {
        failure_lines(fs)
    }
}

/// The header of the results table, with `first` as the first column's title.
pub open spec fn header_text(first: Seq<char>) -> Seq<char> {
    pad_end(first, 18) + " "@ + pad_start("files"@, 6) + " "@ + pad_start("success"@, 8) + " "@
        + pad_start("failed"@, 7) + " "@ + pad_start("panic"@, 6) + " "@ + pad_start("rejected"@, 9) + " "@
        + pad_start("accepted"@, 9) + " "@ + pad_start("inv_panic"@, 9)
}

/// A row of the results table.
pub open spec fn row_text(label: Seq<char>, t: Tally) -> Seq<char> {
    pad_end(label, 18) + " "@ + pad_start(decimal(t.files as nat), 6) + " "@ + pad_start(decimal(t.clean as nat), 8)
        + " "@ + pad_start(decimal((t.hard_error + t.panic) as nat), 7) + " "@ + pad_start(decimal(t.panic as nat), 6)
        + " "@ + pad_start(decimal(t.rejected as nat), 9) + " "@ + pad_start(decimal(t.accepted as nat), 9) + " "@
        + pad_start(decimal(t.invalid_panic as nat), 9)
}

/// The table header.
pub fn header_row(first: &str) -> (r: String)
    ensures
        r@ == header_text(first@),
{
    let mut out = String::new();
    append_padded_end(&mut out, first, 18);
    out.append(" ");
    append_padded_start(&mut out, "files", 6);
    out.append(" ");
    append_padded_start(&mut out, "success", 8);
    out.append(" ");
    append_padded_start(&mut out, "failed", 7);
    out.append(" ");
    append_padded_start(&mut out, "panic", 6);
    out.append(" ");
    append_padded_start(&mut out, "rejected", 9);
    out.append(" ");
    append_padded_start(&mut out, "accepted", 9);
    out.append(" ");
    append_padded_start(&mut out, "inv_panic", 9);
    assert(out@ =~= header_text(first@));
    out
}

/// A table row: the label, then the counts.
pub fn row(label: &str, t: &Tally) -> (r: String)
    requires
        t.hard_error + t.panic <= u32::MAX,
    ensures
        r@ == row_text(label@, *t),
{
    let mut out = String::new();
    append_padded_end(&mut out, label, 18);
    out.append(" ");
    append_decimal_padded(&mut out, t.files, 6);
    out.append(" ");
    append_decimal_padded(&mut out, t.success(), 8);
    out.append(" ");
    append_decimal_padded(&mut out, t.failed(), 7);
    out.append(" ");
    append_decimal_padded(&mut out, t.panic, 6);
    out.append(" ");
    append_decimal_padded(&mut out, t.rejected, 9);
    out.append(" ");
    append_decimal_padded(&mut out, t.accepted, 9);
    out.append(" ");
    append_decimal_padded(&mut out, t.invalid_panic, 9);
    assert(out@ =~= row_text(label@, *t));
    out
}

/// Append the listing of `failures`.
pub fn write_failure_lines(out: &mut String, failures: &[Failure])
    ensures
        final(out)@ == old(out)@ + failure_listing(failures@),
{
    proof {
        reveal_strlit("none\n");
        reveal_strlit(" ");
        reveal_strlit("    ");
        reveal_strlit("\n");
    }
    if failures.len() == 0 {
        out.append("none\n");
        return;
    }
    let mut i: usize = 0;
    while i < failures.len()
        invariant
            0 <= i <= failures@.len(),
            out@ == old(out)@ + failure_lines(failures@.take(i as int)),
        decreases failures@.len() - i,
    {
        let failure = &failures[i];
        append_padded_end(out, failure.tag, 8);
        out.append(" ");
        out.append(failure.rel_path.as_str());
        if failure.label.as_str().unicode_len() != 0 {
            out.append("    ");
            out.append(failure.label.as_str());
        }
        out.append("\n");
        proof {
            assert(failures@.take(i + 1).drop_last() =~= failures@.take(i as int));
        }
        assert(out@ =~= old(out)@ + failure_lines(failures@.take(i + 1)));
        i = i + 1;
    }
    assert(failures@.take(failures@.len() as int) =~= failures@);
}

/// The snapshot of a suite: its name and pinned commit, its counts, the
/// failures, and the outcomes on expected-invalid inputs when there are any.
pub open spec fn suite_snapshot(name: Seq<char>, sha: Seq<char>, report: SuiteReport) -> Seq<char> {
    let t = report.tally;
    "suite: "@ + name + "\n"@ + (if sha.len() > 0 {
        "sha: "@ + sha + "\n"@
    } else {
        seq![]
    }) + "files: "@ + decimal(t.files as nat) + "   success: "@ + decimal(t.clean as nat) + "   failed: "@
        + decimal((t.hard_error + t.panic) as nat) + "   rejected: "@ + decimal(t.rejected as nat)
        + "   accepted: "@ + decimal(t.accepted as nat) + "\n"@ + "\nfailures:\n"@ + failure_listing(
        report.failures@,
    ) + (if t.rejected + t.accepted + t.invalid_panic > 0 {
        "\naccepted invalid inputs (rejecting invalid YAML is not a goal; tracked for review):\n"@
            + failure_listing(report.invalid_outcomes@)
    } else {
        seq![]
    })
}

/// The text of a suite's snapshot file.
pub fn suite_snapshot_text(name: &str, sha: &str, report: &SuiteReport) -> (r: String)
    requires
        report.tally.hard_error + report.tally.panic <= u32::MAX,
        report.tally.rejected + report.tally.accepted + report.tally.invalid_panic <= u32::MAX,
    ensures
        r@ == suite_snapshot(name@, sha@, *report),
{
    let t = &report.tally;
    let mut out = String::new();
    out.append("suite: ");
    out.append(name);
    out.append("\n");
    if sha.unicode_len() != 0 {
        out.append("sha: ");
        out.append(sha);
        out.append("\n");
    }
    out.append("files: ");
    append_decimal(&mut out, t.files);
    out.append("   success: ");
    append_decimal(&mut out, t.success());
    out.append("   failed: ");
    append_decimal(&mut out, t.failed());
    out.append("   rejected: ");
    append_decimal(&mut out, t.rejected);
    out.append("   accepted: ");
    append_decimal(&mut out, t.accepted);
    out.append("\n");
    out.append("\nfailures:\n");
    write_failure_lines(&mut out, report.failures.as_slice());
    if t.rejected + t.accepted + t.invalid_panic > 0 {
        out.append("\naccepted invalid inputs (rejecting invalid YAML is not a goal; tracked for review):\n");
        write_failure_lines(&mut out, report.invalid_outcomes.as_slice());
    }
    assert(out@ =~= suite_snapshot(name@, sha@, *report));
    out
}

/// The rows of the summary table, one per suite.
pub open spec fn summary_rows(rows: Seq<(&str, Tally)>) -> Seq<char>
    decreases rows.len(),
{
    if rows.len() == 0 {
        seq![]
    } else {
        summary_rows(rows.drop_last()) + row_text(rows.last().0@, rows.last().1) + "\n"@
    }
}

/// The summary snapshot: a comment header, the table of suites, a rule,
/// and the totals.
pub open spec fn summary_snapshot(rows: Seq<(&str, Tally)>, total: Tally) -> Seq<char> {
    "# oxc-yaml-parser conformance — `cargo run -p conformance`\n"@
        + "# success = clean parse; failed = hard_error + panic;\n"@
        + "# rejected/accepted = outcomes on expected-invalid inputs (either is acceptable, panics are not)\n"@
        + "\n"@ + header_text("suite"@) + "\n"@ + summary_rows(rows) + fill('-', 84) + "\n"@ + row_text(
        "total"@,
        total,
    ) + "\n"@
}

/// Append a table row for each suite.
fn append_summary_rows(out: &mut String, rows: &[(&str, Tally)])
    requires
        forall|i: int| 0 <= i < rows@.len() ==> (#[trigger] rows@[i]).1.hard_error + rows@[i].1.panic <= u32::MAX,
    ensures
        final(out)@ == old(out)@ + summary_rows(rows@),
{
    let mut i: usize = 0;
    while i < rows.len()
        invariant
            0 <= i <= rows@.len(),
            forall|k: int| 0 <= k < rows@.len() ==> (#[trigger] rows@[k]).1.hard_error + rows@[k].1.panic <= u32::MAX,
            out@ == old(out)@ + summary_rows(rows@.take(i as int)),
        decreases rows@.len() - i,
    {
        let (name, tally) = rows[i];
        let line = row(name, &tally);
        out.append(line.as_str());
        out.append("\n");
        proof {
            assert(rows@.take(i + 1).drop_last() =~= rows@.take(i as int));
        }
        assert(out@ =~= old(out)@ + summary_rows(rows@.take(i + 1)));
        i = i + 1;
    }
    assert(rows@.take(rows@.len() as int) =~= rows@);
}

/// The text of the summary snapshot file.
pub fn summary_snapshot_text(rows: &[(&str, Tally)], total: &Tally) -> (r: String)
    requires
        forall|i: int| 0 <= i < rows@.len() ==> (#[trigger] rows@[i]).1.hard_error + rows@[i].1.panic <= u32::MAX,
        total.hard_error + total.panic <= u32::MAX,
    ensures
        r@ == summary_snapshot(rows@, *total),
{
    let mut out = String::new();
    out.append("# oxc-yaml-parser conformance — `cargo run -p conformance`\n");
    out.append("# success = clean parse; failed = hard_error + panic;\n");
    out.append("# rejected/accepted = outcomes on expected-invalid inputs (either is acceptable, panics are not)\n");
    out.append("\n");
    let header = header_row("suite");
    out.append(header.as_str());
    out.append("\n");
    append_summary_rows(&mut out, rows);
    proof {
        reveal_strlit("-");
    }
    append_fill(&mut out, "-", 84);
    out.append("\n");
    let total_row = row("total", total);
    out.append(total_row.as_str());
    out.append("\n");
    assert(out@ =~= summary_snapshot(rows@, *total));
    out
}

/// `a` sorts strictly before `b`, byte by byte, a proper prefix first (the
/// order of `str`).
pub open spec fn bytes_lt(a: Seq<u8>, b: Seq<u8>) -> bool
    decreases a.len(),
{
    if a.len() == 0 {
        b.len() > 0
    } else if b.len() == 0 {
        false
    } else if a[0] != b[0] {
        a[0] < b[0]
    } else {
        bytes_lt(a.drop_first(), b.drop_first())
    }
}

/// The bytes of a listed file's path, by which listings are sorted.
pub open spec fn path_key(f: Failure) -> Seq<u8> {
    vstd::utf8::encode_utf8(f.rel_path@)
}

/// A listing is sorted by path.
pub open spec fn sorted_by_path(s: Seq<Failure>) -> bool {
    forall|i: int, j: int| 0 <= i < j < s.len() ==> !bytes_lt(path_key(#[trigger] s[j]), path_key(#[trigger] s[i]))
}

proof fn lemma_bytes_lt_asym(a: Seq<u8>, b: Seq<u8>)
    ensures
        bytes_lt(a, b) ==> !bytes_lt(b, a),
    decreases a.len(),
{
    if a.len() > 0 && b.len() > 0 && a[0] == b[0] {
        lemma_bytes_lt_asym(a.drop_first(), b.drop_first());
    }
}

proof fn lemma_bytes_lt_trans(a: Seq<u8>, b: Seq<u8>, c: Seq<u8>)
    ensures
        bytes_lt(a, b) && bytes_lt(b, c) ==> bytes_lt(a, c),
    decreases a.len(),
{
    if a.len() > 0 && b.len() > 0 && c.len() > 0 && a[0] == b[0] && b[0] == c[0] {
        lemma_bytes_lt_trans(a.drop_first(), b.drop_first(), c.drop_first());
    }
}

proof fn lemma_bytes_lt_total(a: Seq<u8>, b: Seq<u8>)
    ensures
        bytes_lt(a, b) || bytes_lt(b, a) || a =~= b,
    decreases a.len(),
{
    if a.len() > 0 && b.len() > 0 && a[0] == b[0] {
        lemma_bytes_lt_total(a.drop_first(), b.drop_first());
        if a.drop_first() =~= b.drop_first() {
            assert(a =~= seq![a[0]] + a.drop_first());
            assert(b =~= seq![b[0]] + b.drop_first());
        }
    }
}

/// Not sorting after is transitive.
proof fn lemma_bytes_le_trans(a: Seq<u8>, b: Seq<u8>, c: Seq<u8>)
    ensures
        !bytes_lt(b, a) && !bytes_lt(c, b) ==> !bytes_lt(c, a),
{
    lemma_bytes_lt_total(a, b);
    lemma_bytes_lt_total(b, c);
    lemma_bytes_lt_trans(c, a, b);
    lemma_bytes_lt_trans(b, c, a);
    if a =~= b {
        assert(a == b);
    }
    if b =~= c {
        assert(b == c);
    }
}

/// Whether `a` sorts strictly before `b`, byte by byte.
pub fn str_lt(a: &str, b: &str) -> (r: bool)
    ensures
        r == bytes_lt(a.spec_bytes(), b.spec_bytes()),
{
    let x = a.as_bytes();
    let y = b.as_bytes();
    let mut i: usize = 0;
    proof {
        assert(x@.skip(0) =~= x@);
        assert(y@.skip(0) =~= y@);
    }
    while i < x.len() && i < y.len() && x[i] == y[i]
        invariant
            i <= x@.len(),
            i <= y@.len(),
            x@ == a.spec_bytes(),
            y@ == b.spec_bytes(),
            bytes_lt(x@, y@) == bytes_lt(x@.skip(i as int), y@.skip(i as int)),
        decreases x@.len() - i,
    {
        proof {
            assert(x@.skip(i as int).drop_first() =~= x@.skip(i + 1));
            assert(y@.skip(i as int).drop_first() =~= y@.skip(i + 1));
        }
        i = i + 1;
    }
    if i == x.len() {
        i < y.len()
    } else if i == y.len() {
        false
    } else {
        x[i] < y[i]
    }
}

/// Sort a listing by path. The insertion keeps entries with one path in
/// their order; the contract leaves that order unstated.
pub fn sort_by_path(v: &mut Vec<Failure>)
    ensures
        sorted_by_path(final(v)@),
        final(v)@.to_multiset() == old(v)@.to_multiset(),
{
    let n = v.len();
    let mut i: usize = 0;
    while i < n
        invariant
            i <= n == v@.len(),
            sorted_by_path(v@.take(i as int)),
            v@.to_multiset() == old(v)@.to_multiset(),
        decreases n - i,
    {
        let ghost before = v@;
        let item = v.remove(i);
        let ghost rest = v@;
        proof {
            assert(rest =~= before.remove(i as int));
        }
        let mut j: usize = i;
        while j > 0 && str_lt(item.rel_path.as_str(), v[j - 1].rel_path.as_str())
            invariant
                j <= i,
                i < n,
                v@ == rest,
                rest.len() == n - 1,
                forall|k: int| j <= k < i ==> bytes_lt(path_key(item), path_key(#[trigger] rest[k])),
            decreases j,
        {
            j = j - 1;
        }
        v.insert(j, item);
        proof {
            let w = v@;
            let sorted_prefix = before.take(i as int);
            assert(forall|k: int| 0 <= k < i ==> rest[k] == #[trigger] sorted_prefix[k]);
            assert(j > 0 ==> !bytes_lt(path_key(item), path_key(rest[j - 1])));
            assert forall|a: int, b: int| 0 <= a < b < i + 1 implies !bytes_lt(path_key(#[trigger] w.take(i + 1)[b]), path_key(#[trigger] w.take(i + 1)[a])) by {
                let wa = w[a];
                let wb = w[b];
                assert(w.take(i + 1)[a] == wa);
                assert(w.take(i + 1)[b] == wb);
                if b < j {
                    assert(wa == sorted_prefix[a] && wb == sorted_prefix[b]);
                } else if b == j {
                    assert(wb == item);
                    assert(wa == sorted_prefix[a]);
                    lemma_bytes_le_trans(path_key(sorted_prefix[a]), path_key(sorted_prefix[j - 1 as int]), path_key(item));
                } else if a == j {
                    assert(wa == item);
                    assert(wb == rest[b - 1]);
                    lemma_bytes_lt_asym(path_key(item), path_key(rest[b - 1]));
                } else if a < j {
                    assert(wa == sorted_prefix[a]);
                    assert(wb == rest[b - 1]);
                    assert(wb == sorted_prefix[b - 1]);
                } else {
                    assert(wa == rest[a - 1]);
                    assert(wb == rest[b - 1]);
                    assert(wa == sorted_prefix[a - 1] && wb == sorted_prefix[b - 1]);
                }
            }
            assert(w =~= rest.insert(j as int, item));
            vstd::seq_lib::to_multiset_insert(rest, j as int, item);
            vstd::seq_lib::to_multiset_remove(before, i as int);
            assert(before[i as int] == item);
            assert(before.to_multiset().remove(item).insert(item) =~= before.to_multiset()) by {
                broadcast use vstd::multiset::group_multiset_axioms;
                assert(before.to_multiset().count(item) > 0) by {
                    before.to_multiset_ensures();
                    assert(before.contains(item)) by {
                        assert(before[i as int] == item);
                    }
                }
            }
        }
        i = i + 1;
    }
    proof {
        assert(v@.take(n as int) =~= v@);
    }
}

impl SuiteReport {
    /// Sort both listings by path, as the snapshots list them.
    pub fn sort_listings(&mut self)
        ensures
            final(self).tally == old(self).tally,
            sorted_by_path(final(self).failures@),
            final(self).failures@.to_multiset() == old(self).failures@.to_multiset(),
            sorted_by_path(final(self).invalid_outcomes@),
            final(self).invalid_outcomes@.to_multiset() == old(self).invalid_outcomes@.to_multiset(),
    {
        sort_by_path(&mut self.failures);
        sort_by_path(&mut self.invalid_outcomes);
    }
}


} // verus!
