//! Per-file line scanning and outcome aggregation.
//!
//! A file reaches the scanner as a path together with what reading it
//! yielded: a failure at one of the access steps, a binary classification,
//! or the file's lines. Scanning a text file walks its lines in order,
//! numbering from 1, and collects a record for every line the match
//! predicate accepts; a line that could not be read marks the file's error
//! flag but scanning continues with the next line. Per-file outcome pairs
//! are combined with a component-wise OR, which is associative and
//! commutative, so the aggregate never depends on the order files were
//! processed in.
use vstd::prelude::*;
use vstd::multiset::Multiset;
use crate::matcher::Matcher;

verus! {

/// One attempt to read a line of a text file: the line's text, or a marker
/// that reading or decoding that line failed.
pub enum LineRead {
    Line(String),
    ReadFailed,
}

/// What reading one file yielded, as far as the process got: a failure to
/// open it, a failure while sniffing its leading bytes, a binary
/// classification, a failure to rewind after sniffing, or its lines.
pub enum FileAccess {
    OpenFailed,
    SniffFailed,
    Binary,
    RewindFailed,
    Text(Vec<LineRead>),
}

/// One discovered file as the scanner sees it: its path, and what reading
/// it yielded.
pub struct FileInput {
    pub path: String,
    pub access: FileAccess,
}

/// One matching line: the file's path, the 1-based line number, and the
/// line's text.
pub struct MatchRecord {
    pub path: String,
    pub line_number: usize,
    pub text: String,
}

/// The outcome pair of a file or of a whole run: whether any line matched,
/// and whether any error occurred.
#[derive(Clone, Copy, PartialEq, Eq, Structural, Debug)]
pub struct Outcome {
    pub had_match: bool,
    pub had_error: bool,
}

/// The mathematical content of a record: path, line number, line text.
pub open spec fn record_view(r: MatchRecord) -> (Seq<char>, int, Seq<char>) {
    (r.path@, r.line_number as int, r.text@)
}

/// The mathematical content of a record list.
pub open spec fn records_view(recs: Seq<MatchRecord>) -> Seq<(Seq<char>, int, Seq<char>)> {
    recs.map_values(|r: MatchRecord| record_view(r))
}

/// True when this line read yielded text that the predicate accepts.
pub open spec fn line_hit<M: Matcher>(m: M, lr: LineRead) -> bool {
    lr is Line && m.matches(lr->Line_0@)
}

/// True when some line of the file matches the predicate.
pub open spec fn some_line_matches<M: Matcher>(m: M, lines: Seq<LineRead>) -> bool {
    exists|i: int| 0 <= i < lines.len() && line_hit(m, #[trigger] lines[i])
}

/// True when some line of the file could not be read.
pub open spec fn some_line_failed(lines: Seq<LineRead>) -> bool {
    exists|i: int| 0 <= i < lines.len() && (#[trigger] lines[i]) is ReadFailed
}

/// The records a scan of `lines` under path `path` produces: one record per
/// matching line, in ascending line-number order, numbered from 1.
pub open spec fn line_records<M: Matcher>(m: M, path: Seq<char>, lines: Seq<LineRead>) -> Seq<
    (Seq<char>, int, Seq<char>),
>
    decreases lines.len(),
{
    if lines.len() == 0 {
        Seq::empty()
    } else {
        let init = line_records(m, path, lines.drop_last());
        if line_hit(m, lines.last()) {
            init.push((path, lines.len() as int, lines.last()->Line_0@))
        } else {
            init
        }
    }
}

/// Scans the lines of one text file against the predicate: returns the
/// record of every matching line, in ascending line-number order, and the
/// file's outcome pair. A line that failed to read sets the error flag and
/// scanning goes on with the next line.
pub fn scan_lines<M: Matcher>(matcher: &M, path: &str, lines: &Vec<LineRead>) -> (r: (
    Vec<MatchRecord>,
    Outcome,
))
    ensures
        records_view(r.0@) == line_records(*matcher, path@, lines@),
        r.1.had_match == some_line_matches(*matcher, lines@),
        r.1.had_error == some_line_failed(lines@),
{
    let mut records: Vec<MatchRecord> = Vec::new();
    let mut had_match = false;
    let mut had_error = false;
    let n = lines.len();
    let mut i: usize = 0;
    while i < n
        invariant
            0 <= i <= n,
            n == lines@.len(),
            records_view(records@) == line_records(*matcher, path@, lines@.take(i as int)),
            had_match == some_line_matches(*matcher, lines@.take(i as int)),
            had_error == some_line_failed(lines@.take(i as int)),
        decreases n - i,
    {
        let ghost prefix = lines@.take(i as int);
        let ghost step = lines@.take(i as int + 1);
        proof {
            assert(step.drop_last() =~= prefix);
            assert(step.last() == lines@[i as int]);
        }
        match &lines[i] {
            LineRead::Line(text) => {
                if matcher.is_match(text.as_str()) {
                    had_match = true;
                    let rec = MatchRecord {
                        path: path.to_owned(),
                        line_number: i + 1,
                        text: text.clone(),
                    };
                    let ghost before = records@;
                    records.push(rec);
                    proof {
                        assert(records_view(records@) =~= records_view(before).push(
                            record_view(rec),
                        ));
                        assert(step.len() == i + 1);
                        assert(records_view(records@) == line_records(*matcher, path@, step));
                    }
                } else {
                    proof {
                        assert(records_view(records@) == line_records(*matcher, path@, step));
                        assert forall|k: int| 0 <= k < step.len() && line_hit(
                            *matcher,
                            #[trigger] step[k],
                        ) implies some_line_matches(*matcher, prefix) by {
                            assert(k < i ==> prefix[k] == step[k]);
                        }
                    }
                }
            },
            LineRead::ReadFailed => {
                had_error = true;
                proof {
                    assert(records_view(records@) == line_records(*matcher, path@, step));
                }
            },
        }
        proof {
            assert forall|k: int|
                0 <= k < prefix.len() implies #[trigger] prefix[k] == step[k] by {}
        }
        i = i + 1;
    }
    proof {
        assert(lines@.take(n as int) =~= lines@);
    }
    (records, Outcome { had_match, had_error })
}

/// The component-wise OR of two outcome pairs.
pub open spec fn spec_combine(a: Outcome, b: Outcome) -> Outcome {
    Outcome { had_match: a.had_match || b.had_match, had_error: a.had_error || b.had_error }
}

/// The outcome of scanning nothing: no match, no error. It is the identity
/// of `spec_combine`.
pub open spec fn empty_outcome() -> Outcome {
    Outcome { had_match: false, had_error: false }
}

/// Combines two outcome pairs: a match anywhere is a match, an error
/// anywhere is an error.
pub fn combine(a: Outcome, b: Outcome) -> (c: Outcome)
    ensures
        c == spec_combine(a, b),
{
    Outcome { had_match: a.had_match || b.had_match, had_error: a.had_error || b.had_error }
}

/// Combining outcome pairs is commutative.
pub proof fn lemma_combine_commutative(a: Outcome, b: Outcome)
    ensures
        spec_combine(a, b) == spec_combine(b, a),
{
}

/// Combining outcome pairs is associative.
pub proof fn lemma_combine_associative(a: Outcome, b: Outcome, c: Outcome)
    ensures
        spec_combine(spec_combine(a, b), c) == spec_combine(a, spec_combine(b, c)),
{
}

/// The empty outcome is the identity of combining, on either side.
pub proof fn lemma_combine_identity(a: Outcome)
    ensures
        spec_combine(a, empty_outcome()) == a,
        spec_combine(empty_outcome(), a) == a,
{
}

/// The combination of a sequence of outcome pairs, left to right.
pub open spec fn spec_aggregate(outcomes: Seq<Outcome>) -> Outcome
    decreases outcomes.len(),
{
    if outcomes.len() == 0 {
        empty_outcome()
    } else {
        spec_combine(spec_aggregate(outcomes.drop_last()), outcomes.last())
    }
}

/// The aggregate's match flag is set exactly when some outcome's is, and
/// likewise for the error flag.
pub proof fn lemma_aggregate_characterization(outcomes: Seq<Outcome>)
    ensures
        spec_aggregate(outcomes).had_match <==> exists|i: int|
            0 <= i < outcomes.len() && (#[trigger] outcomes[i]).had_match,
        spec_aggregate(outcomes).had_error <==> exists|i: int|
            0 <= i < outcomes.len() && (#[trigger] outcomes[i]).had_error,
    decreases outcomes.len(),
{
    if outcomes.len() > 0 {
        let init = outcomes.drop_last();
        lemma_aggregate_characterization(init);
        if exists|i: int| 0 <= i < outcomes.len() && (#[trigger] outcomes[i]).had_match {
            let i = choose|i: int| 0 <= i < outcomes.len() && (#[trigger] outcomes[i]).had_match;
            if i < outcomes.len() - 1 {
                assert(init[i].had_match);
            }
            assert(spec_aggregate(outcomes).had_match);
        }
        if spec_aggregate(outcomes).had_match && !outcomes.last().had_match {
            let i = choose|i: int| 0 <= i < init.len() && (#[trigger] init[i]).had_match;
            assert(outcomes[i].had_match);
        }
        if spec_aggregate(outcomes).had_match && outcomes.last().had_match {
            assert(outcomes[outcomes.len() - 1].had_match);
        }
        if exists|i: int| 0 <= i < outcomes.len() && (#[trigger] outcomes[i]).had_error {
            let i = choose|i: int| 0 <= i < outcomes.len() && (#[trigger] outcomes[i]).had_error;
            if i < outcomes.len() - 1 {
                assert(init[i].had_error);
            }
            assert(spec_aggregate(outcomes).had_error);
        }
        if spec_aggregate(outcomes).had_error && !outcomes.last().had_error {
            let i = choose|i: int| 0 <= i < init.len() && (#[trigger] init[i]).had_error;
            assert(outcomes[i].had_error);
        }
        if spec_aggregate(outcomes).had_error && outcomes.last().had_error {
            assert(outcomes[outcomes.len() - 1].had_error);
        }
    }
}

/// Combining a collection of outcome pairs does not depend on the order they
/// stand in: any two arrangements of the same outcomes combine to the same
/// aggregate.
pub proof fn lemma_aggregate_order_independent(s1: Seq<Outcome>, s2: Seq<Outcome>)
    requires
        s1.to_multiset() == s2.to_multiset(),
    ensures
        spec_aggregate(s1) == spec_aggregate(s2),
{
    broadcast use vstd::seq_lib::group_to_multiset_ensures;

    lemma_aggregate_characterization(s1);
    lemma_aggregate_characterization(s2);
    assert forall|i: int| 0 <= i < s1.len() && (#[trigger] s1[i]).had_match implies exists|j: int|
        0 <= j < s2.len() && (#[trigger] s2[j]).had_match by {
        lemma_shared_element(s1, s2, i);
        let j = choose|j: int| 0 <= j < s2.len() && s2[j] == s1[i];
        assert(s2[j].had_match);
    }
    assert forall|i: int| 0 <= i < s2.len() && (#[trigger] s2[i]).had_match implies exists|j: int|
        0 <= j < s1.len() && (#[trigger] s1[j]).had_match by {
        lemma_shared_element(s2, s1, i);
        let j = choose|j: int| 0 <= j < s1.len() && s1[j] == s2[i];
        assert(s1[j].had_match);
    }
    assert forall|i: int| 0 <= i < s1.len() && (#[trigger] s1[i]).had_error implies exists|j: int|
        0 <= j < s2.len() && (#[trigger] s2[j]).had_error by {
        lemma_shared_element(s1, s2, i);
        let j = choose|j: int| 0 <= j < s2.len() && s2[j] == s1[i];
        assert(s2[j].had_error);
    }
    assert forall|i: int| 0 <= i < s2.len() && (#[trigger] s2[i]).had_error implies exists|j: int|
        0 <= j < s1.len() && (#[trigger] s1[j]).had_error by {
        lemma_shared_element(s2, s1, i);
        let j = choose|j: int| 0 <= j < s1.len() && s1[j] == s2[i];
        assert(s1[j].had_error);
    }
}

/// An element of one sequence occurs in any other sequence holding the same
/// outcomes.
proof fn lemma_shared_element(s1: Seq<Outcome>, s2: Seq<Outcome>, i: int)
    requires
        s1.to_multiset() == s2.to_multiset(),
        0 <= i < s1.len(),
    ensures
        exists|j: int| 0 <= j < s2.len() && s2[j] == s1[i],
{
    broadcast use vstd::seq_lib::group_to_multiset_ensures;

    assert(s1.contains(s1[i]));
    assert(s1.to_multiset().count(s1[i]) > 0);
    assert(s2.to_multiset().count(s1[i]) > 0);
    assert(s2.contains(s1[i]));
}

/// Combines a list of per-file outcome pairs into the run's aggregate.
pub fn aggregate(outcomes: &Vec<Outcome>) -> (agg: Outcome)
    ensures
        agg == spec_aggregate(outcomes@),
{
    let mut agg = Outcome { had_match: false, had_error: false };
    let n = outcomes.len();
    let mut i: usize = 0;
    while i < n
        invariant
            0 <= i <= n,
            n == outcomes@.len(),
            agg == spec_aggregate(outcomes@.take(i as int)),
        decreases n - i,
    {
        proof {
            assert(outcomes@.take(i as int + 1).drop_last() =~= outcomes@.take(i as int));
            assert(outcomes@.take(i as int + 1).last() == outcomes@[i as int]);
        }
        agg = combine(agg, outcomes[i]);
        i = i + 1;
    }
    proof {
        assert(outcomes@.take(n as int) =~= outcomes@);
    }
    agg
}

/// The records scanning one file produces: those of its lines when it was
/// read as text, nothing otherwise.
pub open spec fn file_records<M: Matcher>(m: M, f: FileInput) -> Seq<(Seq<char>, int, Seq<char>)> {
    match f.access {
        FileAccess::Text(lines) => line_records(m, f.path@, lines@),
        _ => Seq::empty(),
    }
}

/// The outcome pair scanning one file produces: a failure to open, sniff or
/// rewind is that file's error; a binary file is silently skipped; a text
/// file reports whether any line matched and whether any line failed.
pub open spec fn file_outcome<M: Matcher>(m: M, f: FileInput) -> Outcome {
    match f.access {
        FileAccess::OpenFailed => Outcome { had_match: false, had_error: true },
        FileAccess::SniffFailed => Outcome { had_match: false, had_error: true },
        FileAccess::RewindFailed => Outcome { had_match: false, had_error: true },
        FileAccess::Binary => empty_outcome(),
        FileAccess::Text(lines) => Outcome {
            had_match: some_line_matches(m, lines@),
            had_error: some_line_failed(lines@),
        },
    }
}

/// Scans one file: a failure at any access step yields no records and an
/// error outcome; a binary file yields no records and a clean outcome; a
/// text file is scanned line by line.
pub fn scan_one_file<M: Matcher>(matcher: &M, file: &FileInput) -> (r: (Vec<MatchRecord>, Outcome))
    ensures
        records_view(r.0@) == file_records(*matcher, *file),
        r.1 == file_outcome(*matcher, *file),
{
    match &file.access {
        FileAccess::OpenFailed => (Vec::new(), Outcome { had_match: false, had_error: true }),
        FileAccess::SniffFailed => (Vec::new(), Outcome { had_match: false, had_error: true }),
        FileAccess::RewindFailed => (Vec::new(), Outcome { had_match: false, had_error: true }),
        FileAccess::Binary => (Vec::new(), Outcome { had_match: false, had_error: false }),
        FileAccess::Text(lines) => scan_lines(matcher, file.path.as_str(), lines),
    }
}

/// The records a whole run produces: each file's records in turn, files in
/// list order.
pub open spec fn files_records<M: Matcher>(m: M, files: Seq<FileInput>) -> Seq<
    (Seq<char>, int, Seq<char>),
>
    decreases files.len(),
{
    if files.len() == 0 {
        Seq::empty()
    } else {
        files_records(m, files.drop_last()) + file_records(m, files.last())
    }
}

/// The aggregate outcome of a whole run: every file's outcome combined.
pub open spec fn files_outcome<M: Matcher>(m: M, files: Seq<FileInput>) -> Outcome
    decreases files.len(),
{
    if files.len() == 0 {
        empty_outcome()
    } else {
        spec_combine(files_outcome(m, files.drop_last()), file_outcome(m, files.last()))
    }
}

/// The run's match flag is set exactly when some file's outcome has it set,
/// and likewise for the error flag.
pub proof fn lemma_files_outcome_characterization<M: Matcher>(m: M, files: Seq<FileInput>)
    ensures
        files_outcome(m, files).had_match <==> exists|i: int|
            0 <= i < files.len() && file_outcome(m, #[trigger] files[i]).had_match,
        files_outcome(m, files).had_error <==> exists|i: int|
            0 <= i < files.len() && file_outcome(m, #[trigger] files[i]).had_error,
    decreases files.len(),
{
    if files.len() > 0 {
        let init = files.drop_last();
        lemma_files_outcome_characterization(m, init);
        if exists|i: int| 0 <= i < files.len() && file_outcome(m, #[trigger] files[i]).had_match {
            let i = choose|i: int|
                0 <= i < files.len() && file_outcome(m, #[trigger] files[i]).had_match;
            if i < files.len() - 1 {
                assert(file_outcome(m, init[i]).had_match);
            }
            assert(files_outcome(m, files).had_match);
        }
        if files_outcome(m, files).had_match && !file_outcome(m, files.last()).had_match {
            let i = choose|i: int|
                0 <= i < init.len() && file_outcome(m, #[trigger] init[i]).had_match;
            assert(file_outcome(m, files[i]).had_match);
        }
        if files_outcome(m, files).had_match && file_outcome(m, files.last()).had_match {
            assert(file_outcome(m, files[files.len() - 1]).had_match);
        }
        if exists|i: int| 0 <= i < files.len() && file_outcome(m, #[trigger] files[i]).had_error {
            let i = choose|i: int|
                0 <= i < files.len() && file_outcome(m, #[trigger] files[i]).had_error;
            if i < files.len() - 1 {
                assert(file_outcome(m, init[i]).had_error);
            }
            assert(files_outcome(m, files).had_error);
        }
        if files_outcome(m, files).had_error && !file_outcome(m, files.last()).had_error {
            let i = choose|i: int|
                0 <= i < init.len() && file_outcome(m, #[trigger] init[i]).had_error;
            assert(file_outcome(m, files[i]).had_error);
        }
        if files_outcome(m, files).had_error && file_outcome(m, files.last()).had_error {
            assert(file_outcome(m, files[files.len() - 1]).had_error);
        }
    }
}

/// Scans a list of files against one predicate: returns every matching
/// line's record, files in list order and lines of one file in ascending
/// line-number order, together with the run's aggregate outcome pair.
pub fn scan_files<M: Matcher>(matcher: &M, files: &Vec<FileInput>) -> (r: (
    Vec<MatchRecord>,
    Outcome,
))
    ensures
        records_view(r.0@) == files_records(*matcher, files@),
        r.1 == files_outcome(*matcher, files@),
        r.1.had_match <==> exists|i: int|
            0 <= i < files@.len() && file_outcome(*matcher, #[trigger] files@[i]).had_match,
        r.1.had_error <==> exists|i: int|
            0 <= i < files@.len() && file_outcome(*matcher, #[trigger] files@[i]).had_error,
{
    let mut records: Vec<MatchRecord> = Vec::new();
    let mut agg = Outcome { had_match: false, had_error: false };
    let n = files.len();
    let mut i: usize = 0;
    while i < n
        invariant
            0 <= i <= n,
            n == files@.len(),
            records_view(records@) == files_records(*matcher, files@.take(i as int)),
            agg == files_outcome(*matcher, files@.take(i as int)),
        decreases n - i,
    {
        proof {
            assert(files@.take(i as int + 1).drop_last() =~= files@.take(i as int));
            assert(files@.take(i as int + 1).last() == files@[i as int]);
        }
        let (mut recs, outcome) = scan_one_file(matcher, &files[i]);
        let ghost before = records@;
        let ghost added = recs@;
        records.append(&mut recs);
        proof {
            assert(records_view(records@) =~= records_view(before) + records_view(added));
        }
        agg = combine(agg, outcome);
        i = i + 1;
    }
    proof {
        assert(files@.take(n as int) =~= files@);
        lemma_files_outcome_characterization(*matcher, files@);
    }
    (records, agg)
}

/// The records of a run, gathered as a multiset: what the run emits with
/// the ordering abstracted away.
pub open spec fn files_records_ms<M: Matcher>(m: M, files: Seq<FileInput>) -> Multiset<
    (Seq<char>, int, Seq<char>),
>
    decreases files.len(),
{
    if files.len() == 0 {
        Multiset::empty()
    } else {
        files_records_ms(m, files.drop_last()).add(file_records(m, files.last()).to_multiset())
    }
}

proof fn lemma_files_records_to_multiset<M: Matcher>(m: M, files: Seq<FileInput>)
    ensures
        files_records(m, files).to_multiset() == files_records_ms(m, files),
    decreases files.len(),
{
    broadcast use vstd::seq_lib::group_to_multiset_ensures;
    broadcast use vstd::multiset::group_multiset_axioms;

    if files.len() > 0 {
        lemma_files_records_to_multiset(m, files.drop_last());
        vstd::seq_lib::lemma_multiset_commutative(
            files_records(m, files.drop_last()),
            file_records(m, files.last()),
        );
        assert(files_records(m, files).to_multiset() =~= files_records_ms(m, files));
    } else {
        let empty = files_records(m, files);
        assert(empty.to_multiset().len() == 0);
        assert(files_records(m, files).to_multiset() =~= files_records_ms(m, files));
    }
}

proof fn lemma_files_records_ms_remove<M: Matcher>(m: M, files: Seq<FileInput>, j: int)
    requires
        0 <= j < files.len(),
    ensures
        files_records_ms(m, files) == files_records_ms(m, files.remove(j)).add(
            file_records(m, files[j]).to_multiset(),
        ),
    decreases files.len(),
{
    broadcast use vstd::multiset::group_multiset_axioms;

    if j == files.len() - 1 {
        assert(files.remove(j) =~= files.drop_last());
    } else {
        let init = files.drop_last();
        lemma_files_records_ms_remove(m, init, j);
        assert(init[j] == files[j]);
        assert(files.remove(j).drop_last() =~= init.remove(j));
        assert(files.remove(j).last() == files.last());
        assert(files_records_ms(m, files.remove(j)) == files_records_ms(m, init.remove(j)).add(
            file_records(m, files.last()).to_multiset(),
        ));
        assert(files_records_ms(m, init.remove(j)).add(
            file_records(m, files.last()).to_multiset(),
        ).add(file_records(m, files[j]).to_multiset()) =~= files_records_ms(m, init.remove(j)).add(
            file_records(m, files[j]).to_multiset(),
        ).add(file_records(m, files.last()).to_multiset()));
    }
}

proof fn lemma_shared_file(s1: Seq<FileInput>, s2: Seq<FileInput>, i: int)
    requires
        s1.to_multiset() == s2.to_multiset(),
        0 <= i < s1.len(),
    ensures
        exists|j: int| 0 <= j < s2.len() && s2[j] == s1[i],
{
    broadcast use vstd::seq_lib::group_to_multiset_ensures;

    assert(s1.contains(s1[i]));
    assert(s1.to_multiset().count(s1[i]) > 0);
    assert(s2.to_multiset().count(s1[i]) > 0);
    assert(s2.contains(s1[i]));
}

/// Scanning the same files in any order: the run's aggregate outcome is the
/// same, and the emitted records are the same as a multiset — only their
/// interleaving across files may differ. Within one file the records keep
/// their ascending line order in every run.
pub proof fn lemma_scan_order_independent<M: Matcher>(
    m: M,
    files1: Seq<FileInput>,
    files2: Seq<FileInput>,
)
    requires
        files1.to_multiset() == files2.to_multiset(),
    ensures
        files_records(m, files1).to_multiset() == files_records(m, files2).to_multiset(),
        files_outcome(m, files1) == files_outcome(m, files2),
    decreases files1.len(),
{
    broadcast use vstd::seq_lib::group_to_multiset_ensures;
    broadcast use vstd::multiset::group_multiset_axioms;

    lemma_files_records_to_multiset(m, files1);
    lemma_files_records_to_multiset(m, files2);
    lemma_files_outcome_characterization(m, files1);
    lemma_files_outcome_characterization(m, files2);
    // The record multisets agree: peel the last file of `files1` off both
    // sides and recurse.
    assert(files_records_ms(m, files1) == files_records_ms(m, files2)) by {
        lemma_files_records_ms_permuted(m, files1, files2);
    }
    // The outcome flags agree: a witness file on one side is a witness file
    // on the other.
    assert forall|i: int|
        0 <= i < files1.len() && file_outcome(m, #[trigger] files1[i]).had_match implies exists|
        j: int,
    | 0 <= j < files2.len() && file_outcome(m, #[trigger] files2[j]).had_match by {
        lemma_shared_file(files1, files2, i);
        let j = choose|j: int| 0 <= j < files2.len() && files2[j] == files1[i];
        assert(file_outcome(m, files2[j]).had_match);
    }
    assert forall|i: int|
        0 <= i < files2.len() && file_outcome(m, #[trigger] files2[i]).had_match implies exists|
        j: int,
    | 0 <= j < files1.len() && file_outcome(m, #[trigger] files1[j]).had_match by {
        lemma_shared_file(files2, files1, i);
        let j = choose|j: int| 0 <= j < files1.len() && files1[j] == files2[i];
        assert(file_outcome(m, files1[j]).had_match);
    }
    assert forall|i: int|
        0 <= i < files1.len() && file_outcome(m, #[trigger] files1[i]).had_error implies exists|
        j: int,
    | 0 <= j < files2.len() && file_outcome(m, #[trigger] files2[j]).had_error by {
        lemma_shared_file(files1, files2, i);
        let j = choose|j: int| 0 <= j < files2.len() && files2[j] == files1[i];
        assert(file_outcome(m, files2[j]).had_error);
    }
    assert forall|i: int|
        0 <= i < files2.len() && file_outcome(m, #[trigger] files2[i]).had_error implies exists|
        j: int,
    | 0 <= j < files1.len() && file_outcome(m, #[trigger] files1[j]).had_error by {
        lemma_shared_file(files2, files1, i);
        let j = choose|j: int| 0 <= j < files1.len() && files1[j] == files2[i];
        assert(file_outcome(m, files1[j]).had_error);
    }
}

proof fn lemma_files_records_ms_permuted<M: Matcher>(
    m: M,
    files1: Seq<FileInput>,
    files2: Seq<FileInput>,
)
    requires
        files1.to_multiset() == files2.to_multiset(),
    ensures
        files_records_ms(m, files1) == files_records_ms(m, files2),
    decreases files1.len(),
{
    broadcast use vstd::seq_lib::group_to_multiset_ensures;
    broadcast use vstd::multiset::group_multiset_axioms;

    if files1.len() == 0 {
        assert(files1.to_multiset().len() == 0);
        assert(files2.len() == 0);
    } else {
        let x = files1.last();
        let init1 = files1.drop_last();
        assert(files1 =~= init1.push(x));
        assert(files1.to_multiset() == init1.to_multiset().insert(x));
        assert(files1.to_multiset().count(x) > 0);
        assert(files2.to_multiset().count(x) > 0);
        assert(files2.contains(x));
        let j = choose|j: int| 0 <= j < files2.len() && files2[j] == x;
        let rest2 = files2.remove(j);
        assert(rest2.to_multiset() == files2.to_multiset().remove(x));
        assert(init1.to_multiset() =~= rest2.to_multiset());
        lemma_files_records_ms_permuted(m, init1, rest2);
        lemma_files_records_ms_remove(m, files2, j);
    }
}

/// In the records of one file's scan, every record carries that file's path
/// and a line number between 1 and the line count, and line numbers strictly
/// ascend: lines of one file are reported in the order they stand in.
pub proof fn lemma_line_records_ordered<M: Matcher>(m: M, path: Seq<char>, lines: Seq<LineRead>)
    ensures
        forall|j: int|
            0 <= j < line_records(m, path, lines).len() ==> {
                let rec = #[trigger] line_records(m, path, lines)[j];
                rec.0 == path && 1 <= rec.1 <= lines.len()
            },
        forall|j: int, k: int|
            0 <= j < k < line_records(m, path, lines).len() ==> (#[trigger] line_records(
                m,
                path,
                lines,
            )[j]).1 < (#[trigger] line_records(m, path, lines)[k]).1,
    decreases lines.len(),
{
    if lines.len() > 0 {
        lemma_line_records_ordered(m, path, lines.drop_last());
        let init = line_records(m, path, lines.drop_last());
        assert forall|j: int|
            0 <= j < init.len() implies #[trigger] init[j] == line_records(m, path, lines)[j] by {}
        assert forall|j: int| 0 <= j < init.len() implies (#[trigger] init[j]).1 < lines.len() by {
            assert(init[j].1 <= lines.drop_last().len());
        }
    }
}

} // verus!
