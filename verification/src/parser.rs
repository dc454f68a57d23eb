use vstd::prelude::*;

use crate::linescan::{
    num_match, num_parse_ok, num_scaled, num_error, match_number, ParseError,
};
use crate::numfmt::{fixed_rep, pad_left_rep, pad_right_rep, fixed_string, pad_left, pad_right,
    push_char};

verus! {

/// The ghost view of a pattern set: the three field markers.
pub ghost struct Patterns {
    /// Marker of a line reporting the objective value.
    pub objective: Seq<char>,
    /// Marker of a line reporting the solution representation, up to and
    /// including the opening bracket.
    pub solution: Seq<char>,
    /// Marker of a line reporting the elapsed time.
    pub elapsed: Seq<char>,
}

/// The recognized textual shapes of one solver kind's output: one marker per
/// record field. The markers are stateless and reused across the whole
/// stream; the sentinel line is the same for every kind.
pub struct PatternSet {
    /// Begins a line that reports the objective value.
    pub objective_marker: String,
    /// Begins a line that reports the solution representation, up to and
    /// including the opening bracket.
    pub solution_marker: String,
    /// Begins a line that reports the elapsed time.
    pub elapsed_marker: String,
}

/// The markers of the tour-style solver output.
pub open spec fn tsptw_patterns() -> Patterns {
    Patterns {
        objective: "% makespan: "@,
        solution: "% permutation: ["@,
        elapsed: "% time elapsed: "@,
    }
}

/// The markers of the schedule-style solver output.
pub open spec fn psp_patterns() -> Patterns {
    Patterns {
        objective: "% total cost : "@,
        solution: "% plan       : ["@,
        elapsed: "% time elapsed: "@,
    }
}

impl PatternSet {
    /// The three markers, for contracts.
    pub open spec fn model(&self) -> Patterns {
        Patterns {
            objective: self.objective_marker@,
            solution: self.solution_marker@,
            elapsed: self.elapsed_marker@,
        }
    }

    /// The pattern set for tour-style solver output.
    pub fn tsptw() -> (r: PatternSet)
        ensures
            r.model() == tsptw_patterns(),
    {
        PatternSet {
            objective_marker: "% makespan: ".to_owned(),
            solution_marker: "% permutation: [".to_owned(),
            elapsed_marker: "% time elapsed: ".to_owned(),
        }
    }

    /// The pattern set for schedule-style solver output.
    pub fn psp() -> (r: PatternSet)
        ensures
            r.model() == psp_patterns(),
    {
        PatternSet {
            objective_marker: "% total cost : ".to_owned(),
            solution_marker: "% plan       : [".to_owned(),
            elapsed_marker: "% time elapsed: ".to_owned(),
        }
    }
}

/// The ghost view of a result record.
pub ghost struct RecordModel {
    /// Best known objective value, in ten-thousandths.
    pub objective: u64,
    /// Elapsed seconds last reported, in hundredths.
    pub elapsed: u64,
    /// Best known solution representation.
    pub solution: Seq<char>,
}

/// The best-known values scanned from the stream so far. Fields are
/// overwritten in place, last write wins; nothing is ever rolled back.
pub struct ResultRecord {
    /// Best known objective value, in ten-thousandths of the reported number.
    pub objective: u64,
    /// Elapsed seconds last reported, in hundredths.
    pub elapsed: u64,
    /// Best known solution representation, commas stripped.
    pub solution: String,
}

/// The starting record: an objective worse than any real value, no time
/// elapsed, and a placeholder for the missing solution.
pub open spec fn initial_record() -> RecordModel {
    RecordModel { objective: u64::MAX, elapsed: 0, solution: "-- no solution --"@ }
}

impl ResultRecord {
    /// The field values, for contracts.
    pub open spec fn model(&self) -> RecordModel {
        RecordModel { objective: self.objective, elapsed: self.elapsed, solution: self.solution@ }
    }

    /// A record holding the initialized placeholder values.
    pub fn new() -> (r: ResultRecord)
        ensures
            r.model() == initial_record(),
    {
        ResultRecord {
            objective: u64::MAX,
            elapsed: 0,
            solution: "-- no solution --".to_owned(),
        }
    }
}

/// Whether a line holds the solution shape: the marker as prefix and a
/// closing bracket somewhere after it.
pub open spec fn sol_match(s: Seq<char>, m: Seq<char>) -> bool {
    &&& m.is_prefix_of(s)
    &&& match s.index_of_last(']') {
        Some(j) => j >= m.len(),
        None => false,
    }
}

/// The captured solution text: everything between the marker and the last
/// closing bracket, with commas stripped.
pub open spec fn sol_value(s: Seq<char>, m: Seq<char>) -> Seq<char> {
    s.subrange(m.len() as int, s.index_of_last(']').unwrap()).filter(|c: char| c != ',')
}

/// The sentinel line: the boundary of one reported solution snapshot.
pub open spec fn sentinel() -> Seq<char> {
    "----------"@
}

/// Whether the line is the sentinel.
pub open spec fn is_sentinel(s: Seq<char>) -> bool {
    s == sentinel()
}

/// Whether a line passes the scan without a hard error: every numeric field
/// it matches must parse.
pub open spec fn line_ok(p: Patterns, line: Seq<char>) -> bool {
    &&& num_match(line, p.objective, false) ==> num_parse_ok(line, p.objective, 4)
    &&& num_match(line, p.elapsed, true) ==> num_parse_ok(line, p.elapsed, 2)
}

/// The error a failing line produces; the objective field is examined first.
pub open spec fn line_error(p: Patterns, line: Seq<char>) -> ParseError {
    if num_match(line, p.objective, false) && !num_parse_ok(line, p.objective, 4) {
        num_error(line, p.objective, 4)
    } else {
        num_error(line, p.elapsed, 2)
    }
}

/// The record after scanning one line: each matched field is overwritten with
/// the line's value, every other field is kept.
pub open spec fn step_record(m: RecordModel, p: Patterns, line: Seq<char>) -> RecordModel {
    RecordModel {
        objective: if num_match(line, p.objective, false) {
            num_scaled(line, p.objective, 4) as u64
        } else {
            m.objective
        },
        elapsed: if num_match(line, p.elapsed, true) {
            num_scaled(line, p.elapsed, 2) as u64
        } else {
            m.elapsed
        },
        solution: if sol_match(line, p.solution) {
            sol_value(line, p.solution)
        } else {
            m.solution
        },
    }
}

/// One emitted row: label (left justified), objective with four decimal
/// places and elapsed seconds with two (both right justified), then the
/// solution text, separated by pipes.
pub open spec fn row_rep(label: Seq<char>, m: RecordModel) -> Seq<char> {
    pad_right_rep(label, 10) + " | "@ + pad_left_rep(fixed_rep(m.objective as nat, 4), 10) + " | "@
        + pad_left_rep(fixed_rep(m.elapsed as nat, 2), 10) + " | "@ + m.solution
}

/// The rows a whole stream emits: one per sentinel line, showing the record
/// as accumulated up to that sentinel; a hard parse error stops the stream.
pub open spec fn stream_rows(
    m: RecordModel,
    p: Patterns,
    label: Seq<char>,
    lines: Seq<Seq<char>>,
) -> Seq<Seq<char>>
    decreases lines.len(),
{
    if lines.len() == 0 {
        Seq::empty()
    } else if !line_ok(p, lines.first()) {
        Seq::empty()
    } else {
        let m1 = step_record(m, p, lines.first());
        (if is_sentinel(lines.first()) {
            seq![row_rep(label, m1)]
        } else {
            Seq::<Seq<char>>::empty()
        }) + stream_rows(m1, p, label, lines.drop_first())
    }
}

/// The record a whole stream leaves behind; a hard parse error freezes it.
pub open spec fn stream_record(m: RecordModel, p: Patterns, lines: Seq<Seq<char>>) -> RecordModel
    decreases lines.len(),
{
    if lines.len() == 0 {
        m
    } else if !line_ok(p, lines.first()) {
        m
    } else {
        stream_record(step_record(m, p, lines.first()), p, lines.drop_first())
    }
}

fn str_eq(a: &str, b: &str) -> (r: bool)
    ensures
        r <==> a@ == b@,
{
    let n = a.unicode_len();
    let m = b.unicode_len();
    if n != m {
        return false;
    }
    let mut k: usize = 0;
    while k < n
        invariant
            0 <= k <= n,
            n == a@.len(),
            n == b@.len(),
            forall|j: int| 0 <= j < k ==> a@[j] == b@[j],
        decreases n - k,
    {
        if a.get_char(k) != b.get_char(k) {
            return false;
        }
        k += 1;
    }
    proof {
        assert(a@ =~= b@);
    }
    true
}

fn find_last_rbracket(line: &str, p: usize, n: usize) -> (r: Option<usize>)
    requires
        n == line@.len(),
        p <= n,
    ensures
        match r {
            Some(j) => p <= j < n && line@.index_of_last(']') == Some(j as int),
            None => !match line@.index_of_last(']') {
                Some(j) => j >= p,
                None => false,
            },
        },
{
    let mut k = n;
    while k > p
        invariant
            p <= k <= n,
            n == line@.len(),
            forall|t: int| k <= t < n ==> line@[t] != ']',
        decreases k,
    {
        k -= 1;
        if line.get_char(k) == ']' {
            proof {
                line@.index_of_last_ensures(']');
                let iol = line@.index_of_last(']');
                assert(line@.contains(line@[k as int]));
                assert(iol is Some);
                let j = iol.unwrap();
                assert(!(j < k)) by {
                    if j < k {
                        assert(line@[k as int] == ']');
                    }
                }
                assert(!(j > k));
                assert(j == k);
            }
            return Some(k);
        }
    }
    proof {
        line@.index_of_last_ensures(']');
        let iol = line@.index_of_last(']');
        if iol is Some {
            let j = iol.unwrap();
            if j >= p {
                assert(line@[j] == ']');
                assert(false);
            }
        }
    }
    None
}

fn strip_commas(line: &str, from: usize, to: usize, n: usize) -> (r: String)
    requires
        n == line@.len(),
        from <= to <= n,
    ensures
        r@ == line@.subrange(from as int, to as int).filter(|c: char| c != ','),
{
    broadcast use vstd::seq_lib::group_seq_lib_default;

    let mut out = String::new();
    let mut k = from;
    proof {
        assert(line@.subrange(from as int, from as int) =~= Seq::<char>::empty());
        reveal(Seq::filter);
    }
    while k < to
        invariant
            from <= k <= to <= n,
            n == line@.len(),
            out@ == line@.subrange(from as int, k as int).filter(|c: char| c != ','),
        decreases to - k,
    {
        let c = line.get_char(k);
        let ghost prev = out@;
        if c != ',' {
            push_char(&mut out, c);
        }
        proof {
            reveal_with_fuel(Seq::filter, 3);
            let pred = |ch: char| ch != ',';
            let pre = line@.subrange(from as int, k as int);
            let ext = line@.subrange(from as int, k as int + 1);
            let single = seq![line@[k as int]];
            assert(ext =~= pre + single);
            Seq::filter_distributes_over_add(pre, single, pred);
            assert(single.drop_last() =~= Seq::<char>::empty());
            assert(single.filter(pred) == if pred(line@[k as int]) {
                Seq::<char>::empty().push(line@[k as int])
            } else {
                Seq::<char>::empty()
            });
            assert(out@ =~= ext.filter(pred));
        }
        k += 1;
    }
    out
}

/// Tries to read the solution field from the line: the captured text with
/// commas stripped, or nothing when the line does not have the shape.
fn match_solution(line: &str, marker: &str) -> (r: Option<String>)
    ensures
        match r {
            Some(s) => sol_match(line@, marker@) && s@ == sol_value(line@, marker@),
            None => !sol_match(line@, marker@),
        },
{
    let n = line.unicode_len();
    if !crate::linescan::has_prefix(line, marker, n) {
        return None;
    }
    let p = marker.unicode_len();
    match find_last_rbracket(line, p, n) {
        Some(j) => Some(strip_commas(line, p, j, n)),
        None => None,
    }
}

/// Renders the current record as one result row for the given run label.
pub fn format_row(label: &str, rec: &ResultRecord) -> (r: String)
    ensures
        r@ == row_rep(label@, rec.model()),
{
    let mut out = pad_right(label, 10);
    out.append(" | ");
    let obj = pad_left(fixed_string(rec.objective, 4).as_str(), 10);
    out.append(obj.as_str());
    out.append(" | ");
    let ela = pad_left(fixed_string(rec.elapsed, 2).as_str(), 10);
    out.append(ela.as_str());
    out.append(" | ");
    out.append(rec.solution.as_str());
    proof {
        assert(out@ =~= row_rep(label@, rec.model()));
    }
    out
}

/// Scans one line of solver output: overwrites every record field the line
/// reports and says whether the line is the sentinel, on which the caller
/// emits a row. A line whose captured number is unusable is a hard error and
/// leaves the record untouched.
pub fn process_line(rec: &mut ResultRecord, pats: &PatternSet, line: &str) -> (r: Result<
    bool,
    ParseError,
>)
    ensures
        match r {
            Ok(emit) => {
                &&& line_ok(pats.model(), line@)
                &&& final(rec).model() == step_record(old(rec).model(), pats.model(), line@)
                &&& (emit <==> is_sentinel(line@))
            },
            Err(e) => {
                &&& !line_ok(pats.model(), line@)
                &&& e == line_error(pats.model(), line@)
                &&& final(rec).model() == old(rec).model()
            },
        },
{
    let obj = match match_number(line, pats.objective_marker.as_str(), 4, false) {
        Ok(o) => o,
        Err(e) => {
            return Err(e);
        },
    };
    let ela = match match_number(line, pats.elapsed_marker.as_str(), 2, true) {
        Ok(o) => o,
        Err(e) => {
            return Err(e);
        },
    };
    let sol = match_solution(line, pats.solution_marker.as_str());
    if let Some(v) = obj {
        rec.objective = v;
    }
    if let Some(v) = ela {
        rec.elapsed = v;
    }
    if let Some(s) = sol {
        rec.solution = s;
    }
    Ok(str_eq(line, "----------"))
}

/// Scans a whole stream of lines, returning the rows emitted at each
/// sentinel; a hard parse error stops the scan, keeping the rows emitted so
/// far, as the detached parser task does.
pub fn consume_lines(
    rec: &mut ResultRecord,
    pats: &PatternSet,
    label: &str,
    lines: &Vec<String>,
) -> (rows: Vec<String>)
    ensures
        rows@.map_values(|s: String| s@) == stream_rows(
            old(rec).model(),
            pats.model(),
            label@,
            lines@.map_values(|l: String| l@),
        ),
        final(rec).model() == stream_record(
            old(rec).model(),
            pats.model(),
            lines@.map_values(|l: String| l@),
        ),
{
    let ghost ls = lines@.map_values(|l: String| l@);
    let ghost m0 = rec.model();
    let mut rows: Vec<String> = Vec::new();
    let mut i: usize = 0;
    proof {
        assert(ls.skip(0) =~= ls);
        assert(rows@.map_values(|s: String| s@) =~= Seq::<Seq<char>>::empty());
        assert(Seq::<Seq<char>>::empty() + stream_rows(m0, pats.model(), label@, ls) =~= stream_rows(
            m0,
            pats.model(),
            label@,
            ls,
        ));
    }
    while i < lines.len()
        invariant
            0 <= i <= lines.len(),
            ls == lines@.map_values(|l: String| l@),
            m0 == old(rec).model(),
            stream_rows(m0, pats.model(), label@, ls) == rows@.map_values(|s: String| s@)
                + stream_rows(rec.model(), pats.model(), label@, ls.skip(i as int)),
            stream_record(m0, pats.model(), ls) == stream_record(
                rec.model(),
                pats.model(),
                ls.skip(i as int),
            ),
        decreases lines.len() - i,
    {
        let line = &lines[i];
        let ghost pre_m = rec.model();
        let ghost rest = ls.skip(i as int);
        proof {
            assert(rest.first() == line@);
            assert(rest.drop_first() =~= ls.skip(i as int + 1));
        }
        let ghost rows_pre = rows@.map_values(|s: String| s@);
        match process_line(rec, pats, line.as_str()) {
            Ok(emit) => {
                if emit {
                    let row = format_row(label, rec);
                    rows.push(row);
                    proof {
                        assert(rows@.map_values(|s: String| s@) =~= rows_pre.push(
                            row_rep(label@, rec.model()),
                        ));
                    }
                }
                proof {
                    let emitted: Seq<Seq<char>> = if is_sentinel(line@) {
                        seq![row_rep(label@, rec.model())]
                    } else {
                        Seq::<Seq<char>>::empty()
                    };
                    assert(stream_rows(pre_m, pats.model(), label@, rest) == emitted + stream_rows(
                        rec.model(),
                        pats.model(),
                        label@,
                        ls.skip(i as int + 1),
                    ));
                    assert(rows@.map_values(|s: String| s@) =~= rows_pre + emitted);
                    assert(rows_pre + (emitted + stream_rows(
                        rec.model(),
                        pats.model(),
                        label@,
                        ls.skip(i as int + 1),
                    )) =~= (rows_pre + emitted) + stream_rows(
                        rec.model(),
                        pats.model(),
                        label@,
                        ls.skip(i as int + 1),
                    ));
                }
            },
            Err(_) => {
                proof {
                    assert(stream_rows(pre_m, pats.model(), label@, rest) =~= Seq::<
                        Seq<char>,
                    >::empty());
                    assert(rows_pre + Seq::<Seq<char>>::empty() =~= rows_pre);
                }
                return rows;
            },
        }
        i += 1;
    }
    proof {
        assert(ls.skip(i as int) =~= Seq::<Seq<char>>::empty());
        assert(rows@.map_values(|s: String| s@) + Seq::<Seq<char>>::empty() =~= rows@.map_values(
            |s: String| s@,
        ));
    }
    rows
}

/// Law: record fields are idempotent under repeated identical input lines;
/// scanning the same line twice leaves the record as after the first scan.
pub proof fn lemma_step_idempotent(m: RecordModel, p: Patterns, line: Seq<char>)
    ensures
        step_record(step_record(m, p, line), p, line) == step_record(m, p, line),
{
}

/// Law: a matched field reflects the line alone, not the record it met:
/// whatever two records held before, a line reporting a field leaves the same
/// value in it, so a sentinel row shows the most recently parsed value.
pub proof fn lemma_last_write_wins(m1: RecordModel, m2: RecordModel, p: Patterns, line: Seq<char>)
    ensures
        num_match(line, p.objective, false) ==> step_record(m1, p, line).objective == step_record(
            m2,
            p,
            line,
        ).objective,
        num_match(line, p.elapsed, true) ==> step_record(m1, p, line).elapsed == step_record(
            m2,
            p,
            line,
        ).elapsed,
        sol_match(line, p.solution) ==> step_record(m1, p, line).solution == step_record(
            m2,
            p,
            line,
        ).solution,
{
}

} // verus!
