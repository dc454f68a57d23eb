use mznlaunch::linescan::ParseError;
use mznlaunch::parser::{consume_lines, format_row, process_line, PatternSet, ResultRecord};

fn lines(v: &[&str]) -> Vec<String> {
    v.iter().map(|s| s.to_string()).collect()
}

#[test]
fn initial_record_holds_placeholders() {
    let rec = ResultRecord::new();
    assert_eq!(rec.objective, u64::MAX);
    assert_eq!(rec.elapsed, 0);
    assert_eq!(rec.solution, "-- no solution --");
}

#[test]
fn makespan_line_overwrites_objective() {
    let pats = PatternSet::tsptw();
    let mut rec = ResultRecord::new();
    let r = process_line(&mut rec, &pats, "% makespan: 12.5000");
    assert_eq!(r, Ok(false));
    assert_eq!(rec.objective, 125000);
}

#[test]
fn same_line_twice_is_idempotent() {
    // Feeding the identical metric line twice leaves the record unchanged
    // after the second application.
    let pats = PatternSet::tsptw();
    let mut rec = ResultRecord::new();
    process_line(&mut rec, &pats, "% makespan: 12.5000").unwrap();
    let first = (rec.objective, rec.elapsed, rec.solution.clone());
    process_line(&mut rec, &pats, "% makespan: 12.5000").unwrap();
    assert_eq!((rec.objective, rec.elapsed, rec.solution.clone()), first);
}

#[test]
fn sentinel_reflects_most_recent_objective() {
    // objective 12.5000, then 9.2500, then a sentinel: the row shows 9.2500.
    let pats = PatternSet::tsptw();
    let mut rec = ResultRecord::new();
    let rows = consume_lines(
        &mut rec,
        &pats,
        "run",
        &lines(&["% makespan: 12.5000", "% makespan: 9.2500", "----------"]),
    );
    assert_eq!(rows.len(), 1);
    assert!(rows[0].contains("    9.2500"));
    assert!(!rows[0].contains("12.5000"));
}

#[test]
fn end_to_end_single_row() {
    let pats = PatternSet::tsptw();
    let mut rec = ResultRecord::new();
    let rows = consume_lines(
        &mut rec,
        &pats,
        "bench1/inst01",
        &lines(&[
            "% makespan: 9.2500",
            "% permutation: [1, 2, 3]",
            "% time elapsed: 3.20 s",
            "----------",
        ]),
    );
    assert_eq!(rows.len(), 1);
    assert_eq!(rows[0], "bench1/inst01 |     9.2500 |       3.20 | 1 2 3");
}

#[test]
fn sentinel_without_metrics_emits_placeholders() {
    let pats = PatternSet::tsptw();
    let mut rec = ResultRecord::new();
    let rows = consume_lines(&mut rec, &pats, "lbl", &lines(&["----------"]));
    assert_eq!(rows.len(), 1);
    assert_eq!(
        rows[0],
        "lbl        | 1844674407370955.1615 |       0.00 | -- no solution --"
    );
}

#[test]
fn record_is_kept_across_sentinels() {
    // The record is not reset after an emission: a second sentinel with no
    // new metric lines repeats the accumulated values.
    let pats = PatternSet::tsptw();
    let mut rec = ResultRecord::new();
    let rows = consume_lines(
        &mut rec,
        &pats,
        "x",
        &lines(&["% makespan: 1.0000", "----------", "----------"]),
    );
    assert_eq!(rows.len(), 2);
    assert_eq!(rows[0], rows[1]);
}

#[test]
fn malformed_number_is_a_hard_error() {
    let pats = PatternSet::tsptw();
    let mut rec = ResultRecord::new();
    let r = process_line(&mut rec, &pats, "% makespan: 12x34");
    assert_eq!(r, Err(ParseError::MalformedNumber));
}

#[test]
fn oversized_number_is_a_hard_error() {
    let pats = PatternSet::tsptw();
    let mut rec = ResultRecord::new();
    let r = process_line(&mut rec, &pats, "% makespan: 99999999999999999999999999.0");
    assert_eq!(r, Err(ParseError::NumberTooLarge));
}

#[test]
fn hard_error_stops_the_stream_but_keeps_rows() {
    let pats = PatternSet::tsptw();
    let mut rec = ResultRecord::new();
    let rows = consume_lines(
        &mut rec,
        &pats,
        "x",
        &lines(&[
            "% makespan: 2.0000",
            "----------",
            "% makespan: 1x000",
            "----------",
        ]),
    );
    assert_eq!(rows.len(), 1);
}

#[test]
fn elapsed_needs_seconds_suffix() {
    let pats = PatternSet::tsptw();
    let mut rec = ResultRecord::new();
    process_line(&mut rec, &pats, "% time elapsed: 3.20").unwrap();
    assert_eq!(rec.elapsed, 0);
    process_line(&mut rec, &pats, "% time elapsed: 3.20 s").unwrap();
    assert_eq!(rec.elapsed, 320);
}

#[test]
fn unmatched_lines_are_ignored() {
    let pats = PatternSet::tsptw();
    let mut rec = ResultRecord::new();
    process_line(&mut rec, &pats, "chatter").unwrap();
    process_line(&mut rec, &pats, "% makespan: none yet").unwrap();
    assert_eq!(rec.objective, u64::MAX);
    assert_eq!(rec.elapsed, 0);
    assert_eq!(rec.solution, "-- no solution --");
}

#[test]
fn permutation_strips_commas() {
    let pats = PatternSet::tsptw();
    let mut rec = ResultRecord::new();
    process_line(&mut rec, &pats, "% permutation: [4, 1, 3]").unwrap();
    assert_eq!(rec.solution, "4 1 3");
}

#[test]
fn permutation_without_bracket_is_ignored() {
    let pats = PatternSet::tsptw();
    let mut rec = ResultRecord::new();
    process_line(&mut rec, &pats, "% permutation: [4, 1, 3").unwrap();
    assert_eq!(rec.solution, "-- no solution --");
}

#[test]
fn psp_patterns_match_psp_output() {
    let pats = PatternSet::psp();
    let mut rec = ResultRecord::new();
    let rows = consume_lines(
        &mut rec,
        &pats,
        "psp/inst",
        &lines(&[
            "% total cost : 7.5000",
            "% plan       : [2,1]",
            "% time elapsed: 0.50 s",
            "----------",
        ]),
    );
    assert_eq!(rows.len(), 1);
    assert_eq!(rows[0], "psp/inst   |     7.5000 |       0.50 | 21");
}

#[test]
fn format_row_pads_and_joins() {
    let rec = ResultRecord {
        objective: 92500,
        elapsed: 320,
        solution: "1 2 3".to_string(),
    };
    assert_eq!(format_row("ab", &rec), "ab         |     9.2500 |       3.20 | 1 2 3");
}

#[test]
fn capture_stops_at_second_dot() {
    let pats = PatternSet::tsptw();
    let mut rec = ResultRecord::new();
    process_line(&mut rec, &pats, "% makespan: 12.5.7").unwrap();
    assert_eq!(rec.objective, 125000);
}

#[test]
fn integer_without_fraction_is_ignored() {
    let pats = PatternSet::tsptw();
    let mut rec = ResultRecord::new();
    process_line(&mut rec, &pats, "% makespan: 12").unwrap();
    process_line(&mut rec, &pats, "% makespan: 12.").unwrap();
    assert_eq!(rec.objective, u64::MAX);
}

#[test]
fn elapsed_suffix_may_continue() {
    let pats = PatternSet::tsptw();
    let mut rec = ResultRecord::new();
    process_line(&mut rec, &pats, "% time elapsed: 3.20 seconds").unwrap();
    assert_eq!(rec.elapsed, 320);
}

#[test]
fn error_on_first_line_emits_nothing() {
    let pats = PatternSet::tsptw();
    let mut rec = ResultRecord::new();
    let rows = consume_lines(&mut rec, &pats, "x", &lines(&["% makespan: 1x0", "----------"]));
    assert!(rows.is_empty());
    assert_eq!(rec.objective, u64::MAX);
}
