use qperf_lib::aggregate::update_arrays;
use qperf_lib::qperformance;
use qperf_lib::quizzers::get_quizzer_names;
use qperf_lib::records::filter_records;
use qperf_lib::report::build_results;
use qperf_lib::roundmap::RoundMap;
use qperf_lib::rtf::extract_round_types;
use qperf_lib::text::{fmt_count, parse_chars_or, sort_strings};
use qperf_lib::types::question_type_codes;

fn record(round: &str, qnum: &str, quizzer: &str, team: &str, code: &str) -> Vec<String> {
    let mut r: Vec<String> = vec![String::new(); 11];
    r[4] = round.to_string();
    r[5] = qnum.to_string();
    r[7] = quizzer.to_string();
    r[8] = team.to_string();
    r[10] = code.to_string();
    r
}

fn csv_line(round: &str, qnum: &str, quizzer: &str, team: &str, code: &str) -> String {
    format!(",,,,{},{},,{},{},,{}\n", round, qnum, quizzer, team, code)
}

const HEADER: &str = "Quizzer,\tA QA,\tA QC,\tA BA,\tA BC,\tG QA,\tG QC,\tG BA,\tG BC,\tI QA,\tI QC,\tI BA,\tI BC,\tQ QA,\tQ QC,\tQ BA,\tQ BC,\tR QA,\tR QC,\tR BA,\tR BC,\tS QA,\tS QC,\tS BA,\tS BC,\tV QA,\tV QC,\tV BA,\tV BC,\tX QA,\tX QC,\tX BA,\tX BC,\t\n";

#[test]
fn test_read_rtf_file() {
    let content = "intro\\tabSET #3\\tabA)\\tabz\\tabG)";
    let map = extract_round_types(content);
    assert!(map.len() > 0);
    // The marker opens round '3'; the even fragments "A)" and "G)" each
    // contribute their second-to-last character.
    assert_eq!(map.get("'3'"), Some(&vec!['A', 'G']));
    // The fragment before any marker accumulated under the empty round.
    assert_eq!(map.get(""), Some(&vec!['r']));
    assert_eq!(map.len(), 2);
}

#[test]
fn test_read_csv_file() {
    // With no question sets, parsed records still drive the quizzer rows:
    // the report shows the quizzer, proving the log text was read.
    let csv = csv_line("'1'", "'2'", "Alice", "1", "'TC'");
    let (warns, report, diag) = qperformance(&vec![], &csv);
    let lines: Vec<&str> = report.lines().collect();
    assert_eq!(lines.len(), 2);
    assert!(lines[1].starts_with("Alice,\t"));
    assert_eq!(warns.len(), 3);
    assert_eq!(diag, None);
}

#[test]
fn test_filter_records() {
    let rows = vec![
        record("'1'", "'1'", "Alice", "1", "'TC'"),
        record("'1'", "'1'", "Bob", "1", "'IN'"),
        record("'1'", "'2'", "Cara", "2", "'BE'"),
    ];
    let filtered = filter_records(rows);
    assert_eq!(filtered.len(), 2);
    assert_eq!(filtered[0][7], "Alice");
    assert_eq!(filtered[1][7], "Cara");
}

#[test]
fn scenario_correct_team_answer_counts_one_cell() {
    // A round map {"'1'": ['A','G','Q']} and one correct team answer on
    // question 2 (type 'G') by Alice: exactly attempts[G] and correct[G]
    // become 1.0, everything else stays 0.0.
    let mut map = RoundMap::new();
    map.set("'1'".to_string(), vec!['A', 'G', 'Q']);
    let records = vec![record("'1'", "'2'", "Alice", "1", "'TC'")];
    let names = get_quizzer_names(&records);
    assert_eq!(names, vec!["Alice".to_string()]);
    let mut warns: Vec<String> = Vec::new();
    let mut attempts = vec![vec![0u64; 8]; 1];
    let mut correct = vec![vec![0u64; 8]; 1];
    let mut bonus_attempts = vec![vec![0u64; 8]; 1];
    let mut bonus = vec![vec![0u64; 8]; 1];
    update_arrays(
        &mut warns,
        &records,
        &names,
        &map,
        &mut attempts,
        &mut correct,
        &mut bonus_attempts,
        &mut bonus,
    );
    assert!(warns.is_empty());
    // 'G' is the second column of the fixed alphabetical type ordering.
    assert_eq!(question_type_codes()[1], 'G');
    assert_eq!(attempts[0][1], 1);
    assert_eq!(correct[0][1], 1);
    for j in 0..8 {
        if j != 1 {
            assert_eq!(attempts[0][j], 0);
            assert_eq!(correct[0][j], 0);
        }
        assert_eq!(bonus_attempts[0][j], 0);
        assert_eq!(bonus[0][j], 0);
    }
    let report = build_results(&names, &attempts, &correct, &bonus_attempts, &bonus, ",");
    let expected_row = "Alice,\t0.0,\t0.0,\t0.0,\t0.0,\t1.0,\t1.0,\t0.0,\t0.0,\t0.0,\t0.0,\t0.0,\t0.0,\t0.0,\t0.0,\t0.0,\t0.0,\t0.0,\t0.0,\t0.0,\t0.0,\t0.0,\t0.0,\t0.0,\t0.0,\t0.0,\t0.0,\t0.0,\t0.0,\t0.0,\t0.0,\t0.0,\t0.0,\t\n";
    assert_eq!(report, format!("{}{}", HEADER, expected_row));
}

#[test]
fn scenario_question_twentyone_is_always_generic() {
    // Question 21 maps to the generic type even though the round defines
    // only five types, none of them 'G'.
    let mut map = RoundMap::new();
    map.set("'1'".to_string(), vec!['A', 'A', 'A', 'A', 'A']);
    let records = vec![record("'1'", "'21'", "Alice", "1", "'TE'")];
    let names = get_quizzer_names(&records);
    let mut warns: Vec<String> = Vec::new();
    let mut attempts = vec![vec![0u64; 8]; 1];
    let mut correct = vec![vec![0u64; 8]; 1];
    let mut bonus_attempts = vec![vec![0u64; 8]; 1];
    let mut bonus = vec![vec![0u64; 8]; 1];
    update_arrays(
        &mut warns,
        &records,
        &names,
        &map,
        &mut attempts,
        &mut correct,
        &mut bonus_attempts,
        &mut bonus,
    );
    assert_eq!(attempts[0][1], 1); // the 'G' column
    assert_eq!(correct[0][1], 0); // an error increments attempts only
    assert_eq!(attempts[0][0], 0); // not the 'A' column
}

#[test]
fn scenario_missing_round_changes_nothing_and_warns_once() {
    // Two records of a round absent from the map: no cell changes, and the
    // identifier appears once in the skipped-rounds warning.
    let mut map = RoundMap::new();
    map.set("'1'".to_string(), vec!['A']);
    let records = vec![
        record("'9'", "'1'", "Alice", "1", "'TC'"),
        record("'9'", "'2'", "Alice", "1", "'BC'"),
    ];
    let names = get_quizzer_names(&records);
    let mut warns: Vec<String> = Vec::new();
    let mut attempts = vec![vec![0u64; 8]; 1];
    let mut correct = vec![vec![0u64; 8]; 1];
    let mut bonus_attempts = vec![vec![0u64; 8]; 1];
    let mut bonus = vec![vec![0u64; 8]; 1];
    update_arrays(
        &mut warns,
        &records,
        &names,
        &map,
        &mut attempts,
        &mut correct,
        &mut bonus_attempts,
        &mut bonus,
    );
    for j in 0..8 {
        assert_eq!(attempts[0][j], 0);
        assert_eq!(correct[0][j], 0);
        assert_eq!(bonus_attempts[0][j], 0);
        assert_eq!(bonus[0][j], 0);
    }
    assert_eq!(warns.len(), 3);
    assert_eq!(
        warns[0],
        "Warning: Some records were skipped due to missing question sets"
    );
    assert_eq!(warns[1], "Skipped Rounds: [\"'9'\"]");
    assert_eq!(
        warns[2],
        "If your question sets are not named correctly, please rename them to match the round numbers in the quiz data file"
    );
}

#[test]
fn skipped_rounds_are_sorted_lexicographically() {
    let map = RoundMap::new();
    let records = vec![
        record("'2'", "'1'", "Alice", "1", "'TC'"),
        record("'10'", "'1'", "Alice", "1", "'TC'"),
        record("'2'", "'3'", "Alice", "1", "'TE'"),
    ];
    let names = get_quizzer_names(&records);
    let mut warns: Vec<String> = Vec::new();
    let mut attempts = vec![vec![0u64; 8]; 1];
    let mut correct = vec![vec![0u64; 8]; 1];
    let mut bonus_attempts = vec![vec![0u64; 8]; 1];
    let mut bonus = vec![vec![0u64; 8]; 1];
    update_arrays(
        &mut warns,
        &records,
        &names,
        &map,
        &mut attempts,
        &mut correct,
        &mut bonus_attempts,
        &mut bonus,
    );
    // "'10'" sorts before "'2'" character by character.
    assert_eq!(warns[1], "Skipped Rounds: [\"'10'\", \"'2'\"]");
}

#[test]
fn duplicate_round_keeps_first_definition_and_warns() {
    // Both documents define round '3'; the first maps question 1 to 'A',
    // the second to 'G'. The report must count under 'A'.
    let doc1 = "x\\tabSET #3\\tabA)".to_string();
    let doc2 = "x\\tabSET #3\\tabG)".to_string();
    let csv = csv_line("'3'", "'1'", "Alice", "1", "'TC'");
    let (warns, report, _diag) = qperformance(&vec![doc1, doc2], &csv);
    assert!(warns.contains(&"Warning: Duplicate question set number: '3', using only the first.".to_string()));
    let lines: Vec<&str> = report.lines().collect();
    let row: Vec<&str> = lines[1].split(",\t").collect();
    assert_eq!(row[0], "Alice");
    assert_eq!(row[1], "1.0"); // A QA
    assert_eq!(row[2], "1.0"); // A QC
    assert_eq!(row[5], "0.0"); // G QA stays zero
}

#[test]
fn quizzer_order_groups_by_team_then_first_appearance() {
    let records = vec![
        record("'1'", "'1'", "Cara", "2", "'TC'"),
        record("'1'", "'2'", "Alice", "1", "'TC'"),
        record("'1'", "'3'", "Cara", "2", "'TE'"),
        record("'1'", "'4'", "Bob", "1", "'BC'"),
    ];
    let names = get_quizzer_names(&records);
    assert_eq!(
        names,
        vec!["Alice".to_string(), "Bob".to_string(), "Cara".to_string()]
    );
    // The enumerator is deterministic: a second run gives the same list.
    let again = get_quizzer_names(&records);
    assert_eq!(names, again);
}

#[test]
fn report_header_and_rows_have_fixed_width() {
    let records = vec![
        record("'1'", "'1'", "Alice", "1", "'TC'"),
        record("'1'", "'2'", "Bob", "2", "'BE'"),
    ];
    let names = get_quizzer_names(&records);
    let attempts = vec![vec![0u64; 8]; 2];
    let report = build_results(&names, &attempts, &attempts, &attempts, &attempts, ",");
    for line in report.lines() {
        // Every field ends with ",\t", so splitting yields one trailing
        // empty piece beyond the 33 fields.
        let fields: Vec<&str> = line.split(",\t").collect();
        assert_eq!(fields.len(), 8 * 4 + 1 + 1);
        assert_eq!(fields[8 * 4 + 1], "");
    }
}

#[test]
fn unparseable_log_yields_empty_report_and_diagnostic() {
    // Rows of unequal width make the whole read fail; the run continues
    // with zero records, the returned warnings gain no entry, and the
    // condition surfaces only as the separate diagnostic.
    let csv = "a,b,c\nd,e\n";
    let (warns, report, diag) = qperformance(&vec![], csv);
    assert!(warns.is_empty());
    let diag = diag.expect("a parse failure must yield a diagnostic");
    assert!(diag.starts_with("Quiz data contains formatting error: "));
    assert_eq!(report, HEADER);
}

#[test]
fn empty_inputs_give_bare_header() {
    let (warns, report, diag) = qperformance(&vec![], "");
    assert!(warns.is_empty());
    assert_eq!(diag, None);
    assert_eq!(report, HEADER);
}

#[test]
fn question_number_parse_failure_defaults_to_first_position() {
    // A question field that does not parse reads as question 1, so the
    // first type of the round is counted.
    let mut map = RoundMap::new();
    map.set("'1'".to_string(), vec!['Q', 'A']);
    let records = vec![record("'1'", "oops", "Alice", "1", "'TC'")];
    let names = get_quizzer_names(&records);
    let mut warns: Vec<String> = Vec::new();
    let mut attempts = vec![vec![0u64; 8]; 1];
    let mut correct = vec![vec![0u64; 8]; 1];
    let mut bonus_attempts = vec![vec![0u64; 8]; 1];
    let mut bonus = vec![vec![0u64; 8]; 1];
    update_arrays(
        &mut warns,
        &records,
        &names,
        &map,
        &mut attempts,
        &mut correct,
        &mut bonus_attempts,
        &mut bonus,
    );
    assert_eq!(attempts[0][3], 1); // the 'Q' column
}

#[test]
fn question_position_past_round_length_is_generic() {
    let mut map = RoundMap::new();
    map.set("'1'".to_string(), vec!['A']);
    let records = vec![record("'1'", "'5'", "Alice", "1", "'BC'")];
    let names = get_quizzer_names(&records);
    let mut warns: Vec<String> = Vec::new();
    let mut attempts = vec![vec![0u64; 8]; 1];
    let mut correct = vec![vec![0u64; 8]; 1];
    let mut bonus_attempts = vec![vec![0u64; 8]; 1];
    let mut bonus = vec![vec![0u64; 8]; 1];
    update_arrays(
        &mut warns,
        &records,
        &names,
        &map,
        &mut attempts,
        &mut correct,
        &mut bonus_attempts,
        &mut bonus,
    );
    assert_eq!(bonus_attempts[0][1], 1); // 'G'
    assert_eq!(bonus[0][1], 1);
}

#[test]
fn count_rendering_matches_one_decimal_format() {
    assert_eq!(fmt_count(0), "0.0");
    assert_eq!(fmt_count(5), "5.0");
    assert_eq!(fmt_count(10), "10.0");
    assert_eq!(fmt_count(12345), "12345.0");
}

#[test]
fn tolerant_number_parsing() {
    let digits: Vec<char> = "42".chars().collect();
    assert_eq!(parse_chars_or(&digits, 7), 42);
    let junk: Vec<char> = "4x2".chars().collect();
    assert_eq!(parse_chars_or(&junk, 7), 7);
    let empty: Vec<char> = Vec::new();
    assert_eq!(parse_chars_or(&empty, 7), 7);
    let huge: Vec<char> = "99999999999999999999999999".chars().collect();
    assert_eq!(parse_chars_or(&huge, 7), 7);
    // One leading plus sign is accepted; more than one, or a bare sign,
    // falls back to the default.
    let plus: Vec<char> = "+5".chars().collect();
    assert_eq!(parse_chars_or(&plus, 7), 5);
    let bare: Vec<char> = "+".chars().collect();
    assert_eq!(parse_chars_or(&bare, 7), 7);
    let twice: Vec<char> = "++5".chars().collect();
    assert_eq!(parse_chars_or(&twice, 7), 7);
}

#[test]
fn skipped_round_identifiers_are_escaped() {
    // A round identifier holding a double quote or a backslash is printed
    // with backslash escapes in the skipped-rounds list.
    let map = RoundMap::new();
    let records = vec![record("x\"y\\z", "'1'", "Alice", "1", "'TC'")];
    let names = get_quizzer_names(&records);
    let mut warns: Vec<String> = Vec::new();
    let mut attempts = vec![vec![0u64; 8]; 1];
    let mut correct = vec![vec![0u64; 8]; 1];
    let mut bonus_attempts = vec![vec![0u64; 8]; 1];
    let mut bonus = vec![vec![0u64; 8]; 1];
    update_arrays(
        &mut warns,
        &records,
        &names,
        &map,
        &mut attempts,
        &mut correct,
        &mut bonus_attempts,
        &mut bonus,
    );
    assert_eq!(warns[1], "Skipped Rounds: [\"x\\\"y\\\\z\"]");
}

#[test]
fn string_sorting_is_lexicographic() {
    let v = vec!["b".to_string(), "a".to_string(), "ab".to_string()];
    let sorted = sort_strings(v);
    assert_eq!(
        sorted,
        vec!["a".to_string(), "ab".to_string(), "b".to_string()]
    );
}

#[test]
fn rtf_marker_must_precede_alphanumeric_id() {
    // "SET #" with nothing alphanumeric after it opens no round.
    let content = "x\\tabSET #!\\tabA)";
    let map = extract_round_types(content);
    assert_eq!(map.len(), 1);
    assert_eq!(map.get("'!'"), None);
    // Everything accumulated under the empty identifier.
    assert!(map.get("").is_some());
}
