use headstamp::compare::{check_header, near_match_advisory, read_prefix};
use headstamp::policy::{process_file, decide, tally, Mode, Outcome};
use headstamp::rewrite::{header_present, splice_header, strip_header};

fn bytes(s: &str) -> Vec<u8> {
    s.as_bytes().to_vec()
}

#[test]
fn license_scenario_add_twice_then_remove() {
    let header = bytes("LICENSE\n");
    let content = bytes("hello\n");

    let added = process_file(&header, Mode::Add, &content);
    assert_eq!(added.outcome, Outcome::Mutated);
    assert_eq!(added.content, bytes("LICENSE\nhello\n"));

    let again = process_file(&header, Mode::Add, &added.content);
    assert_eq!(again.outcome, Outcome::SkippedAlreadyCorrect);
    assert_eq!(again.content, added.content);

    let removed = process_file(&header, Mode::Remove, &again.content);
    assert_eq!(removed.outcome, Outcome::Mutated);
    assert_eq!(removed.content, content);
}

#[test]
fn remove_on_file_shorter_than_header_is_skipped() {
    let header = bytes("XYZ");
    let content = bytes("XY");
    let r = process_file(&header, Mode::Remove, &content);
    assert_eq!(r.outcome, Outcome::SkippedAlreadyAbsent);
    assert_eq!(r.content, content);
}

#[test]
fn remove_on_absent_header_is_a_no_op() {
    let header = bytes("LICENSE\n");
    let content = bytes("hello\n");
    let r = process_file(&header, Mode::Remove, &content);
    assert_eq!(r.outcome, Outcome::SkippedAlreadyAbsent);
    assert_eq!(r.content, content);
}

#[test]
fn strip_tolerates_content_shorter_than_header() {
    let header = bytes("XYZ");
    let content = bytes("XY");
    let r = strip_header(&header, &content);
    assert_eq!(r, Vec::<u8>::new());
}

#[test]
fn splice_and_strip_exact_bytes() {
    let header = bytes("H:");
    let content = bytes("body");
    assert_eq!(splice_header(&header, &content), bytes("H:body"));
    assert_eq!(strip_header(&header, &bytes("H:body")), bytes("body"));
}

#[test]
fn header_present_exact_only() {
    assert!(header_present(&bytes("LICENSE\n"), &bytes("LICENSE\nrest")));
    assert!(header_present(&bytes("LICENSE\n"), &bytes("LICENSE\n")));
    assert!(!header_present(&bytes("LICENSE\n"), &bytes("LICENSE")));
    assert!(!header_present(&bytes("XYZ"), &bytes("XY")));
    assert!(!header_present(&bytes("ab"), &bytes("aB rest")));
    assert!(header_present(&Vec::new(), &bytes("anything")));
    assert!(header_present(&Vec::new(), &Vec::new()));
}

#[test]
fn decide_covers_all_cases() {
    assert_eq!(decide(Mode::Add, true), Outcome::SkippedAlreadyCorrect);
    assert_eq!(decide(Mode::Add, false), Outcome::Mutated);
    assert_eq!(decide(Mode::Remove, true), Outcome::Mutated);
    assert_eq!(decide(Mode::Remove, false), Outcome::SkippedAlreadyAbsent);
}

#[test]
fn advisory_flags_a_near_match() {
    // Eleven characters, one edited: distance 1 of length 11 is about 90.91%,
    // strictly between 90% and 100%, so the advisory fires with 9091 basis
    // points (100005 / 11, rounded down).
    let header = bytes("abcdefghijk");
    let prefix = bytes("abcdefghijX");
    assert_eq!(near_match_advisory(&header, &prefix), Some(9091));
}

#[test]
fn advisory_silent_on_exact_match_and_far_match() {
    let header = bytes("abcdefghijk");
    assert_eq!(near_match_advisory(&header, &header), None);
    assert_eq!(near_match_advisory(&bytes("aaaa"), &bytes("bbbb")), None);
    assert_eq!(near_match_advisory(&Vec::new(), &Vec::new()), None);
}

#[test]
fn advisory_silent_on_binary_data() {
    let header = vec![0xff, 0xfe, 0x00, 0x01];
    let content = vec![0xff, 0xfe, 0x00, 0x02];
    assert_eq!(near_match_advisory(&header, &content), None);
    // The exact path still decides for binary data.
    assert!(!header_present(&header, &content));
    assert!(header_present(&header, &vec![0xff, 0xfe, 0x00, 0x01, 0x09]));
}

#[test]
fn check_header_reports_both_signals() {
    let header = bytes("abcdefghijk");
    let content = bytes("abcdefghijXtail of the file");
    let r = check_header(&header, &content);
    assert!(!r.present);
    assert_eq!(r.advisory, Some(9091));

    let exact = check_header(&header, &bytes("abcdefghijk and more"));
    assert!(exact.present);
    assert_eq!(exact.advisory, None);
}

#[test]
fn read_prefix_is_bounded_by_both_lengths() {
    assert_eq!(read_prefix(&bytes("abc"), &bytes("abcdef")), bytes("abc"));
    assert_eq!(read_prefix(&bytes("abcdef"), &bytes("abc")), bytes("abc"));
    assert_eq!(read_prefix(&bytes("abc"), &Vec::new()), Vec::<u8>::new());
}

#[test]
fn remove_whole_file_header_leaves_empty_file() {
    let header = bytes("LICENSE\n");
    let r = process_file(&header, Mode::Remove, &header.clone());
    assert_eq!(r.outcome, Outcome::Mutated);
    assert_eq!(r.content, Vec::<u8>::new());
}

#[test]
fn round_trip_restores_content() {
    let header = bytes("// SPDX\n");
    let content = bytes("fn main() {}\n");
    let added = process_file(&header, Mode::Add, &content);
    let back = process_file(&header, Mode::Remove, &added.content);
    assert_eq!(back.content, content);
}

#[test]
fn tally_counts_every_outcome_once() {
    let outcomes = vec![
        Outcome::Mutated,
        Outcome::SkippedAlreadyCorrect,
        Outcome::Mutated,
        Outcome::SkippedAlreadyAbsent,
        Outcome::Mutated,
    ];
    let s = tally(&outcomes);
    assert_eq!(s.mutated, 3);
    assert_eq!(s.skipped_correct, 1);
    assert_eq!(s.skipped_absent, 1);
}

#[test]
fn empty_header_is_always_present() {
    let header: Vec<u8> = Vec::new();
    let r = process_file(&header, Mode::Add, &bytes("hello"));
    assert_eq!(r.outcome, Outcome::SkippedAlreadyCorrect);
    assert_eq!(r.content, bytes("hello"));
}
