use skepd::derived::{
    closing, fence_bytes, offsets_agree, parse_records, record_bytes, record_of, replay, Closing,
    DerivedFile, Record, Sidecar,
};
use skepd::json::{JsonTop, Member, Scalar};

#[test]
fn appends_and_fences_move_the_claim_and_replay_reads_it_back() {
    let mut f = DerivedFile::open(0);
    assert_eq!(f.coverage(), 0);
    assert!(f.takes_appends());
    assert!(!f.append(3, true));
    assert!(!f.append(7, true));
    assert!(f.fence_wanted(9));
    f.fenced(9);
    assert_eq!(f.coverage(), 9);
    assert!(!f.fence_wanted(5), "a fence below coverage is a no-op");
    assert_eq!(f.coverage(), 9);

    let lines = vec![Record::Entry(3), Record::Entry(7), Record::Fence(9)];
    let r = replay(&lines, 20);
    assert_eq!(r.coverage, 9);
    assert_eq!(r.kept, vec![0, 1]);
    assert!(!r.foreign);
}

#[test]
fn lines_past_the_head_are_another_journals() {
    let lines = vec![
        Record::Entry(3),
        Record::Entry(7),
        Record::Fence(9),
        Record::Entry(99),
        Record::Fence(999),
    ];
    let r = replay(&lines, 20);
    assert_eq!(r.kept, vec![0, 1]);
    assert_eq!(r.coverage, 9, "a foreign fence does not raise coverage");
    assert!(r.foreign);
    let mut f = DerivedFile::open(r.coverage);
    f.rewritten(r.coverage);
    assert_eq!(f.coverage(), 9);
    let empty = replay(&Vec::new(), 20);
    assert_eq!(empty.coverage, 0, "an empty file claims nothing");
    assert!(empty.kept.is_empty());
}

#[test]
fn a_failed_append_stops_the_file_below_its_gap() {
    let mut f = DerivedFile::open(9);
    assert!(f.append(10, false), "the failing append reports itself");
    assert_eq!(f.coverage(), 9, "and the refused position does not raise the claim");
    assert!(!f.takes_appends());
    assert!(!f.append(11, true), "a stopped file reports its failure once");
    assert_eq!(f.coverage(), 9, "a stopped file's coverage stays where the gap left it");
    assert!(!f.fence_wanted(20), "and no fence closes the check over the gap");
    assert_eq!(f.coverage(), 9);
}

#[test]
fn a_torn_tail_is_cut_at_the_last_whole_line() {
    let whole = "{\"at\":3}\n{\"at\":7,\"docs\":[\"1.0.2.0.2\"]}\n{\"covered\":9}\n";
    let torn = format!("{whole}{{\"at\":11,\"do");
    let (records, end) = parse_records(torn.as_bytes());
    assert_eq!(records, vec![Record::Entry(3), Record::Entry(7), Record::Fence(9)]);
    assert_eq!(end, whole.len(), "the tail is cut");
    let (records, end) = parse_records(whole.as_bytes());
    assert_eq!(records.len(), 3);
    assert_eq!(end, whole.len());
}

#[test]
fn trust_ends_at_the_first_line_that_is_no_record() {
    let bytes = b"{\"at\":1}\n{\"covered\":\"x\"}\n{\"at\":2}\n";
    let (records, end) = parse_records(bytes);
    assert_eq!(records, vec![Record::Entry(1)]);
    assert_eq!(end, 9);
    let (records, end) = parse_records(b"[1]\n{\"at\":2}\n");
    assert!(records.is_empty());
    assert_eq!(end, 0);
    let (records, _) = parse_records(b"{\"covered\":4,\"at\":9}\n{\"at\":-1}\n");
    assert_eq!(records, vec![Record::Fence(4)], "a fence is read first; a signed position is torn");
}

#[test]
fn lines_are_key_sorted_and_newline_terminated() {
    let mut f = DerivedFile::open(0);
    let mut file: Vec<u8> = Vec::new();
    let l = f.append_line(3, vec![]).unwrap();
    file.extend_from_slice(&l);
    assert!(!f.append(3, true));
    let l = f
        .append_line(7, vec![("docs", Scalar::Texts(vec!["1.0.2.0.2".to_string()]))])
        .unwrap();
    file.extend_from_slice(&l);
    assert!(!f.append(7, true));
    let l = f.fence_line(9).unwrap();
    file.extend_from_slice(&l);
    f.fenced(9);
    assert!(f.fence_line(5).is_none(), "a fence below coverage writes nothing");
    assert_eq!(
        String::from_utf8(file.clone()).unwrap(),
        "{\"at\":3}\n{\"at\":7,\"docs\":[\"1.0.2.0.2\"]}\n{\"covered\":9}\n"
    );
    let (records, end) = parse_records(&file);
    assert_eq!(records, vec![Record::Entry(3), Record::Entry(7), Record::Fence(9)]);
    assert_eq!(end, file.len());
}

#[test]
fn a_stopped_file_writes_no_line() {
    let mut f = DerivedFile::open(9);
    assert!(f.append_line(10, vec![]).is_some());
    assert!(f.append(10, false));
    assert!(f.append_line(11, vec![("docs", Scalar::Texts(vec![]))]).is_none());
    assert!(f.fence_line(20).is_none());
    assert_eq!(f.coverage(), 9);
}

#[test]
fn the_position_wins_over_a_field_named_at() {
    assert_eq!(record_bytes(5, vec![("at", Scalar::Number(1)), ("offset", Scalar::Number(40))]), b"{\"at\":5,\"offset\":40}\n".to_vec());
    assert_eq!(fence_bytes(0), b"{\"covered\":0}\n".to_vec());
}

#[test]
fn a_parsed_document_reads_as_its_record() {
    let fence = JsonTop::Object(vec![("covered".to_string(), Member::Number(Some(4)))]);
    assert_eq!(record_of(&fence), Some(Record::Fence(4)));
    let entry = JsonTop::Object(vec![("at".to_string(), Member::Number(Some(2))), ("docs".to_string(), Member::Array)]);
    assert_eq!(record_of(&entry), Some(Record::Entry(2)));
    let torn = JsonTop::Object(vec![("covered".to_string(), Member::Str("x".to_string()))]);
    assert_eq!(record_of(&torn), None);
    assert_eq!(record_of(&JsonTop::NotObject), None);
}

#[test]
fn opening_rewrites_what_the_log_moved() {
    assert_eq!(closing(Sidecar::Offsets, false, true), vec![Closing::TailThenFence]);
    assert_eq!(closing(Sidecar::Offsets, false, false), vec![Closing::Rewrite]);
    assert_eq!(closing(Sidecar::Offsets, true, true), vec![Closing::Rewrite]);
    assert_eq!(closing(Sidecar::Index, false, false), vec![Closing::TailThenFence]);
    assert_eq!(closing(Sidecar::Masked, true, true), vec![Closing::TailThenFence, Closing::Rewrite]);
    let log = vec![(1u64, 0u64), (2, 17), (5, 40)];
    assert!(offsets_agree(&vec![(1, Some(0)), (5, Some(40))], &log));
    assert!(!offsets_agree(&vec![(2, Some(18))], &log));
    assert!(!offsets_agree(&vec![(3, Some(0))], &log));
    assert!(offsets_agree(&vec![(3, None)], &log), "an offset the log lacks, recorded as none, agrees");
    assert!(!offsets_agree(&vec![(2, None)], &log));
}
