use sha2::Digest;
use skepd::head::{marshal_head, parse_hex32, Clock, HeadCadence, Plan};
use skepd::hybrid::{hex, ExactBytes, OsRng06, SeededRng06};
use skepd::notice;

fn text(b: Vec<u8>) -> String {
    String::from_utf8(b).expect("the record is ASCII")
}

#[test]
fn a_first_head_names_no_base_and_no_prev() {
    let r = marshal_head(7, &[0xab; 32], None, None);
    assert_eq!(
        text(r),
        format!(
            "{{\"type\":\"skep-head\",\"format\":\"SKJ3\",\"position\":7,\"chain\":\"{}\",\"base\":null,\"prev\":null}}",
            "ab".repeat(32)
        )
    );
}

#[test]
fn a_later_head_names_its_base_and_prev_in_schema_order() {
    let r = marshal_head(42, &[0x01; 32], Some((40, [0x02; 32], [0xff; 32])), Some((21, [0x10; 32])));
    assert_eq!(
        text(r),
        format!(
            "{{\"type\":\"skep-head\",\"format\":\"SKJ3\",\"position\":42,\"chain\":\"{}\",\"base\":{{\"seq\":40,\"chain\":\"{}\",\"body_hash\":\"{}\"}},\"prev\":{{\"position\":21,\"chain\":\"{}\"}}}}",
            "01".repeat(32),
            "02".repeat(32),
            "ff".repeat(32),
            "10".repeat(32)
        )
    );
    assert_eq!(
        marshal_head(42, &[0x01; 32], None, None),
        marshal_head(42, &[0x01; 32], None, None),
        "two heads at one position are byte-identical"
    );
}

#[test]
fn a_chain_parses_from_exactly_sixty_four_lowercase_hex_characters() {
    assert_eq!(parse_hex32(&"ab".repeat(32)), Some([0xab; 32]));
    assert_eq!(parse_hex32(&"AB".repeat(32)), None, "lowercase only");
    assert_eq!(parse_hex32(&"+f".repeat(32)), None, "no sign");
    assert_eq!(parse_hex32(&"ab".repeat(31)), None, "too short");
    assert_eq!(parse_hex32(&"ab".repeat(33)), None, "too long");
    assert_eq!(parse_hex32(&format!("{}zz", "ab".repeat(31))), None, "not hex");
    assert_eq!(parse_hex32(&format!("{}é", "ab".repeat(31))), None, "not on a character pair");
    let chain: [u8; 32] = core::array::from_fn(|i| i as u8 * 7);
    assert_eq!(parse_hex32(&hex(&chain)), Some(chain), "a rendered chain reads back");
}

#[test]
fn the_clock_reads_real_time_unless_fixed() {
    let mut c = Clock::new();
    assert_eq!(c.now_millis(1234), 1234);
    c.set_millis(5);
    assert_eq!(c.now_millis(1234), 5, "a fixed reading holds");
    c.set_millis(9);
    assert_eq!(c.now_millis(0), 9, "until changed");
}

fn chain(n: u8) -> [u8; 32] {
    [n; 32]
}

fn land(c: &mut HeadCadence, plan: &Plan, seen: u64) {
    c.hold();
    assert!(c.after_commit(seen, chain(0xee), None, plan.now_millis).is_none(), "the head's own commits count nothing");
    c.release();
    c.after_head(true, plan, seen);
}

#[test]
fn a_head_is_due_every_so_many_landed_commits_and_never_twice_for_a_position() {
    let mut c = HeadCadence::open(None, 0, 0, 3, 1_000_000);
    assert!(c.after_commit(1, chain(1), None, 10).is_none(), "one commit");
    assert!(c.after_commit(1, chain(1), None, 10).is_none(), "an ack that landed nothing counts nothing");
    assert!(c.after_commit(2, chain(2), None, 10).is_none(), "two commits");
    let plan = c.after_commit(3, chain(3), None, 10).expect("the third landed commit is due");
    assert_eq!(plan.position, 3);
    assert_eq!(plan.chain, chain(3));
    assert!(plan.prev.is_none(), "the first head has no prev");
    assert!(plan.base.is_none());
    land(&mut c, &plan, 5);
    let st = c.state();
    assert_eq!(st.last_position, Some(3));
    assert_eq!(st.commits_since_head, 0);
    assert_eq!(st.last_seen_position, 5);
    for p in 6..8 {
        assert!(c.after_commit(p, chain(p as u8), None, 10).is_none());
    }
    let plan = c.after_commit(8, chain(8), None, 10).expect("three more landed commits");
    assert_eq!(plan.prev, Some((3, chain(3))), "the next head names the last as its prev");
}

#[test]
fn a_moved_checkpoint_or_the_interval_makes_a_head_due() {
    let mut c = HeadCadence::open(Some((4, chain(4), Some(2))), 4, 100, 1_000, 50);
    let plan = c.after_commit(5, chain(5), Some((3, chain(9), chain(8))), 100).expect("the checkpoint moved");
    assert_eq!(plan.base, Some((3, chain(9), chain(8))));
    assert_eq!(plan.checkpoint_seq, Some(3));
    c.after_head(true, &plan, 5);
    assert!(c.after_commit(6, chain(6), Some((3, chain(9), chain(8))), 120).is_none(), "nothing due yet");
    let plan = c.after_commit(7, chain(7), Some((3, chain(9), chain(8))), 150).expect("the interval elapsed");
    assert_eq!(plan.now_millis, 150);
    let mut c = HeadCadence::open(Some((4, chain(4), None)), 4, 0, 1, 50);
    let plan = c.after_commit(5, chain(5), Some((9, chain(1), chain(2))), 0).expect("due by count");
    assert!(plan.base.is_none(), "a checkpoint above the named position is no base");
    c.after_head(false, &plan, 6);
    assert_eq!(c.state().last_position, Some(4), "a head that did not land moves nothing but the seq");
    assert_eq!(c.state().last_seen_position, 6);
}

fn block(seed: [u8; 32], counter: u64) -> Vec<u8> {
    let mut h = sha2::Sha256::new();
    h.update(seed);
    h.update(counter.to_be_bytes());
    h.finalize().to_vec()
}

#[test]
fn the_seeded_stream_is_sha256_in_counter_mode() {
    let seed = [7u8; 32];
    let mut rng = SeededRng06::new(seed);
    let out = rng.fill_bytes(40);
    let mut want = block(seed, 0);
    want.extend_from_slice(&block(seed, 1)[..8]);
    assert_eq!(out, want);
    let more = rng.fill_bytes(24);
    assert_eq!(more, block(seed, 1)[8..].to_vec(), "the block is drained before the next");
    let w = rng.next_u32();
    assert_eq!(w, u32::from_le_bytes(block(seed, 2)[..4].try_into().unwrap()));
    let mut again = SeededRng06::new(seed);
    assert_eq!(again.fill_bytes(40), want, "the same seed, the same stream");
}

#[test]
fn the_os_stream_hands_out_the_count_asked_for() {
    let mut rng = OsRng06;
    assert_eq!(rng.fill_bytes(33).expect("OS entropy").len(), 33);
    assert!(rng.next_u64().is_some());
    assert_eq!(hex(&[0x00, 0x0f, 0xa0]), "000fa0");
}

#[test]
fn an_exact_source_yields_exactly_its_bytes() {
    let mut src = ExactBytes::new((0u8..16).collect());
    assert_eq!(src.fill_bytes(3), vec![0, 1, 2]);
    assert_eq!(src.next_u32(), u32::from_le_bytes([3, 4, 5, 6]));
    assert_eq!(src.next_u64(), u64::from_le_bytes([7, 8, 9, 10, 11, 12, 13, 14]));
    assert_eq!(src.fill_bytes(1), vec![15]);
    assert_eq!(src.fill_bytes(0), Vec::<u8>::new());
}

#[test]
fn a_notice_is_one_prefixed_entry() {
    assert_eq!(notice::line("listening"), "skepd: listening");
    assert_eq!(
        notice::block("blocked-prefix list installed", &vec!["1 of 2 entries in force".to_string(), "entry 1.0.1 is INERT".to_string()]),
        "skepd: blocked-prefix list installed\nskepd:   1 of 2 entries in force\nskepd:   entry 1.0.1 is INERT"
    );
    assert_eq!(notice::block("alone", &Vec::new()), "skepd: alone");
}
