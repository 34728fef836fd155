use skepd::blocked::{Address, BlockedEntry, BlockedHeader, BlockedIssue, BlockedPrefixes, Comparand};
use skepd::cli::NodePrefix;

fn addr(s: &str) -> Address {
    Address::parse(s).expect("a dotted-decimal address")
}

fn node_prefix(s: &str) -> NodePrefix {
    NodePrefix::parse(s).ok().expect("a node prefix")
}

fn issue(operator: Option<&str>, binding_writer: Option<&str>, entries: &[(&str, &str)]) -> BlockedIssue {
    BlockedIssue {
        header: BlockedHeader { operator: operator.map(addr), binding_writer: binding_writer.map(addr) },
        entries: entries
            .iter()
            .map(|(prefix, record)| BlockedEntry { prefix: addr(prefix), record: addr(record) })
            .collect(),
    }
}

#[test]
fn covers_answers_the_longest_covering_entrys_record() {
    let list = BlockedPrefixes::installed_under(
        issue(None, None, &[("1.0.2", "1.0.1.0.7.1"), ("1.0.2.1", "1.0.1.0.8.1")]),
        None,
        None,
    );
    assert_eq!(list.covers(&addr("1.0.2")), Some(&addr("1.0.1.0.7.1")), "the prefix itself");
    assert_eq!(list.covers(&addr("1.0.2.5")), Some(&addr("1.0.1.0.7.1")), "and below it");
    assert_eq!(list.covers(&addr("1.0.2.1")), Some(&addr("1.0.1.0.8.1")), "the longest");
    assert_eq!(list.covers(&addr("1.0.2.1.4")), Some(&addr("1.0.1.0.8.1")));
    assert_eq!(list.covers(&addr("1.0.3")), None, "a sibling");
    assert_eq!(list.covers(&addr("1.0.21")), None, "containment is by component");
    let below = BlockedPrefixes::installed_under(issue(None, None, &[("1.0.2.1", "1.0.1.0.8.1")]), None, None);
    assert_eq!(below.covers(&addr("1.0.2")), None, "an entry over X.k does not reach X");
    let tied = BlockedPrefixes::installed_under(
        issue(None, None, &[("1.0.2", "1.0.1.0.7.1"), ("1.0.2", "1.0.1.0.8.1")]),
        None,
        None,
    );
    assert_eq!(tied.covers(&addr("1.0.2")), Some(&addr("1.0.1.0.7.1")));
    assert_eq!(BlockedPrefixes::default().covers(&addr("1.0.2")), None, "no supply, no block");
}

#[test]
fn the_install_ignores_exactly_the_entries_covering_a_comparand() {
    let (claimant, seat, member, host) = ("1.0.1", "1.0.2", "1.0.3", "2.0.7");
    let seat_global = "1.3.0.2";
    let record = "1.0.1.0.7.1";
    let prefix = node_prefix("1.3");
    let entries = [(claimant, record), (seat, record), (member, record), (host, record), (seat_global, record)];
    let verdicts = |operator, binding_writer, claimed: Option<&str>| {
        let claimed = claimed.map(addr);
        BlockedPrefixes::installed_under(issue(operator, binding_writer, &entries), claimed.as_ref(), Some(&prefix))
            .inert()
            .clone()
    };
    let (a, b) = (Some(Comparand::Operator), Some(Comparand::BindingWriter));
    assert_eq!(verdicts(None, None, Some(claimant)), [a, None, None, None, None], "the root");
    assert_eq!(verdicts(Some(seat_global), None, Some(claimant)), [None, None, None, None, a], "a self-served fork");
    assert_eq!(verdicts(Some(host), None, Some(claimant)), [b, None, None, a, None], "a hosted tier");
    assert_eq!(verdicts(Some(host), Some(seat), Some(claimant)), [None, b, None, a, None], "a third-party-hosted fork");
    assert_eq!(verdicts(None, None, None), [None, None, None, None, None], "unclaimed, the header naming none");
    assert_eq!(verdicts(Some(seat), None, Some(claimant)), [b, a, None, None, None], "the seat in the local form");
    let list = BlockedPrefixes::installed_under(
        issue(None, None, &[("1", record), ("1.0.1.1", record)]),
        Some(&addr(claimant)),
        Some(&prefix),
    );
    assert_eq!(*list.inert(), [a, None], "above is inert; the agent space beneath blocks");
    assert_eq!(list.covers(&addr(member)), None, "an inert entry blocks nobody");
    assert!(list.covers(&addr("1.0.1.1")).is_some());
}

#[test]
fn an_all_inert_issue_is_not_an_empty_one() {
    let claimant = addr("1.0.1");
    let all_inert = BlockedPrefixes::installed_under(
        issue(None, None, &[("1.0.1", "1.0.1.0.9.1")]),
        Some(&claimant),
        Some(&node_prefix("1.3")),
    );
    assert_eq!(all_inert.in_force(), 0, "the claim made its one entry inert");
    assert!(!all_inert.issue_is_empty(), "and that is exactly what the log must say");
    let empty = BlockedPrefixes::installed_under(issue(None, None, &[]), Some(&claimant), None);
    assert!(empty.issue_is_empty(), "an issue with no entries has nothing to say");
    assert!(BlockedPrefixes::default().issue_is_empty(), "nor has no supply at all");
}

#[test]
fn the_off_board_test_reads_the_node_prefix_and_never_the_local_root() {
    let (claimant, record) = ("1.0.1", "1.0.1.0.7.1");
    let (own, foreign) = (node_prefix("1.3"), node_prefix("1.5"));
    let entries = [(claimant, record), ("1.3.0.7", record)];
    let verdicts = |operator: Option<&str>, prefix: Option<&NodePrefix>| {
        BlockedPrefixes::installed_under(issue(operator, None, &entries), Some(&addr(claimant)), prefix)
            .inert()
            .clone()
    };
    let (a, b) = (Some(Comparand::Operator), Some(Comparand::BindingWriter));
    assert_eq!(verdicts(Some("1.3.0.7"), Some(&own)), [None, a], "under 1.3 the operator is ON-board");
    assert_eq!(verdicts(Some("1.3.0.7"), Some(&foreign)), [b, a], "under 1.5 the same operator is OFF-board");
    assert_eq!(verdicts(Some("1.3.0.7"), None), [None, a], "no node prefix: the test is off");
    assert_eq!(verdicts(None, Some(&foreign)), [a, None], "the claimant is on-board by construction");
    let installed = BlockedPrefixes::installed_under(issue(Some("1.3.0.7"), None, &[]), None, Some(&own));
    assert_eq!(installed.node_prefix().map(|p| p.as_str()), Some("1.3"), "the prefix the install read is kept");
}

#[test]
fn the_install_log_names_the_count_the_header_and_each_inert_entry() {
    let claimant = addr("1.0.1");
    let prefix = node_prefix("1.3");
    let list = BlockedPrefixes::installed_under(
        issue(Some("2.0.7"), None, &[("1.0.1", "1.0.1.0.9.1"), ("1.0.3", "1.0.1.0.7.1"), ("2.0.7", "1.0.1.0.11.1")]),
        Some(&claimant),
        Some(&prefix),
    );
    assert_eq!(
        list.log_lines(),
        [
            "1 of 3 entries in force, 2 inert; operator account 2.0.7 (the header's); \
             binding-writing account 1.0.1 (the claimant — the header omits it) — exempt, \
             the operator account being off-board (not under the node prefix 1.3)",
            "entry 1.0.1 (record 1.0.1.0.9.1) is INERT — it covers the board's \
             binding-writing account 1.0.1; ignored",
            "entry 2.0.7 (record 1.0.1.0.11.1) is INERT — it covers the configured \
             operator account 2.0.7; ignored",
        ]
    );
    let root = BlockedPrefixes::installed_under(issue(None, None, &[("1.0.3", "1.0.1.0.7.1")]), Some(&claimant), Some(&prefix));
    assert_eq!(
        root.log_lines(),
        ["1 of 1 entries in force, 0 inert; operator account 1.0.1 (the claimant — the \
          header names none); binding-writing account not a comparand (the operator \
          account is an account of this board — under the node prefix 1.3, or the \
          claimant taken in the header's place — or there is none)"]
    );
    let untold = BlockedPrefixes::installed_under(
        issue(Some("1.3.0.7"), None, &[("1.0.1", "1.0.1.0.9.1"), ("1.0.3", "1.0.1.0.7.1")]),
        Some(&claimant),
        None,
    );
    assert_eq!(
        untold.log_lines(),
        ["2 of 2 entries in force, 0 inert; operator account 1.3.0.7 (the header's); \
          binding-writing account not a comparand (no --node-prefix: the off-board test \
          is off; a hosted board must supply one)"]
    );
    let unclaimed = BlockedPrefixes::installed_under(issue(None, None, &[]), None, None);
    assert!(
        unclaimed.log_lines()[0].contains("operator account none (the header names none, and the board is unclaimed)"),
        "{:?}",
        unclaimed.log_lines()
    );
}

#[test]
fn an_address_parses_as_dotted_decimal_and_renders_canonically() {
    assert_eq!(addr("1.0.2.0.3").to_text(), "1.0.2.0.3");
    assert_eq!(addr("1.007.0").to_text(), "1.7.0", "a component reads as the natural it spells");
    assert_eq!(addr("1.0.2").depth(), 3);
    for bad in ["", ".", "1..2", "1.", ".1", "1.-2", "1.+2", "1.a", "1 .2"] {
        assert!(Address::parse(bad).is_none(), "'{bad}' must not parse");
    }
    assert!(addr("1.0").contains(&addr("1.0.2")));
    assert!(!addr("1.0.2").contains(&addr("1.0")));
    assert_eq!(node_prefix("1.1024.7").address(), addr("1.1024.7"));
}
