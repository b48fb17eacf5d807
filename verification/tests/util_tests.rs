use elegant_state::AgentId;
use elegant_state::EdgeKind;
use elegant_state::NodeKind;
use elegant_state::Operation;
use elegant_state::ProposalTarget;
use elegant_state::contains_char;
use elegant_state::edge_kind_name;
use elegant_state::node_kind_name;
use elegant_state::operation_name;
use elegant_state::parse_agent_id;
use elegant_state::parse_duration;
use elegant_state::parse_edge_kind;
use elegant_state::parse_node_kind;
use elegant_state::parse_operation;
use elegant_state::parse_proposal_target;
use elegant_state::parse_u64;
use elegant_state::str_eq;
use elegant_state::str_starts_with;
use elegant_state::truncate_str;

#[test]
fn truncate_str_keeps_short_strings() {
    assert_eq!(truncate_str("hello", 10), "hello");
    assert_eq!(truncate_str("hello", 5), "hello");
    assert_eq!(truncate_str("", 0), "");
}

#[test]
fn truncate_str_cuts_long_strings_with_ellipsis() {
    assert_eq!(truncate_str("hello world", 8), "hello...");
    assert_eq!(truncate_str("abcdef", 5), "ab...");
    // Below three, nothing of the text survives.
    assert_eq!(truncate_str("abcdef", 2), "...");
}

#[test]
fn parse_u64_accepts_exactly_fitting_digit_strings() {
    assert_eq!(parse_u64("0"), Some(0));
    assert_eq!(parse_u64("42"), Some(42));
    assert_eq!(parse_u64("18446744073709551615"), Some(u64::MAX));
    assert_eq!(parse_u64("18446744073709551616"), None);
    assert_eq!(parse_u64(""), None);
    assert_eq!(parse_u64("12a"), None);
    assert_eq!(parse_u64("-5"), None);
}

#[test]
fn parse_duration_understands_unit_suffixes() {
    assert_eq!(parse_duration("7d"), Some(7 * 86400));
    assert_eq!(parse_duration("12h"), Some(12 * 3600));
    assert_eq!(parse_duration("30m"), Some(30 * 60));
    assert_eq!(parse_duration("45s"), Some(45));
    // A bare number counts as days.
    assert_eq!(parse_duration("3"), Some(3 * 86400));
    assert_eq!(parse_duration(""), None);
    assert_eq!(parse_duration("d"), None);
    assert_eq!(parse_duration("x7"), None);
    assert_eq!(parse_duration("1.5h"), None);
}

#[test]
fn parse_duration_trims_and_accepts_signed_numbers() {
    assert_eq!(parse_duration(" 7d "), Some(7 * 86400));
    assert_eq!(parse_duration("\t30m\n"), Some(30 * 60));
    assert_eq!(parse_duration("-2d"), Some(-2 * 86400));
    assert_eq!(parse_duration("+3h"), Some(3 * 3600));
    assert_eq!(parse_duration("-0s"), Some(0));
    assert_eq!(parse_duration("-"), None);
    assert_eq!(parse_duration("+d"), None);
    assert_eq!(parse_duration("   "), None);
    // The number itself must fit an i64.
    assert_eq!(parse_duration("9223372036854775807s"), Some(i64::MAX));
    assert_eq!(parse_duration("-9223372036854775808s"), Some(i64::MIN));
    assert_eq!(parse_duration("9223372036854775808s"), None);
    // A number that fits but a seconds value that does not is rejected
    // rather than failed on.
    assert_eq!(parse_duration("9223372036854775807d"), None);
}

#[test]
fn str_trim_removes_surrounding_whitespace() {
    assert_eq!(elegant_state::str_trim("  a b  "), "a b");
    assert_eq!(elegant_state::str_trim("\tx\n"), "x");
    assert_eq!(elegant_state::str_trim(""), "");
    assert_eq!(elegant_state::str_trim(" \t "), "");
}

#[test]
fn parse_agent_id_knows_builtins_and_modules() {
    assert_eq!(parse_agent_id("user"), AgentId::User);
    assert_eq!(parse_agent_id("assistant"), AgentId::Assistant);
    assert_eq!(parse_agent_id("llama"), AgentId::Llama);
    assert_eq!(parse_agent_id("system"), AgentId::System);
    assert_eq!(parse_agent_id("module:alpha"), AgentId::Module("alpha".to_string()));
    assert_eq!(parse_agent_id("module:"), AgentId::Module("".to_string()));
    assert_eq!(parse_agent_id("someone"), AgentId::User);
}

#[test]
fn kind_names_round_trip_through_their_parsers() {
    let node_kinds = [
        NodeKind::Conversation,
        NodeKind::Project,
        NodeKind::Insight,
        NodeKind::Task,
        NodeKind::Context,
        NodeKind::Module,
        NodeKind::Agent,
    ];
    for k in node_kinds {
        assert_eq!(parse_node_kind(&node_kind_name(k)), Some(k));
    }
    let edge_kinds = [
        EdgeKind::References,
        EdgeKind::DerivedFrom,
        EdgeKind::RelatedTo,
        EdgeKind::PartOf,
        EdgeKind::Blocks,
        EdgeKind::Enables,
        EdgeKind::Supersedes,
    ];
    for k in edge_kinds {
        assert_eq!(parse_edge_kind(&edge_kind_name(k)), Some(k));
    }
    let ops = [
        Operation::Create,
        Operation::Update,
        Operation::Delete,
        Operation::Link,
        Operation::Unlink,
    ];
    for op in ops {
        assert_eq!(parse_operation(&operation_name(op)), Some(op));
    }
    assert_eq!(parse_node_kind("bogus"), None);
    assert_eq!(parse_edge_kind("bogus"), None);
    assert_eq!(parse_operation("bogus"), None);
}

#[test]
fn parse_proposal_target_understands_the_three_forms() {
    assert_eq!(
        parse_proposal_target("node:5"),
        Some(ProposalTarget::Node { id: Some(5), kind: None })
    );
    assert_eq!(
        parse_proposal_target("edge:7"),
        Some(ProposalTarget::Edge { id: Some(7), from: None, to: None })
    );
    assert_eq!(
        parse_proposal_target("new:task"),
        Some(ProposalTarget::Node { id: None, kind: Some(NodeKind::Task) })
    );
    // An id that does not parse is carried as absent.
    assert_eq!(
        parse_proposal_target("node:xyz"),
        Some(ProposalTarget::Node { id: None, kind: None })
    );
    assert_eq!(parse_proposal_target("new:bogus"), None);
    assert_eq!(parse_proposal_target("something"), None);
}

#[test]
fn string_helpers_are_exact() {
    assert!(str_eq("abc", "abc"));
    assert!(!str_eq("abc", "abd"));
    assert!(!str_eq("abc", "ab"));
    assert!(str_starts_with("module:alpha", "module:"));
    assert!(!str_starts_with("mod", "module:"));
    assert!(contains_char("a:b", ':'));
    assert!(!contains_char("ab", ':'));
}
