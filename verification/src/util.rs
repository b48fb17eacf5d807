//! Text utilities: exact string comparison, decimal parsing, and the
//! parsers that turn command-line spellings into schema values. Callers
//! are expected to hand in lower-cased, trimmed text; the contracts here
//! are exact over the character sequences given.

use vstd::prelude::*;

use crate::proposal::ProposalTarget;
use crate::schema::AgentId;
use crate::schema::AgentIdV;
use crate::schema::EdgeKind;
use crate::schema::NodeKind;
use crate::schema::Operation;

verus! {

/// Character-exact string equality.
#[verifier::loop_isolation(false)]
pub fn str_eq(a: &str, b: &str) -> (r: bool)
    ensures
        r == (a@ == b@),
{
    let n = a.unicode_len();
    let m = b.unicode_len();
    if n != m {
        proof {
            assert(a@ != b@);
        }
        return false;
    }
    let mut i: usize = 0;
    while i < n
        invariant
            n == a@.len(),
            n == b@.len(),
            i <= n,
            forall|j: int| 0 <= j < i ==> a@[j] == b@[j],
        decreases n - i,
    {
        if a.get_char(i) != b.get_char(i) {
            proof {
                assert(a@[i as int] != b@[i as int]);
            }
            return false;
        }
        i = i + 1;
    }
    proof {
        assert(a@ =~= b@);
    }
    true
}

/// Whether `c` occurs in `s`.
#[verifier::loop_isolation(false)]
pub fn contains_char(s: &str, c: char) -> (r: bool)
    ensures
        r == s@.contains(c),
{
    let n = s.unicode_len();
    let mut i: usize = 0;
    while i < n
        invariant
            n == s@.len(),
            i <= n,
            forall|j: int| 0 <= j < i ==> s@[j] != c,
        decreases n - i,
    {
        if s.get_char(i) == c {
            proof {
                assert(s@.contains(c));
            }
            return true;
        }
        i = i + 1;
    }
    proof {
        assert(!s@.contains(c));
    }
    false
}

/// Whether `c` is a decimal digit.
pub open spec fn is_digit(c: char) -> bool {
    '0' <= c <= '9'
}

/// The numeric value of a digit character.
pub open spec fn digit_val(c: char) -> int {
    c as int - '0' as int
}

/// Whether every character of `s` is a decimal digit.
pub open spec fn all_digits(s: Seq<char>) -> bool {
    forall|i: int| 0 <= i < s.len() ==> is_digit(#[trigger] s[i])
}

/// The value of a digit string read in base ten.
pub open spec fn dec_value(s: Seq<char>) -> int
    decreases s.len(),
{
    if s.len() == 0 {
        0
    } else {
        dec_value(s.drop_last()) * 10 + digit_val(s.last())
    }
}

/// A digit string's value is non-negative.
proof fn lemma_dec_value_nonneg(s: Seq<char>)
    requires
        all_digits(s),
    ensures
        dec_value(s) >= 0,
    decreases s.len(),
{
    if s.len() > 0 {
        assert(all_digits(s.drop_last())) by {
            assert(forall|i: int| 0 <= i < s.len() - 1 ==> s.drop_last()[i] == s[i]);
        }
        lemma_dec_value_nonneg(s.drop_last());
        assert(is_digit(s.last()));
    }
}

/// A digit string is worth at least any of its prefixes.
proof fn lemma_dec_value_prefix_le(s: Seq<char>, i: int)
    requires
        all_digits(s),
        0 <= i <= s.len(),
    ensures
        dec_value(s.subrange(0, i)) <= dec_value(s),
    decreases s.len(),
{
    if i == s.len() {
        assert(s.subrange(0, i) =~= s);
    } else {
        assert(all_digits(s.drop_last())) by {
            assert(forall|j: int| 0 <= j < s.len() - 1 ==> s.drop_last()[j] == s[j]);
        }
        assert(s.subrange(0, i) =~= s.drop_last().subrange(0, i));
        lemma_dec_value_prefix_le(s.drop_last(), i);
        lemma_dec_value_nonneg(s.drop_last());
        assert(is_digit(s.last()));
        assert(dec_value(s) >= dec_value(s.drop_last()));
    }
}

/// What [`parse_u64`] yields on a character sequence.
pub open spec fn spec_parsed_u64(s: Seq<char>) -> Option<u64> {
    if s.len() > 0 && all_digits(s) && dec_value(s) <= u64::MAX {
        Some(dec_value(s) as u64)
    } else {
        None
    }
}

/// Parses an unsigned decimal number. Returns the value exactly when the
/// string is non-empty, all digits, and the value fits in a `u64`.
#[verifier::loop_isolation(false)]
pub fn parse_u64(s: &str) -> (r: Option<u64>)
    ensures
        r == spec_parsed_u64(s@),
        r is Some <==> s@.len() > 0 && all_digits(s@) && dec_value(s@) <= u64::MAX,
        r is Some ==> r->0 == dec_value(s@),
{
    let n = s.unicode_len();
    if n == 0 {
        return None;
    }
    let mut acc: u64 = 0;
    let mut i: usize = 0;
    while i < n
        invariant
            n == s@.len(),
            i <= n,
            all_digits(s@.subrange(0, i as int)),
            acc == dec_value(s@.subrange(0, i as int)),
        decreases n - i,
    {
        let c = s.get_char(i);
        if !(c >= '0' && c <= '9') {
            proof {
                assert(!is_digit(s@[i as int]));
                assert(!all_digits(s@));
            }
            return None;
        }
        let d: u64 = (c as u32 as u64) - ('0' as u32 as u64);
        proof {
            assert(s@.subrange(0, i + 1).drop_last() =~= s@.subrange(0, i as int));
            assert(s@.subrange(0, i + 1).last() == s@[i as int]);
            assert(d == digit_val(s@[i as int]));
            assert(all_digits(s@.subrange(0, i + 1))) by {
                assert(forall|j: int|
                    0 <= j < i + 1 ==> s@.subrange(0, i + 1)[j] == s@[j]);
            }
        }
        if acc > (u64::MAX - d) / 10 {
            proof {
                let ghost pref = s@.subrange(0, i + 1);
                assert(dec_value(pref) == acc * 10 + d);
                assert(acc * 10 + d > u64::MAX) by (nonlinear_arith)
                    requires
                        acc > (u64::MAX - d) / 10,
                        0 <= d <= 9,
                        acc >= 0,
                ;
                if all_digits(s@) {
                    lemma_dec_value_prefix_le(s@, i + 1);
                    assert(dec_value(s@) > u64::MAX);
                }
            }
            return None;
        }
        proof {
            assert(acc * 10 + d <= u64::MAX) by (nonlinear_arith)
                requires
                    acc <= (u64::MAX - d) / 10,
                    0 <= d <= 9,
                    acc >= 0,
            ;
        }
        acc = acc * 10 + d;
        i = i + 1;
    }
    proof {
        assert(s@.subrange(0, n as int) =~= s@);
    }
    Some(acc)
}

/// The character sequence of one hop past a prefix: whether `s` starts
/// with `p`.
pub open spec fn starts_with(s: Seq<char>, p: Seq<char>) -> bool {
    s.len() >= p.len() && s.subrange(0, p.len() as int) == p
}

/// Whether `s` (already lower-cased by the caller) starts with the given
/// prefix; exact over character sequences.
#[verifier::loop_isolation(false)]
pub fn str_starts_with(s: &str, p: &str) -> (r: bool)
    ensures
        r == starts_with(s@, p@),
{
    let n = s.unicode_len();
    let m = p.unicode_len();
    if n < m {
        return false;
    }
    let mut i: usize = 0;
    while i < m
        invariant
            n == s@.len(),
            m == p@.len(),
            m <= n,
            i <= m,
            forall|j: int| 0 <= j < i ==> s@[j] == p@[j],
        decreases m - i,
    {
        if s.get_char(i) != p.get_char(i) {
            proof {
                assert(s@[i as int] != p@[i as int]);
                assert(!starts_with(s@, p@)) by {
                    if starts_with(s@, p@) {
                        assert(s@.subrange(0, m as int)[i as int] == p@[i as int]);
                    }
                }
            }
            return false;
        }
        i = i + 1;
    }
    proof {
        assert(s@.subrange(0, m as int) =~= p@);
    }
    true
}

/// The suffix of `s` from character position `from` on, as an owned
/// string.
#[verifier::loop_isolation(false)]
pub fn str_suffix(s: &str, from: usize) -> (r: String)
    requires
        from <= s@.len(),
    ensures
        r@ == s@.subrange(from as int, s@.len() as int),
{
    let n = s.unicode_len();
    let part = s.substring_char(from, n);
    part.to_owned()
}

/// The canonical spelling of a node kind.
pub open spec fn node_kind_str(k: NodeKind) -> Seq<char> {
    match k {
        NodeKind::Conversation => "conversation"@,
        NodeKind::Project => "project"@,
        NodeKind::Insight => "insight"@,
        NodeKind::Task => "task"@,
        NodeKind::Context => "context"@,
        NodeKind::Module => "module"@,
        NodeKind::Agent => "agent"@,
    }
}

/// The canonical spelling of an edge kind.
pub open spec fn edge_kind_str(k: EdgeKind) -> Seq<char> {
    match k {
        EdgeKind::References => "references"@,
        EdgeKind::DerivedFrom => "derived-from"@,
        EdgeKind::RelatedTo => "related-to"@,
        EdgeKind::PartOf => "part-of"@,
        EdgeKind::Blocks => "blocks"@,
        EdgeKind::Enables => "enables"@,
        EdgeKind::Supersedes => "supersedes"@,
    }
}

/// The canonical spelling of an operation kind.
pub open spec fn operation_str(op: Operation) -> Seq<char> {
    match op {
        Operation::Create => "create"@,
        Operation::Update => "update"@,
        Operation::Delete => "delete"@,
        Operation::Link => "link"@,
        Operation::Unlink => "unlink"@,
    }
}

/// The canonical spelling of a node kind, as an owned string.
pub fn node_kind_name(k: NodeKind) -> (r: String)
    ensures
        r@ == node_kind_str(k),
{
    match k {
        NodeKind::Conversation => "conversation".to_owned(),
        NodeKind::Project => "project".to_owned(),
        NodeKind::Insight => "insight".to_owned(),
        NodeKind::Task => "task".to_owned(),
        NodeKind::Context => "context".to_owned(),
        NodeKind::Module => "module".to_owned(),
        NodeKind::Agent => "agent".to_owned(),
    }
}

/// The canonical spelling of an edge kind, as an owned string.
pub fn edge_kind_name(k: EdgeKind) -> (r: String)
    ensures
        r@ == edge_kind_str(k),
{
    match k {
        EdgeKind::References => "references".to_owned(),
        EdgeKind::DerivedFrom => "derived-from".to_owned(),
        EdgeKind::RelatedTo => "related-to".to_owned(),
        EdgeKind::PartOf => "part-of".to_owned(),
        EdgeKind::Blocks => "blocks".to_owned(),
        EdgeKind::Enables => "enables".to_owned(),
        EdgeKind::Supersedes => "supersedes".to_owned(),
    }
}

/// The canonical spelling of an operation, as an owned string.
pub fn operation_name(op: Operation) -> (r: String)
    ensures
        r@ == operation_str(op),
{
    match op {
        Operation::Create => "create".to_owned(),
        Operation::Update => "update".to_owned(),
        Operation::Delete => "delete".to_owned(),
        Operation::Link => "link".to_owned(),
        Operation::Unlink => "unlink".to_owned(),
    }
}

/// What [`parse_node_kind`] yields on a character sequence.
pub open spec fn spec_parse_node_kind(s: Seq<char>) -> Option<NodeKind> {
    if s == "conversation"@ {
        Some(NodeKind::Conversation)
    } else if s == "project"@ {
        Some(NodeKind::Project)
    } else if s == "insight"@ {
        Some(NodeKind::Insight)
    } else if s == "task"@ {
        Some(NodeKind::Task)
    } else if s == "context"@ {
        Some(NodeKind::Context)
    } else if s == "module"@ {
        Some(NodeKind::Module)
    } else if s == "agent"@ {
        Some(NodeKind::Agent)
    } else {
        None
    }
}

/// Parses a node kind from its canonical spelling.
pub fn parse_node_kind(s: &str) -> (r: Option<NodeKind>)
    ensures
        r == spec_parse_node_kind(s@),
        r is Some ==> s@ == node_kind_str(r->0),
{
    proof {
        reveal_strlit("conversation");
        reveal_strlit("project");
        reveal_strlit("insight");
        reveal_strlit("task");
        reveal_strlit("context");
        reveal_strlit("module");
        reveal_strlit("agent");
    }
    if str_eq(s, "conversation") {
        Some(NodeKind::Conversation)
    } else if str_eq(s, "project") {
        Some(NodeKind::Project)
    } else if str_eq(s, "insight") {
        Some(NodeKind::Insight)
    } else if str_eq(s, "task") {
        Some(NodeKind::Task)
    } else if str_eq(s, "context") {
        Some(NodeKind::Context)
    } else if str_eq(s, "module") {
        Some(NodeKind::Module)
    } else if str_eq(s, "agent") {
        Some(NodeKind::Agent)
    } else {
        None
    }
}

/// What [`parse_edge_kind`] yields on a character sequence.
pub open spec fn spec_parse_edge_kind(s: Seq<char>) -> Option<EdgeKind> {
    if s == "references"@ {
        Some(EdgeKind::References)
    } else if s == "derived-from"@ {
        Some(EdgeKind::DerivedFrom)
    } else if s == "related-to"@ {
        Some(EdgeKind::RelatedTo)
    } else if s == "part-of"@ {
        Some(EdgeKind::PartOf)
    } else if s == "blocks"@ {
        Some(EdgeKind::Blocks)
    } else if s == "enables"@ {
        Some(EdgeKind::Enables)
    } else if s == "supersedes"@ {
        Some(EdgeKind::Supersedes)
    } else {
        None
    }
}

/// Parses an edge kind from its canonical spelling.
pub fn parse_edge_kind(s: &str) -> (r: Option<EdgeKind>)
    ensures
        r == spec_parse_edge_kind(s@),
        r is Some ==> s@ == edge_kind_str(r->0),
{
    proof {
        reveal_strlit("references");
        reveal_strlit("derived-from");
        reveal_strlit("related-to");
        reveal_strlit("part-of");
        reveal_strlit("blocks");
        reveal_strlit("enables");
        reveal_strlit("supersedes");
    }
    if str_eq(s, "references") {
        Some(EdgeKind::References)
    } else if str_eq(s, "derived-from") {
        Some(EdgeKind::DerivedFrom)
    } else if str_eq(s, "related-to") {
        Some(EdgeKind::RelatedTo)
    } else if str_eq(s, "part-of") {
        Some(EdgeKind::PartOf)
    } else if str_eq(s, "blocks") {
        Some(EdgeKind::Blocks)
    } else if str_eq(s, "enables") {
        Some(EdgeKind::Enables)
    } else if str_eq(s, "supersedes") {
        Some(EdgeKind::Supersedes)
    } else {
        None
    }
}

/// What [`parse_operation`] yields on a character sequence.
pub open spec fn spec_parse_operation(s: Seq<char>) -> Option<Operation> {
    if s == "create"@ {
        Some(Operation::Create)
    } else if s == "update"@ {
        Some(Operation::Update)
    } else if s == "delete"@ {
        Some(Operation::Delete)
    } else if s == "link"@ {
        Some(Operation::Link)
    } else if s == "unlink"@ {
        Some(Operation::Unlink)
    } else {
        None
    }
}

/// Parses an operation from its canonical spelling.
pub fn parse_operation(s: &str) -> (r: Option<Operation>)
    ensures
        r == spec_parse_operation(s@),
        r is Some ==> s@ == operation_str(r->0),
{
    proof {
        reveal_strlit("create");
        reveal_strlit("update");
        reveal_strlit("delete");
        reveal_strlit("link");
        reveal_strlit("unlink");
    }
    if str_eq(s, "create") {
        Some(Operation::Create)
    } else if str_eq(s, "update") {
        Some(Operation::Update)
    } else if str_eq(s, "delete") {
        Some(Operation::Delete)
    } else if str_eq(s, "link") {
        Some(Operation::Link)
    } else if str_eq(s, "unlink") {
        Some(Operation::Unlink)
    } else {
        None
    }
}

/// Parses an agent identity from its spelling (the caller lower-cases
/// first): one of the built-in names, `module:<name>` for an extension
/// module, and anything else falls back to the user identity.
pub open spec fn spec_parse_agent_id(s: Seq<char>) -> AgentIdV {
    if s == "user"@ {
        AgentIdV::User
    } else if s == "assistant"@ {
        AgentIdV::Assistant
    } else if s == "llama"@ {
        AgentIdV::Llama
    } else if s == "system"@ {
        AgentIdV::System
    } else if starts_with(s, "module:"@) {
        AgentIdV::Module(s.subrange("module:"@.len() as int, s.len() as int))
    } else {
        AgentIdV::User
    }
}

pub fn parse_agent_id(s: &str) -> (r: AgentId)
    ensures
        r@ == spec_parse_agent_id(s@),
{
    proof {
        reveal_strlit("user");
        reveal_strlit("assistant");
        reveal_strlit("llama");
        reveal_strlit("system");
        reveal_strlit("module:");
    }
    if str_eq(s, "user") {
        AgentId::User
    } else if str_eq(s, "assistant") {
        AgentId::Assistant
    } else if str_eq(s, "llama") {
        AgentId::Llama
    } else if str_eq(s, "system") {
        AgentId::System
    } else if str_starts_with(s, "module:") {
        let rest = str_suffix(s, 7);
        AgentId::Module(rest)
    } else {
        AgentId::User
    }
}

/// Whether `c` has the Unicode White_Space property: the set of
/// characters that trimming removes.
pub open spec fn is_space(c: char) -> bool {
    ||| '\u{0009}' <= c <= '\u{000D}'
    ||| c == ' '
    ||| c == '\u{0085}'
    ||| c == '\u{00A0}'
    ||| c == '\u{1680}'
    ||| '\u{2000}' <= c <= '\u{200A}'
    ||| c == '\u{2028}'
    ||| c == '\u{2029}'
    ||| c == '\u{202F}'
    ||| c == '\u{205F}'
    ||| c == '\u{3000}'
}

/// `s` with its leading whitespace removed.
pub open spec fn trim_front(s: Seq<char>) -> Seq<char>
    decreases s.len(),
{
    if s.len() > 0 && is_space(s[0]) {
        trim_front(s.drop_first())
    } else {
        s
    }
}

/// `s` with its trailing whitespace removed.
pub open spec fn trim_back(s: Seq<char>) -> Seq<char>
    decreases s.len(),
{
    if s.len() > 0 && is_space(s.last()) {
        trim_back(s.drop_last())
    } else {
        s
    }
}

/// `s` with leading and trailing whitespace removed.
pub open spec fn trimmed(s: Seq<char>) -> Seq<char> {
    trim_back(trim_front(s))
}

/// If the first `k` characters are whitespace and the `k`-th is not (or
/// the string ends there), front-trimming drops exactly those `k`.
proof fn lemma_trim_front_range(s: Seq<char>, k: int)
    requires
        0 <= k <= s.len(),
        forall|j: int| 0 <= j < k ==> is_space(s[j]),
        k < s.len() ==> !is_space(s[k]),
    ensures
        trim_front(s) =~= s.subrange(k, s.len() as int),
    decreases k,
{
    if k == 0 {
        assert(s.subrange(0, s.len() as int) =~= s);
    } else {
        let t = s.drop_first();
        assert(forall|j: int| 0 <= j < k - 1 ==> t[j] == s[j + 1]);
        lemma_trim_front_range(t, k - 1);
        assert(t.subrange(k - 1, t.len() as int) =~= s.subrange(k, s.len() as int));
    }
}

/// If every character from position `k` on is whitespace and the one
/// before is not (or the string starts there), back-trimming keeps
/// exactly the first `k`.
proof fn lemma_trim_back_range(s: Seq<char>, k: int)
    requires
        0 <= k <= s.len(),
        forall|j: int| k <= j < s.len() ==> is_space(s[j]),
        k > 0 ==> !is_space(s[k - 1]),
    ensures
        trim_back(s) =~= s.subrange(0, k),
    decreases s.len(),
{
    if k == s.len() {
        assert(s.subrange(0, k) =~= s);
    } else {
        assert(is_space(s.last()));
        lemma_trim_back_range(s.drop_last(), k);
        assert(s.drop_last().subrange(0, k) =~= s.subrange(0, k));
    }
}

/// Exec mirror of [`is_space`].
fn is_space_char(c: char) -> (r: bool)
    ensures
        r == is_space(c),
{
    ('\u{0009}' <= c && c <= '\u{000D}') || c == ' ' || c == '\u{0085}' || c == '\u{00A0}'
        || c == '\u{1680}' || ('\u{2000}' <= c && c <= '\u{200A}') || c == '\u{2028}'
        || c == '\u{2029}' || c == '\u{202F}' || c == '\u{205F}' || c == '\u{3000}'
}

/// The input with leading and trailing whitespace removed, as an owned
/// string.
#[verifier::loop_isolation(false)]
pub fn str_trim(s: &str) -> (r: String)
    ensures
        r@ == trimmed(s@),
{
    let n = s.unicode_len();
    let mut start: usize = 0;
    while start < n && is_space_char(s.get_char(start))
        invariant
            n == s@.len(),
            start <= n,
            forall|j: int| 0 <= j < start ==> is_space(s@[j]),
        decreases n - start,
    {
        start = start + 1;
    }
    proof {
        lemma_trim_front_range(s@, start as int);
    }
    let mut end: usize = n;
    while end > start && is_space_char(s.get_char(end - 1))
        invariant
            n == s@.len(),
            start <= end <= n,
            forall|j: int| end <= j < n ==> is_space(s@[j]),
        decreases end,
    {
        end = end - 1;
    }
    proof {
        let ghost front = s@.subrange(start as int, n as int);
        assert(forall|j: int|
            end - start <= j < front.len() ==> front[j] == s@[j + start] && is_space(front[j]));
        assert(end > start ==> front[end - start - 1] == s@[end - 1]);
        lemma_trim_back_range(front, end - start);
        assert(front.subrange(0, end - start) =~= s@.subrange(start as int, end as int));
    }
    let part = s.substring_char(start, end);
    part.to_owned()
}

/// The seconds-per-unit multiplier named by the last character of a
/// trimmed duration spelling; a bare number counts as days.
pub open spec fn duration_unit(t: Seq<char>) -> int {
    if t.len() == 0 {
        86400
    } else if t.last() == 'd' {
        86400
    } else if t.last() == 'h' {
        3600
    } else if t.last() == 'm' {
        60
    } else if t.last() == 's' {
        1
    } else {
        86400
    }
}

/// The numeric part of a trimmed duration spelling: everything before a
/// trailing unit letter, including an optional sign.
pub open spec fn duration_num(t: Seq<char>) -> Seq<char> {
    if t.len() > 0 && (t.last() == 'd' || t.last() == 'h' || t.last() == 'm' || t.last() == 's') {
        t.drop_last()
    } else {
        t
    }
}

/// The magnitude part of a signed number: the digits after an optional
/// leading `+` or `-`.
pub open spec fn num_body(p: Seq<char>) -> Seq<char> {
    if p.len() > 0 && (p[0] == '-' || p[0] == '+') {
        p.subrange(1, p.len() as int)
    } else {
        p
    }
}

/// Whether a signed number carries a leading `-`.
pub open spec fn num_negative(p: Seq<char>) -> bool {
    p.len() > 0 && p[0] == '-'
}

/// Whether `p` spells an `i64`: an optional sign, then at least one
/// digit, with the value in the `i64` range.
pub open spec fn num_valid_i64(p: Seq<char>) -> bool {
    &&& num_body(p).len() > 0
    &&& all_digits(num_body(p))
    &&& if num_negative(p) {
        dec_value(num_body(p)) <= (i64::MAX as int) + 1
    } else {
        dec_value(num_body(p)) <= i64::MAX as int
    }
}

/// The value `p` spells (meaningful only when `num_valid_i64`).
pub open spec fn num_value(p: Seq<char>) -> int {
    if num_negative(p) {
        -dec_value(num_body(p))
    } else {
        dec_value(num_body(p))
    }
}

/// Whether a duration spelling is well-formed once trimmed: a number
/// that fits an `i64`, optionally followed by one unit letter.
pub open spec fn duration_valid(s: Seq<char>) -> bool {
    num_valid_i64(duration_num(trimmed(s)))
}

/// The number of seconds a well-formed duration spelling denotes.
pub open spec fn duration_secs(s: Seq<char>) -> int {
    num_value(duration_num(trimmed(s))) * duration_unit(trimmed(s))
}

/// Parses a duration spelling such as `7d`, `12h`, `30m`, `45s` or `-2d`
/// (a bare number counts as days) into seconds. The input is trimmed
/// first; the number may carry a sign and must fit an `i64`. Returns
/// `None` for a malformed spelling and for a seconds value outside the
/// `i64` range (rather than failing on it).
pub fn parse_duration(s: &str) -> (r: Option<i64>)
    ensures
        r is Some <==> duration_valid(s@) && i64::MIN <= duration_secs(s@) <= i64::MAX,
        r is Some ==> r->0 == duration_secs(s@),
{
    let t = str_trim(s);
    let ghost tv = trimmed(s@);
    let n = t.as_str().unicode_len();
    if n == 0 {
        return None;
    }
    let last = t.as_str().get_char(n - 1);
    let has_unit = last == 'd' || last == 'h' || last == 'm' || last == 's';
    let mult: u64 = if has_unit {
        if last == 'd' {
            86400
        } else if last == 'h' {
            3600
        } else if last == 'm' {
            60
        } else {
            1
        }
    } else {
        86400
    };
    proof {
        assert(mult == duration_unit(tv));
    }
    let nump: String = if has_unit {
        let head = t.as_str().substring_char(0, n - 1);
        head.to_owned()
    } else {
        t
    };
    proof {
        assert(nump@ =~= duration_num(tv));
    }
    let m = nump.as_str().unicode_len();
    if m == 0 {
        return None;
    }
    let first = nump.as_str().get_char(0);
    let negative = first == '-';
    let signed = negative || first == '+';
    let body: String = if signed {
        str_suffix(nump.as_str(), 1)
    } else {
        nump
    };
    proof {
        assert(body@ =~= num_body(duration_num(tv)));
    }
    let parsed = parse_u64(body.as_str());
    match parsed {
        None => {
            proof {
                if num_valid_i64(duration_num(tv)) {
                    assert(dec_value(num_body(duration_num(tv))) <= (i64::MAX as int) + 1);
                    assert((i64::MAX as int) + 1 <= u64::MAX as int);
                }
            }
            None
        },
        Some(v) => {
            proof {
                assert(v == dec_value(num_body(duration_num(tv))));
                assert(num_negative(duration_num(tv)) == negative);
                assert(0 <= (v as int) * (mult as int) <= i128::MAX) by (nonlinear_arith)
                    requires
                        1 <= mult <= 86400,
                        0 <= v <= u64::MAX,
                ;
            }
            if negative {
                let bound: u64 = (i64::MAX as u64) + 1;
                if v > bound {
                    return None;
                }
                let secs: i128 = -((v as i128) * (mult as i128));
                proof {
                    assert(duration_secs(s@) == -(v as int) * (mult as int));
                    assert(-(v as int) * (mult as int) == -((v as int) * (mult as int)))
                        by (nonlinear_arith);
                    assert(secs == duration_secs(s@));
                }
                if secs < (i64::MIN as i128) {
                    proof {
                        assert(duration_secs(s@) < i64::MIN);
                    }
                    None
                } else {
                    proof {
                        assert(secs <= 0);
                    }
                    Some(secs as i64)
                }
            } else {
                if v > i64::MAX as u64 {
                    return None;
                }
                let secs: i128 = (v as i128) * (mult as i128);
                proof {
                    assert(duration_secs(s@) == (v as int) * (mult as int));
                    assert(secs == duration_secs(s@));
                }
                if secs > (i64::MAX as i128) {
                    proof {
                        assert(duration_secs(s@) > i64::MAX);
                    }
                    None
                } else {
                    proof {
                        assert(secs >= 0);
                    }
                    Some(secs as i64)
                }
            }
        },
    }
}

/// Parses a proposal target spelling: `node:<id>`, `edge:<id>`, or
/// `new:<kind>` for a node not created yet. An id that does not parse is
/// carried as absent, matching a target that declares rather than names;
/// an unknown kind after `new:` is rejected.
pub fn parse_proposal_target(s: &str) -> (r: Option<ProposalTarget>)
    ensures
        starts_with(s@, "node:"@) ==> r == Some(
            ProposalTarget::Node {
                id: spec_parsed_u64(s@.subrange("node:"@.len() as int, s@.len() as int)),
                kind: None,
            },
        ),
        !starts_with(s@, "node:"@) && starts_with(s@, "edge:"@) ==> r == Some(
            ProposalTarget::Edge {
                id: spec_parsed_u64(s@.subrange("edge:"@.len() as int, s@.len() as int)),
                from: None,
                to: None,
            },
        ),
        !starts_with(s@, "node:"@) && !starts_with(s@, "edge:"@) && starts_with(s@, "new:"@)
            ==> r == match spec_parse_node_kind(
            s@.subrange("new:"@.len() as int, s@.len() as int),
        ) {
            Some(k) => Some(ProposalTarget::Node { id: None, kind: Some(k) }),
            None => None::<ProposalTarget>,
        },
        !starts_with(s@, "node:"@) && !starts_with(s@, "edge:"@) && !starts_with(s@, "new:"@)
            ==> r is None,
{
    proof {
        reveal_strlit("node:");
        reveal_strlit("edge:");
        reveal_strlit("new:");
    }
    if str_starts_with(s, "node:") {
        let rest = str_suffix(s, 5);
        let id = parse_u64(rest.as_str());
        Some(ProposalTarget::Node { id, kind: None })
    } else if str_starts_with(s, "edge:") {
        let rest = str_suffix(s, 5);
        let id = parse_u64(rest.as_str());
        Some(ProposalTarget::Edge { id, from: None, to: None })
    } else if str_starts_with(s, "new:") {
        let rest = str_suffix(s, 4);
        match parse_node_kind(rest.as_str()) {
            Some(k) => Some(ProposalTarget::Node { id: None, kind: Some(k) }),
            None => None,
        }
    } else {
        None
    }
}

} // verus!
