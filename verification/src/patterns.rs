//! Regular-expression matching, from the `regex` crate.
//!
//! What an arbitrary pattern matches takes pages to state, so the results of
//! matching one have names here, and contracts elsewhere speak of those names.
//! What the library's own patterns match is stated in full.

use regex::Regex;
use vstd::prelude::*;

use crate::numerals::all_digits;
use crate::text::{
    begins_with, first_index, is_white, law_trimming_the_start, lemma_first_index, trimmed_start,
};

verus! {

/// The error of the `regex` crate, carried without looking inside.
#[verifier::external_type_specification]
#[verifier::external_body]
pub struct ExRegexError(regex::Error);

/// Whether `Regex::new` accepts the pattern.
pub uninterp spec fn regex_compiles(pattern: Seq<char>) -> bool;

/// Whether the pattern compiles and `Regex::is_match` finds it in the text.
pub uninterp spec fn regex_matches(pattern: Seq<char>, text: Seq<char>) -> bool;

/// The pattern of the identifiers of managed IOThreads.
pub const MANAGED_ID: &'static str = "^iot[0-9]+$";

/// The pattern of a metrics line that describes an IOThread.
pub const IOTHREAD_INFO: &'static str = "^qemu_iothread_info\\{([^}]*)\\}\\s+([0-9.eE+\\-]+)";

/// The pattern of a metrics line that describes a virtio-scsi device.
pub const SCSI_NUM_QUEUES: &'static str =
    "^qemu_virtio_scsi_num_queues\\{([^}]*)\\}\\s+([0-9.eE+\\-]+)";

/// Whether a text is `iot` and at least one decimal digit, and no more.
pub open spec fn is_managed_id(id: Seq<char>) -> bool {
    &&& id.len() > 3
    &&& id.take(3) == "iot"@
    &&& all_digits(id.skip(3))
}

/// Whether a character can stand in a metrics value.
pub open spec fn is_value_char(c: char) -> bool {
    '0' <= c <= '9' || c == '.' || c == 'e' || c == 'E' || c == '+' || c == '-'
}

/// The longest run of value characters at the front of `s`.
pub open spec fn value_run(s: Seq<char>) -> Seq<char>
    decreases s.len(),
{
    if s.len() > 0 && is_value_char(s[0]) {
        seq![s[0]] + value_run(s.drop_first())
    } else {
        seq![]
    }
}

/// The label list and the value of a metrics line, if the line begins with the
/// metric's name, a label list in braces, white space and a value.
pub open spec fn metric_groups(name: Seq<char>, line: Seq<char>) -> Option<(Seq<char>, Seq<char>)> {
    let opening = name + "{"@;
    let rest = line.skip(opening.len() as int);
    let close = first_index(rest, '}');
    let after = rest.skip(close + 1);
    let value = value_run(trimmed_start(after));
    if begins_with(line, opening) && close < rest.len() && trimmed_start(after) != after
        && value.len() > 0 {
        Some((rest.take(close), value))
    } else {
        None
    }
}

/// Calls `Regex::new`. Claims only that success depends on the pattern alone.
#[verifier::external_body]
pub(crate) fn compile_pattern(pattern: &str) -> (r: Result<(), regex::Error>)
    ensures
        r is Ok == regex_compiles(pattern@),
{
    Regex::new(pattern).map(|_| ())
}

/// Calls `Regex::is_match` on a freshly compiled pattern. Claims that the result
/// depends on the pattern and the text alone, that no text matches a pattern that
/// does not compile, and what the pattern `^iot[0-9]+$` matches: anchored at both
/// ends of the text, the three letters and ASCII digits.
#[verifier::external_body]
pub(crate) fn pattern_matches(pattern: &str, text: &str) -> (r: bool)
    ensures
        r == regex_matches(pattern@, text@),
        r ==> regex_compiles(pattern@),
        pattern@ == MANAGED_ID@ ==> r == is_managed_id(text@),
{
    Regex::new(pattern).map_or(false, |re| re.is_match(text))
}

/// Calls `Regex::captures` on one of the two metrics patterns and hands out the
/// groups 1 and 2. Claims what these patterns capture: anchored at the start of
/// the text, the metric's name and `{`; group 1, everything up to the first `}`;
/// at least one white-space character, and then all that follow; group 2, the
/// run of value characters after them.
#[verifier::external_body]
pub(crate) fn metric_captures(pattern: &str, text: &str) -> (r: Option<(String, String)>)
    requires
        pattern@ == IOTHREAD_INFO@ || pattern@ == SCSI_NUM_QUEUES@,
    ensures
        pattern@ == IOTHREAD_INFO@ ==> captured(r) == metric_groups("qemu_iothread_info"@, text@),
        pattern@ == SCSI_NUM_QUEUES@ ==> captured(r) == metric_groups(
            "qemu_virtio_scsi_num_queues"@,
            text@,
        ),
{
    let found = Regex::new(pattern).ok()?;
    let groups = found.captures(text)?;
    let first = groups.get(1).map_or("", |m| m.as_str()).to_string();
    let second = groups.get(2).map_or("", |m| m.as_str()).to_string();
    Some((first, second))
}

/// The texts of a pair of captured groups.
pub open spec fn captured(groups: Option<(String, String)>) -> Option<(Seq<char>, Seq<char>)> {
    match groups {
        Some(g) => Some((g.0@, g.1@)),
        None => None,
    }
}

/// A metrics line is taken apart into what it was put together from: the metric's name, its label
/// list in braces, white space and its value.
pub proof fn law_metric_lines_are_taken_apart(
    name: Seq<char>,
    labels: Seq<char>,
    gap: Seq<char>,
    value: Seq<char>,
    line: Seq<char>,
)
    requires
        forall|i: int| 0 <= i < labels.len() ==> #[trigger] labels[i] != '}',
        gap.len() > 0,
        forall|i: int| 0 <= i < gap.len() ==> is_white(#[trigger] gap[i]),
        value.len() > 0,
        forall|i: int| 0 <= i < value.len() ==> is_value_char(#[trigger] value[i]),
        line == name + "{"@ + labels + seq!['}'] + gap + value,
    ensures
        metric_groups(name, line) == Some((labels, value)),
{
    reveal_strlit("{");
    let opening = name + "{"@;
    let n = opening.len() as int;
    let k = labels.len() as int;
    let rest = line.skip(n);
    assert(line.subrange(0, n) =~= opening);
    assert(rest =~= labels + seq!['}'] + gap + value);
    assert forall|j: int| 0 <= j < k implies rest[j] != '}' by {
        assert(rest[j] == labels[j]);
    }
    assert(rest[k] == '}');
    lemma_first_index(rest, '}', k);
    assert(rest.take(k) =~= labels);
    let after = rest.skip(k + 1);
    assert(after =~= gap + value);
    let cut = law_trimming_the_start(after);
    let g = gap.len() as int;
    assert(after[g] == value[0]);
    assert(is_value_char(value[0]));
    assert(!is_white(after[g]));
    assert(cut <= g);
    if cut < g {
        assert(after[cut] == gap[cut]);
    }
    assert(after.skip(g) =~= value);
    lemma_value_run(value);
    assert(trimmed_start(after).len() != after.len());
}

proof fn lemma_value_run(value: Seq<char>)
    requires
        forall|i: int| 0 <= i < value.len() ==> is_value_char(#[trigger] value[i]),
    ensures
        value_run(value) == value,
    decreases value.len(),
{
    if value.len() > 0 {
        let rest = value.drop_first();
        assert forall|i: int| 0 <= i < rest.len() implies is_value_char(#[trigger] rest[i]) by {
            assert(rest[i] == value[i + 1]);
        }
        lemma_value_run(rest);
        assert(is_value_char(value[0]));
        assert(seq![value[0]] + rest =~= value);
    }
}

} // verus!
