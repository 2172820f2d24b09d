//! Filtering of a metrics exposition, line by line.
//!
//! An exposition is a sequence of groups, one per metric family, that blank
//! lines separate. A group opens with a `# TYPE` line that names the family;
//! the filter keeps the groups whose family name starts with one of a set of
//! prefixes, whole, and drops the others, whole.

use vstd::prelude::*;
use vstd::string::StringExecFns;

verus! {

/// The group that the filter is reading.
#[derive(Debug, PartialEq, Eq)]
pub enum MetricGroup {
    /// The group is kept; the lines read so far.
    Matching(Vec<String>),
    /// Nothing decided yet; the lines read so far.
    MaybeMatching(Vec<String>),
    /// The group is dropped.
    NotMatching,
}

/// A `MetricGroup` with its lines as sequences of characters.
pub enum GroupModel {
    Matching(Seq<Seq<char>>),
    MaybeMatching(Seq<Seq<char>>),
    NotMatching,
}

/// The lines held in `items`, as sequences of characters.
pub open spec fn lines_of(items: Vec<String>) -> Seq<Seq<char>> {
    items@.map_values(|s: String| s@)
}

impl View for MetricGroup {
    type V = GroupModel;

    open spec fn view(&self) -> GroupModel {
        match self {
            MetricGroup::Matching(items) => GroupModel::Matching(lines_of(*items)),
            MetricGroup::MaybeMatching(items) => GroupModel::MaybeMatching(lines_of(*items)),
            MetricGroup::NotMatching => GroupModel::NotMatching,
        }
    }
}

/// The group after one more line. `is_match` says whether the line decides
/// that the group is kept (`Some(true)`), that it is dropped (`Some(false)`),
/// or decides nothing.
pub open spec fn spec_on_next_line(group: GroupModel, line: Seq<char>, is_match: Option<bool>)
    -> GroupModel {
    match group {
        GroupModel::Matching(lines) => GroupModel::Matching(lines.push(line)),
        GroupModel::MaybeMatching(lines) => match is_match {
            Some(true) => GroupModel::Matching(lines.push(line)),
            Some(false) => GroupModel::NotMatching,
            None => GroupModel::MaybeMatching(lines.push(line)),
        },
        GroupModel::NotMatching => GroupModel::NotMatching,
    }
}

/// Every line of `lines` followed by a line feed, one after the other.
pub open spec fn joined(lines: Seq<Seq<char>>) -> Seq<char>
    decreases lines.len(),
{
    if lines.len() == 0 {
        Seq::empty()
    } else {
        joined(lines.drop_last()) + lines.last().push('\n')
    }
}

/// The output after a group has ended: a kept group is appended, after one
/// empty line where the output already holds a group; any other group leaves
/// the output as it is.
pub open spec fn spec_flush(group: GroupModel, buffer: Seq<char>) -> Seq<char> {
    match group {
        GroupModel::Matching(lines) => {
            if buffer.len() > 0 {
                buffer.push('\n') + joined(lines)
            } else {
                joined(lines)
            }
        },
        _ => buffer,
    }
}

impl MetricGroup {
    /// Takes the next line of the group.
    pub fn on_next_line(self, line: &str, is_match: Option<bool>) -> (r: Self)
        ensures
            r@ == spec_on_next_line(self@, line@, is_match),
    {
        match self {
            MetricGroup::Matching(mut items) => {
                let ghost before = lines_of(items);
                items.push(line.to_owned());
                assert(lines_of(items) =~= before.push(line@));
                MetricGroup::Matching(items)
            },
            MetricGroup::MaybeMatching(mut items) => match is_match {
                Some(true) => {
                    let ghost before = lines_of(items);
                    items.push(line.to_owned());
                    assert(lines_of(items) =~= before.push(line@));
                    MetricGroup::Matching(items)
                },
                Some(false) => MetricGroup::NotMatching,
                None => {
                    let ghost before = lines_of(items);
                    items.push(line.to_owned());
                    assert(lines_of(items) =~= before.push(line@));
                    MetricGroup::MaybeMatching(items)
                },
            },
            MetricGroup::NotMatching => MetricGroup::NotMatching,
        }
    }

    /// Ends the group: writes it to `buffer` if it is kept, and starts a new
    /// group about which nothing is decided.
    pub fn on_group_end(self, buffer: &mut String) -> (r: Self)
        ensures
            final(buffer)@ == spec_flush(self@, old(buffer)@),
            r@ == GroupModel::MaybeMatching(Seq::empty()),
    {
        match self {
            MetricGroup::Matching(items) => {
                proof {
                    reveal_strlit("\n");
                }
                if !buffer.as_str().is_empty() {
                    buffer.append("\n");
                }
                assert("\n"@ =~= seq!['\n']);
                let ghost base = buffer@;
                let ghost lines = lines_of(items);
                let mut i: usize = 0;
                while i < items.len()
                    invariant
                        i <= items.len(),
                        lines == lines_of(items),
                        buffer@ == base + joined(lines.take(i as int)),
                        "\n"@ == seq!['\n'],
                    decreases items.len() - i,
                {
                    let ghost so_far = buffer@;
                    buffer.append(items[i].as_str());
                    buffer.append("\n");
                    proof {
                        let next = lines.take(i + 1);
                        assert(next.drop_last() =~= lines.take(i as int));
                        assert(next.last() == lines[i as int]);
                        assert(buffer@ =~= so_far + lines[i as int].push('\n'));
                        assert(buffer@ =~= base + joined(next));
                    }
                    i += 1;
                }
                assert(lines.take(items.len() as int) =~= lines);
                assert(base =~= if old(buffer)@.len() > 0 {
                    old(buffer)@.push('\n')
                } else {
                    old(buffer)@
                });
                assert(buffer@ =~= spec_flush(self@, old(buffer)@));
            },
            MetricGroup::MaybeMatching(_) | MetricGroup::NotMatching => {},
        }
        let items: Vec<String> = Vec::new();
        assert(lines_of(items) =~= Seq::<Seq<char>>::empty());
        MetricGroup::MaybeMatching(items)
    }
}

/// Whether `c` is white space: one of the characters with the Unicode
/// property White_Space.
pub open spec fn is_whitespace(c: char) -> bool {
    let n = c as u32;
    ||| 0x09 <= n <= 0x0d
    ||| n == 0x20
    ||| n == 0x85
    ||| n == 0xa0
    ||| n == 0x1680
    ||| 0x2000 <= n <= 0x200a
    ||| n == 0x2028
    ||| n == 0x2029
    ||| n == 0x202f
    ||| n == 0x205f
    ||| n == 0x3000
}

/// Whether `c` is white space.
fn char_is_whitespace(c: char) -> (r: bool)
    ensures
        r == is_whitespace(c),
{
    let n = c as u32;
    (0x09 <= n && n <= 0x0d) || n == 0x20 || n == 0x85 || n == 0xa0 || n == 0x1680 || (0x2000 <= n
        && n <= 0x200a) || n == 0x2028 || n == 0x2029 || n == 0x202f || n == 0x205f || n
        == 0x3000
}

/// Calls `String::from_iter` on the characters of `chars`: the string that
/// consists of exactly these characters, in this order.
#[verifier::external_body]
fn string_of(chars: &Vec<char>) -> (r: String)
    ensures
        r@ == chars@,
{
    String::from_iter(chars.iter())
}

/// The end of the line that starts at `from`: the position of the next line
/// feed, or the end of `s`.
pub open spec fn line_end(s: Seq<char>, from: int) -> int
    decreases s.len() - from,
{
    if from < 0 || from >= s.len() || s[from] == '\n' {
        from
    } else {
        line_end(s, from + 1)
    }
}

/// `line` without one carriage return at its end.
pub open spec fn strip_cr(line: Seq<char>) -> Seq<char> {
    if line.len() > 0 && line.last() == '\r' {
        line.drop_last()
    } else {
        line
    }
}

/// The lines of `s` from position `from` on. A line ends with a line feed, or
/// with a carriage return and a line feed, neither of which belongs to the
/// line; the last line may end with the text.
pub open spec fn lines_from(s: Seq<char>, from: int) -> Seq<Seq<char>>
    decreases s.len() - from,
{
    if from < 0 || from >= s.len() {
        Seq::empty()
    } else {
        let end = line_end(s, from);
        if end >= s.len() {
            seq![s.subrange(from, s.len() as int)]
        } else {
            proof {
                lemma_line_end_bounds(s, from);
            }
            seq![strip_cr(s.subrange(from, end))] + lines_from(s, end + 1)
        }
    }
}

/// The lines of `s`.
pub open spec fn spec_lines(s: Seq<char>) -> Seq<Seq<char>> {
    lines_from(s, 0)
}

/// A line ends at or after its start, and within the text.
pub proof fn lemma_line_end_bounds(s: Seq<char>, from: int)
    requires
        0 <= from <= s.len(),
    ensures
        from <= line_end(s, from) <= s.len(),
        line_end(s, from) < s.len() ==> s[line_end(s, from)] == '\n',
        forall|i: int| from <= i < line_end(s, from) ==> s[i] != '\n',
    decreases s.len() - from,
{
    if from < s.len() && s[from] != '\n' {
        lemma_line_end_bounds(s, from + 1);
    }
}

/// The line opens a group: it starts with `# TYPE` and a space.
pub open spec fn is_type_line(line: Seq<char>) -> bool {
    "# TYPE "@.is_prefix_of(line)
}

/// The line holds nothing but white space.
pub open spec fn is_blank(line: Seq<char>) -> bool {
    forall|i: int| 0 <= i < line.len() ==> is_whitespace(#[trigger] line[i])
}

/// The first position at or after `from` that holds no white space, or the
/// end of the line.
pub open spec fn skip_whitespace(line: Seq<char>, from: int) -> int
    decreases line.len() - from,
{
    if from < 0 || from >= line.len() || !is_whitespace(line[from]) {
        from
    } else {
        skip_whitespace(line, from + 1)
    }
}

/// The first position at or after `from` that holds white space, or the end
/// of the line.
pub open spec fn skip_token(line: Seq<char>, from: int) -> int
    decreases line.len() - from,
{
    if from < 0 || from >= line.len() || is_whitespace(line[from]) {
        from
    } else {
        skip_token(line, from + 1)
    }
}

/// Where the token with number `k` starts, counting from 0; the end of the
/// line where it has fewer tokens. A token is a longest run of characters
/// that are no white space.
pub open spec fn token_start(line: Seq<char>, k: nat) -> int
    decreases k,
{
    if k == 0 {
        skip_whitespace(line, 0)
    } else {
        skip_whitespace(line, skip_token(line, token_start(line, (k - 1) as nat)))
    }
}

/// The token with number `k`, counting from 0.
pub open spec fn nth_token(line: Seq<char>, k: nat) -> Option<Seq<char>> {
    let start = token_start(line, k);
    if 0 <= start < line.len() {
        Some(line.subrange(start, skip_token(line, start)))
    } else {
        None
    }
}

/// The prefixes as sequences of characters.
pub open spec fn prefixes_of(prefixes: Seq<&str>) -> Seq<Seq<char>> {
    prefixes.map_values(|p: &str| p@)
}

/// `name` starts with one of `prefixes`.
pub open spec fn matches_any(name: Seq<char>, prefixes: Seq<Seq<char>>) -> bool {
    exists|i: int| 0 <= i < prefixes.len() && (#[trigger] prefixes[i]).is_prefix_of(name)
}

/// What a line that opens a group decides: the family name is its third
/// token; the group is kept if the name starts with one of `prefixes`, and
/// dropped if not. Without a third token the line decides nothing.
pub open spec fn type_line_decides(line: Seq<char>, prefixes: Seq<Seq<char>>) -> Option<bool> {
    match nth_token(line, 2) {
        Some(name) => Some(matches_any(name, prefixes)),
        None => None,
    }
}

/// The group and the output after one more line of the exposition.
pub open spec fn spec_step(
    group: GroupModel,
    buffer: Seq<char>,
    line: Seq<char>,
    prefixes: Seq<Seq<char>>,
) -> (GroupModel, Seq<char>) {
    if is_type_line(line) {
        (spec_on_next_line(group, line, type_line_decides(line, prefixes)), buffer)
    } else if is_blank(line) {
        (GroupModel::MaybeMatching(Seq::empty()), spec_flush(group, buffer))
    } else {
        (spec_on_next_line(group, line, None), buffer)
    }
}

/// The output after the lines `lines`, taken in order.
pub open spec fn spec_process(
    group: GroupModel,
    buffer: Seq<char>,
    lines: Seq<Seq<char>>,
    prefixes: Seq<Seq<char>>,
) -> Seq<char>
    decreases lines.len(),
{
    if lines.len() == 0 {
        buffer
    } else {
        let next = spec_step(group, buffer, lines[0], prefixes);
        spec_process(next.0, next.1, lines.drop_first(), prefixes)
    }
}

/// The exposition `input` with only the groups whose family name starts with
/// one of `prefixes`. Nothing is decided of the group that opens the
/// exposition until its type line is read. A group is written when the
/// empty line after it is read.
pub open spec fn spec_filter_metrics(input: Seq<char>, prefixes: Seq<Seq<char>>) -> Seq<char> {
    spec_process(GroupModel::MaybeMatching(Seq::empty()), Seq::empty(), spec_lines(input), prefixes)
}

/// The prefix of the metric families of the services.
pub open spec fn service_prefixes() -> Seq<Seq<char>> {
    seq!["restate_services_"@]
}

/// The characters of `s`.
fn to_chars(s: &str) -> (r: Vec<char>)
    ensures
        r@ == s@,
{
    let mut chars: Vec<char> = Vec::new();
    for c in it: s.chars()
        invariant
            it.seq() == s@,
            chars@ == it.seq().take(it.index()),
    {
        chars.push(c);
        assert(chars@ =~= it.seq().take(it.index() + 1));
    }
    assert(chars@ =~= s@);
    chars
}

/// Whether `text[from..to]` starts with `prefix`.
fn starts_with(text: &Vec<char>, from: usize, to: usize, prefix: &Vec<char>) -> (r: bool)
    requires
        from <= to <= text.len(),
    ensures
        r == prefix@.is_prefix_of(text@.subrange(from as int, to as int)),
{
    let ghost part = text@.subrange(from as int, to as int);
    if prefix.len() > to - from {
        return false;
    }
    let mut i: usize = 0;
    while i < prefix.len()
        invariant
            i <= prefix.len() <= to - from,
            from <= to <= text.len(),
            part == text@.subrange(from as int, to as int),
            forall|k: int| 0 <= k < i ==> prefix@[k] == part[k],
        decreases prefix.len() - i,
    {
        if prefix[i] != text[from + i] {
            assert(part.subrange(0, prefix@.len() as int)[i as int] == part[i as int]);
            return false;
        }
        i += 1;
    }
    assert(prefix@ =~= part.subrange(0, prefix@.len() as int));
    true
}

/// Whether the line holds nothing but white space.
fn line_is_blank(line: &Vec<char>) -> (r: bool)
    ensures
        r == is_blank(line@),
{
    let mut i: usize = 0;
    while i < line.len()
        invariant
            i <= line.len(),
            forall|k: int| 0 <= k < i ==> is_whitespace(#[trigger] line@[k]),
        decreases line.len() - i,
    {
        if !char_is_whitespace(line[i]) {
            return false;
        }
        i += 1;
    }
    true
}

/// The first position at or after `from` that holds no white space.
fn scan_whitespace(line: &Vec<char>, from: usize) -> (r: usize)
    requires
        from <= line.len(),
    ensures
        r == skip_whitespace(line@, from as int),
        from <= r <= line.len(),
{
    let mut i: usize = from;
    while i < line.len() && char_is_whitespace(line[i])
        invariant
            from <= i <= line.len(),
            skip_whitespace(line@, from as int) == skip_whitespace(line@, i as int),
        decreases line.len() - i,
    {
        i += 1;
    }
    i
}

/// The first position at or after `from` that holds white space.
fn scan_token(line: &Vec<char>, from: usize) -> (r: usize)
    requires
        from <= line.len(),
    ensures
        r == skip_token(line@, from as int),
        from <= r <= line.len(),
{
    let mut i: usize = from;
    while i < line.len() && !char_is_whitespace(line[i])
        invariant
            from <= i <= line.len(),
            skip_token(line@, from as int) == skip_token(line@, i as int),
        decreases line.len() - i,
    {
        i += 1;
    }
    i
}

/// Where the third token of the line starts and ends, if it has one.
fn third_token(line: &Vec<char>) -> (r: Option<(usize, usize)>)
    ensures
        match r {
            Some((start, end)) => start <= end <= line.len() && nth_token(line@, 2) == Some(
                line@.subrange(start as int, end as int),
            ),
            None => nth_token(line@, 2) is None,
        },
{
    let first = scan_whitespace(line, 0);
    let after_first = scan_token(line, first);
    let second = scan_whitespace(line, after_first);
    let after_second = scan_token(line, second);
    let third = scan_whitespace(line, after_second);
    proof {
        reveal_with_fuel(token_start, 3);
        assert(first == token_start(line@, 0));
        assert(second == token_start(line@, 1));
        assert(third == token_start(line@, 2));
    }
    if third < line.len() {
        let end = scan_token(line, third);
        Some((third, end))
    } else {
        None
    }
}

/// Whether `name[from..to]` starts with one of `prefixes`.
fn starts_with_any(name: &Vec<char>, from: usize, to: usize, prefixes: &[&str]) -> (r: bool)
    requires
        from <= to <= name.len(),
    ensures
        r == matches_any(name@.subrange(from as int, to as int), prefixes_of(prefixes@)),
{
    let ghost part = name@.subrange(from as int, to as int);
    let ghost wanted = prefixes_of(prefixes@);
    let mut i: usize = 0;
    while i < prefixes.len()
        invariant
            i <= prefixes.len(),
            from <= to <= name.len(),
            part == name@.subrange(from as int, to as int),
            wanted == prefixes_of(prefixes@),
            forall|k: int| 0 <= k < i ==> !(#[trigger] wanted[k]).is_prefix_of(part),
        decreases prefixes.len() - i,
    {
        let prefix = to_chars(prefixes[i]);
        assert(prefix@ == wanted[i as int]);
        if starts_with(name, from, to, &prefix) {
            return true;
        }
        i += 1;
    }
    false
}

/// What a line that opens a group decides.
fn decide(line: &Vec<char>, prefixes: &[&str]) -> (r: Option<bool>)
    ensures
        r == type_line_decides(line@, prefixes_of(prefixes@)),
{
    match third_token(line) {
        Some((start, end)) => Some(starts_with_any(line, start, end, prefixes)),
        None => None,
    }
}

/// Keeps, of the exposition `input`, the groups whose family name starts with
/// one of `retain_prefixes`.
pub fn filter_metrics(input: String, retain_prefixes: &[&str]) -> (r: String)
    ensures
        r@ == spec_filter_metrics(input@, prefixes_of(retain_prefixes@)),
{
    let chars = to_chars(input.as_str());
    let marker = to_chars("# TYPE ");
    let mut result = String::new();
    let start: Vec<String> = Vec::new();
    assert(lines_of(start) =~= Seq::<Seq<char>>::empty());
    let mut state = MetricGroup::MaybeMatching(start);
    let mut pos: usize = 0;
    let ghost prefixes = prefixes_of(retain_prefixes@);
    while pos < chars.len()
        invariant
            pos <= chars.len(),
            chars@ == input@,
            marker@ == "# TYPE "@,
            prefixes == prefixes_of(retain_prefixes@),
            spec_process(state@, result@, lines_from(chars@, pos as int), prefixes)
                == spec_filter_metrics(input@, prefixes),
        decreases chars.len() - pos,
    {
        let mut line: Vec<char> = Vec::new();
        let mut end: usize = pos;
        while end < chars.len() && chars[end] != '\n'
            invariant
                pos <= end <= chars.len(),
                line@ == chars@.subrange(pos as int, end as int),
                line_end(chars@, pos as int) == line_end(chars@, end as int),
            decreases chars.len() - end,
        {
            line.push(chars[end]);
            assert(line@ =~= chars@.subrange(pos as int, end + 1));
            end += 1;
        }
        let next: usize;
        if end < chars.len() {
            if line.len() > 0 && line[line.len() - 1] == '\r' {
                line.pop();
            }
            assert(line@ =~= strip_cr(chars@.subrange(pos as int, end as int)));
            next = end + 1;
        } else {
            next = end;
        }
        let ghost rest = lines_from(chars@, pos as int);
        proof {
            assert(rest.len() > 0);
            assert(rest[0] == line@);
            assert(rest.drop_first() =~= lines_from(chars@, next as int));
        }
        if starts_with(&line, 0, line.len(), &marker) {
            assert(line@.subrange(0, line@.len() as int) =~= line@);
            let decision = decide(&line, retain_prefixes);
            let text = string_of(&line);
            state = state.on_next_line(text.as_str(), decision);
        } else if line_is_blank(&line) {
            assert(line@.subrange(0, line@.len() as int) =~= line@);
            state = state.on_group_end(&mut result);
        } else {
            assert(line@.subrange(0, line@.len() as int) =~= line@);
            let text = string_of(&line);
            state = state.on_next_line(text.as_str(), None);
        }
        pos = next;
    }
    result
}

/// What the metrics endpoint answers: of the rendered metrics those of the
/// services, and nothing where no metrics are rendered.
pub fn service_metrics(rendered: Option<String>) -> (r: String)
    ensures
        match rendered {
            Some(text) => r@ == spec_filter_metrics(text@, service_prefixes()),
            None => r@ == Seq::<char>::empty(),
        },
{
    match rendered {
        Some(text) => {
            let prefixes: [&str; 1] = ["restate_services_"];
            assert(prefixes_of(prefixes@) =~= service_prefixes());
            filter_metrics(text, prefixes.as_slice())
        },
        None => String::new(),
    }
}

} // verus!
