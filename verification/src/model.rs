//! Mathematical model of the search: how contents split into lines, what it
//! means for a line to contain the query, and which lines a search keeps.

use vstd::prelude::*;

verus! {

/// ASCII case folding of a single character: `'A'..='Z'` map to their
/// lower-case counterparts, every other character is unchanged.
pub open spec fn fold_char(c: char) -> char {
    if 'A' as u32 <= c as u32 && c as u32 <= 'Z' as u32 {
        ((c as u32) + 32) as char
    } else {
        c
    }
}

/// ASCII case folding of a whole character sequence.
pub open spec fn fold_case(s: Seq<char>) -> Seq<char> {
    s.map_values(|c: char| fold_char(c))
}

/// The sequence folded when matching is case-insensitive, unchanged when it
/// is case-sensitive.
pub open spec fn fold_if(s: Seq<char>, case_sensitive: bool) -> Seq<char> {
    if case_sensitive {
        s
    } else {
        fold_case(s)
    }
}

/// `q` occurs in `line` starting exactly at position `i`.
pub open spec fn contains_at(line: Seq<char>, q: Seq<char>, i: int) -> bool {
    &&& 0 <= i
    &&& i + q.len() <= line.len()
    &&& line.subrange(i, i + q.len() as int) == q
}

/// `q` occurs somewhere in `line` as a contiguous subsequence.
pub open spec fn contains_query(line: Seq<char>, q: Seq<char>) -> bool {
    exists|i: int| contains_at(line, q, i)
}

/// A line satisfies the active matching policy: exact containment when
/// `case_sensitive`, containment after ASCII case folding otherwise.
pub open spec fn line_matches(line: Seq<char>, q: Seq<char>, case_sensitive: bool) -> bool {
    contains_query(fold_if(line, case_sensitive), fold_if(q, case_sensitive))
}

/// Index of the first newline character of `s`, or `s.len()` if there is none.
pub open spec fn first_nl(s: Seq<char>) -> int
    decreases s.len(),
{
    if s.len() == 0 {
        0
    } else if s[0] == '\n' {
        0
    } else {
        1 + first_nl(s.subrange(1, s.len() as int))
    }
}

/// A line as `str::lines` yields it: one carriage return directly before the
/// line break is dropped.
pub open spec fn chomp_cr(line: Seq<char>) -> Seq<char> {
    if line.len() > 0 && line[line.len() - 1] == '\r' {
        line.drop_last()
    } else {
        line
    }
}

/// The lines of `s`, split at `'\n'`, each terminated line stripped of one
/// trailing `'\r'`. A trailing newline produces no empty final line; a final
/// segment without a newline is still a line of its own.
pub open spec fn split_lines(s: Seq<char>) -> Seq<Seq<char>>
    decreases s.len(),
    via split_lines_decreases
{
    if s.len() == 0 {
        Seq::empty()
    } else {
        let i = first_nl(s);
        if i == s.len() {
            seq![s]
        } else {
            seq![chomp_cr(s.subrange(0, i))] + split_lines(s.subrange(i + 1, s.len() as int))
        }
    }
}

#[via_fn]
proof fn split_lines_decreases(s: Seq<char>) {
    lemma_first_nl_spec(s);
}

/// The subsequence of `lines` that satisfies the matching policy, in order.
pub open spec fn matching_lines(q: Seq<char>, lines: Seq<Seq<char>>, case_sensitive: bool) -> Seq<
    Seq<char>,
>
    decreases lines.len(),
{
    if lines.len() == 0 {
        Seq::empty()
    } else if line_matches(lines.last(), q, case_sensitive) {
        matching_lines(q, lines.drop_last(), case_sensitive).push(lines.last())
    } else {
        matching_lines(q, lines.drop_last(), case_sensitive)
    }
}

/// What a search returns: the matching lines of `contents`, in file order.
pub open spec fn search_matches(q: Seq<char>, contents: Seq<char>, case_sensitive: bool) -> Seq<
    Seq<char>,
> {
    matching_lines(q, split_lines(contents), case_sensitive)
}

/// The views of a sequence of returned line slices.
pub open spec fn views_of(lines: Seq<&str>) -> Seq<Seq<char>> {
    lines.map_values(|l: &str| l@)
}

/// `first_nl` is what its name says: no newline stands before it, and it
/// points at a newline unless `s` has none.
pub proof fn lemma_first_nl_spec(s: Seq<char>)
    ensures
        0 <= first_nl(s) <= s.len(),
        forall|j: int| 0 <= j < first_nl(s) ==> s[j] != '\n',
        first_nl(s) < s.len() ==> s[first_nl(s)] == '\n',
    decreases s.len(),
{
    if s.len() == 0 {
    } else if s[0] == '\n' {
    } else {
        let s1 = s.subrange(1, s.len() as int);
        lemma_first_nl_spec(s1);
        assert forall|j: int| 0 <= j < first_nl(s) implies s[j] != '\n' by {
            if j >= 1 {
                assert(s1[j - 1] != '\n');
            }
        }
    }
}

/// `first_nl` is uniquely determined by those properties.
pub proof fn lemma_first_nl_at(s: Seq<char>, i: int)
    requires
        0 <= i <= s.len(),
        forall|j: int| 0 <= j < i ==> s[j] != '\n',
        i < s.len() ==> s[i] == '\n',
    ensures
        first_nl(s) == i,
    decreases s.len(),
{
    if s.len() == 0 {
    } else if s[0] == '\n' {
        assert(i == 0);
    } else {
        let s1 = s.subrange(1, s.len() as int);
        lemma_first_nl_at(s1, i - 1);
    }
}

/// Splitting off the first line: if the first newline of `s` stands at `i`,
/// the lines of `s` are the (carriage-return-stripped) prefix up to `i`
/// followed by the lines of the rest.
pub proof fn lemma_split_lines_first(s: Seq<char>, i: int)
    requires
        0 <= i < s.len(),
        s[i] == '\n',
        forall|j: int| 0 <= j < i ==> s[j] != '\n',
    ensures
        split_lines(s) == seq![chomp_cr(s.subrange(0, i))] + split_lines(
            s.subrange(i + 1, s.len() as int),
        ),
{
    lemma_first_nl_at(s, i);
}

/// A non-empty text without any newline is a single line.
pub proof fn lemma_split_lines_no_nl(s: Seq<char>)
    requires
        s.len() > 0,
        forall|j: int| 0 <= j < s.len() ==> s[j] != '\n',
    ensures
        split_lines(s) == seq![s],
{
    lemma_first_nl_at(s, s.len() as int);
}

/// Appending one line to a prefix of lines extends the matches by that line
/// exactly when it satisfies the policy.
pub proof fn lemma_matching_lines_push(
    q: Seq<char>,
    lines: Seq<Seq<char>>,
    l: Seq<char>,
    case_sensitive: bool,
)
    ensures
        matching_lines(q, lines.push(l), case_sensitive) == if line_matches(
            l,
            q,
            case_sensitive,
        ) {
            matching_lines(q, lines, case_sensitive).push(l)
        } else {
            matching_lines(q, lines, case_sensitive)
        },
{
    let p = lines.push(l);
    assert(p.drop_last() =~= lines);
    assert(p.last() == l);
}

/// Taking views commutes with appending a line slice.
pub proof fn lemma_views_of_push(lines: Seq<&str>, l: &str)
    ensures
        views_of(lines.push(l)) == views_of(lines).push(l@),
{
    assert(views_of(lines.push(l)) =~= views_of(lines).push(l@));
}

} // verus!
