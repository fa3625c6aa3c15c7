//! The guarantees of the search engine, stated and proved over the model:
//! completeness, soundness, the case-folding superset relation, determinism,
//! the empty query, and the optional trailing newline.

use vstd::prelude::*;

use crate::model::{
    chomp_cr, contains_at, first_nl, fold_case, fold_if, lemma_first_nl_at,
    lemma_first_nl_spec, lemma_split_lines_no_nl, line_matches, matching_lines, search_matches,
    split_lines,
};

verus! {

proof fn lemma_matching_lines_complete(
    q: Seq<char>,
    lines: Seq<Seq<char>>,
    i: int,
    case_sensitive: bool,
)
    requires
        0 <= i < lines.len(),
        line_matches(lines[i], q, case_sensitive),
    ensures
        matching_lines(q, lines, case_sensitive).contains(lines[i]),
    decreases lines.len(),
{
    let m = matching_lines(q, lines, case_sensitive);
    let mp = matching_lines(q, lines.drop_last(), case_sensitive);
    if i == lines.len() - 1 {
        assert(m[m.len() - 1] == lines[i]);
    } else {
        lemma_matching_lines_complete(q, lines.drop_last(), i, case_sensitive);
        let k = choose|k: int| 0 <= k < mp.len() && mp[k] == lines.drop_last()[i];
        assert(m[k] == lines[i]);
    }
}

/// Completeness: every line of the text that satisfies the matching policy
/// appears in the search result.
pub proof fn lemma_search_complete(
    q: Seq<char>,
    contents: Seq<char>,
    i: int,
    case_sensitive: bool,
)
    requires
        0 <= i < split_lines(contents).len(),
        line_matches(split_lines(contents)[i], q, case_sensitive),
    ensures
        search_matches(q, contents, case_sensitive).contains(split_lines(contents)[i]),
{
    lemma_matching_lines_complete(q, split_lines(contents), i, case_sensitive);
}

proof fn lemma_matching_lines_sound(
    q: Seq<char>,
    lines: Seq<Seq<char>>,
    j: int,
    case_sensitive: bool,
)
    requires
        0 <= j < matching_lines(q, lines, case_sensitive).len(),
    ensures
        line_matches(matching_lines(q, lines, case_sensitive)[j], q, case_sensitive),
        lines.contains(matching_lines(q, lines, case_sensitive)[j]),
    decreases lines.len(),
{
    let m = matching_lines(q, lines, case_sensitive);
    let mp = matching_lines(q, lines.drop_last(), case_sensitive);
    if lines.len() == 0 {
    } else if j < mp.len() {
        lemma_matching_lines_sound(q, lines.drop_last(), j, case_sensitive);
        let k = choose|k: int| 0 <= k < lines.drop_last().len() && lines.drop_last()[k] == mp[j];
        assert(lines[k] == m[j]);
    } else {
        assert(m[j] == lines.last());
        assert(lines[lines.len() - 1] == m[j]);
    }
}

/// Soundness: the search result holds only lines of the text, and only such
/// as satisfy the matching policy — no false positives.
pub proof fn lemma_search_sound(q: Seq<char>, contents: Seq<char>, j: int, case_sensitive: bool)
    requires
        0 <= j < search_matches(q, contents, case_sensitive).len(),
    ensures
        line_matches(search_matches(q, contents, case_sensitive)[j], q, case_sensitive),
        split_lines(contents).contains(search_matches(q, contents, case_sensitive)[j]),
{
    lemma_matching_lines_sound(q, split_lines(contents), j, case_sensitive);
}

/// A line that contains the query exactly also contains it after ASCII case
/// folding of both.
pub proof fn lemma_fold_preserves_match(line: Seq<char>, q: Seq<char>)
    requires
        line_matches(line, q, true),
    ensures
        line_matches(line, q, false),
{
    let i = choose|i: int| contains_at(line, q, i);
    assert(fold_case(line).subrange(i, i + fold_case(q).len() as int) =~= fold_case(q)) by {
        assert(forall|j: int|
            0 <= j < q.len() ==> line.subrange(i, i + q.len() as int)[j] == q[j]);
    }
    assert(contains_at(fold_case(line), fold_case(q), i));
}

proof fn lemma_matching_lines_superset(q: Seq<char>, lines: Seq<Seq<char>>, l: Seq<char>)
    requires
        matching_lines(q, lines, true).contains(l),
    ensures
        matching_lines(q, lines, false).contains(l),
    decreases lines.len(),
{
    let mt = matching_lines(q, lines, true);
    let mtp = matching_lines(q, lines.drop_last(), true);
    let mf = matching_lines(q, lines, false);
    let mfp = matching_lines(q, lines.drop_last(), false);
    let j = choose|j: int| 0 <= j < mt.len() && mt[j] == l;
    if line_matches(lines.last(), q, true) && j == mt.len() - 1 {
        lemma_fold_preserves_match(lines.last(), q);
        assert(mf[mf.len() - 1] == l);
    } else {
        assert(mtp[j] == l);
        lemma_matching_lines_superset(q, lines.drop_last(), l);
        let k = choose|k: int| 0 <= k < mfp.len() && mfp[k] == l;
        assert(mf[k] == l);
    }
}

/// The case-insensitive search returns a superset of the case-sensitive one:
/// every line the exact search keeps, the folding search keeps too.
pub proof fn lemma_case_insensitive_superset(q: Seq<char>, contents: Seq<char>, l: Seq<char>)
    requires
        search_matches(q, contents, true).contains(l),
    ensures
        search_matches(q, contents, false).contains(l),
{
    lemma_matching_lines_superset(q, split_lines(contents), l);
}

/// Determinism: a search is a function of query, contents and policy alone,
/// so two results of identical calls are identical.
pub proof fn lemma_search_deterministic(
    q: Seq<char>,
    contents: Seq<char>,
    case_sensitive: bool,
    r1: Seq<Seq<char>>,
    r2: Seq<Seq<char>>,
)
    requires
        r1 == search_matches(q, contents, case_sensitive),
        r2 == search_matches(q, contents, case_sensitive),
    ensures
        r1 == r2,
{
}

proof fn lemma_matching_lines_all(q: Seq<char>, lines: Seq<Seq<char>>, case_sensitive: bool)
    requires
        forall|i: int| 0 <= i < lines.len() ==> line_matches(#[trigger] lines[i], q, case_sensitive),
    ensures
        matching_lines(q, lines, case_sensitive) == lines,
    decreases lines.len(),
{
    if lines.len() == 0 {
        assert(matching_lines(q, lines, case_sensitive) =~= lines);
    } else {
        lemma_matching_lines_all(q, lines.drop_last(), case_sensitive);
        assert(lines[lines.len() - 1] == lines.last());
        assert(matching_lines(q, lines.drop_last(), case_sensitive).push(lines.last())
            =~= lines);
    }
}

/// The empty query matches every line: searching for it returns all lines of
/// the text, unchanged and in order, under either policy.
pub proof fn lemma_empty_query_matches_all(contents: Seq<char>, case_sensitive: bool)
    ensures
        search_matches(Seq::empty(), contents, case_sensitive) == split_lines(contents),
{
    let q = Seq::<char>::empty();
    assert(fold_if(q, case_sensitive) =~= Seq::<char>::empty());
    assert forall|i: int|
        0 <= i < split_lines(contents).len() implies line_matches(
        #[trigger] split_lines(contents)[i],
        q,
        case_sensitive,
    ) by {
        let l = split_lines(contents)[i];
        let fl = fold_if(l, case_sensitive);
        assert(contains_at(fl, fold_if(q, case_sensitive), 0)) by {
            assert(fl.subrange(0, 0) =~= Seq::<char>::empty());
        }
    }
    lemma_matching_lines_all(q, split_lines(contents), case_sensitive);
}

/// A final line ending is optional: appending a closing newline to a text
/// whose last character ends a line's content changes no line, so the final
/// segment of a text with no trailing newline is a candidate like any other.
pub proof fn lemma_trailing_newline_optional(contents: Seq<char>)
    requires
        contents.len() > 0,
        contents.last() != '\n',
        contents.last() != '\r',
    ensures
        split_lines(contents.push('\n')) == split_lines(contents),
    decreases contents.len(),
{
    let s = contents.push('\n');
    let len = contents.len() as int;
    lemma_first_nl_spec(contents);
    let i0 = first_nl(contents);
    if i0 == len {
        lemma_split_lines_no_nl(contents);
        lemma_first_nl_at(s, len);
        assert(s.subrange(0, len) =~= contents);
        assert(chomp_cr(contents) == contents);
        assert(s.subrange(len + 1, s.len() as int) =~= Seq::<char>::empty());
        assert(seq![contents] + split_lines(Seq::<char>::empty()) =~= seq![contents]);
    } else {
        assert(i0 < len - 1) by {
            if i0 == len - 1 {
                assert(contents[len - 1] == '\n');
            }
        }
        lemma_first_nl_at(s, i0);
        assert(s.subrange(0, i0) =~= contents.subrange(0, i0));
        let t = contents.subrange(i0 + 1, len);
        assert(s.subrange(i0 + 1, s.len() as int) =~= t.push('\n'));
        assert(t.last() == contents.last());
        lemma_trailing_newline_optional(t);
    }
}

} // verus!
