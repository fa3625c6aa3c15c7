//! The search engine: line splitting and substring matching, under a
//! case-sensitive or an ASCII case-folding policy.

use vstd::prelude::*;

use crate::config::Config;
use crate::model::{
    chomp_cr, contains_at, fold_char, fold_if, lemma_matching_lines_push,
    lemma_split_lines_first, lemma_split_lines_no_nl, lemma_views_of_push, line_matches,
    matching_lines, search_matches, split_lines, views_of,
};

verus! {

/// ASCII lower-casing of one character, the executable counterpart of
/// [`fold_char`].
fn lower_char(c: char) -> (r: char)
    ensures
        r == fold_char(c),
{
    match c {
        'A' => 'a',
        'B' => 'b',
        'C' => 'c',
        'D' => 'd',
        'E' => 'e',
        'F' => 'f',
        'G' => 'g',
        'H' => 'h',
        'I' => 'i',
        'J' => 'j',
        'K' => 'k',
        'L' => 'l',
        'M' => 'm',
        'N' => 'n',
        'O' => 'o',
        'P' => 'p',
        'Q' => 'q',
        'R' => 'r',
        'S' => 's',
        'T' => 't',
        'U' => 'u',
        'V' => 'v',
        'W' => 'w',
        'X' => 'x',
        'Y' => 'y',
        'Z' => 'z',
        _ => c,
    }
}

/// Two characters are equal under the active policy.
fn char_matches(a: char, b: char, case_sensitive: bool) -> (r: bool)
    ensures
        r == if case_sensitive {
            a == b
        } else {
            fold_char(a) == fold_char(b)
        },
{
    if case_sensitive {
        a == b
    } else {
        lower_char(a) == lower_char(b)
    }
}

/// The query occurs in `line` exactly at character position `i`, under the
/// active policy.
fn matches_at(line: &str, query: &str, i: usize, case_sensitive: bool) -> (r: bool)
    requires
        i + query@.len() <= line@.len(),
    ensures
        r == contains_at(
            fold_if(line@, case_sensitive),
            fold_if(query@, case_sensitive),
            i as int,
        ),
{
    let ghost fl = fold_if(line@, case_sensitive);
    let ghost fq = fold_if(query@, case_sensitive);
    proof {
        assert(fl.len() == line@.len());
        assert(fq.len() == query@.len());
    }
    let n = line.unicode_len();
    let m = query.unicode_len();
    let mut j: usize = 0;
    while j < m
        invariant
            n == line@.len(),
            m == query@.len(),
            i + m <= n,
            0 <= j <= m,
            fl == fold_if(line@, case_sensitive),
            fq == fold_if(query@, case_sensitive),
            fl.len() == line@.len(),
            fq.len() == query@.len(),
            forall|t: int| 0 <= t < j ==> fl[i + t] == fq[t],
        decreases m - j,
    {
        let cl = line.get_char(i + j);
        let cq = query.get_char(j);
        if !char_matches(cl, cq, case_sensitive) {
            proof {
                assert(fl[i + j] != fq[j as int]);
                assert(!contains_at(fl, fq, i as int)) by {
                    if contains_at(fl, fq, i as int) {
                        assert(fl.subrange(i as int, i + fq.len() as int)[j as int] == fl[i + j]);
                    }
                }
            }
            return false;
        }
        j += 1;
    }
    proof {
        assert(fl.subrange(i as int, i + fq.len() as int) =~= fq);
    }
    true
}

/// The query occurs somewhere in `line`, under the active policy: the
/// executable counterpart of [`line_matches`].
fn line_contains(line: &str, query: &str, case_sensitive: bool) -> (r: bool)
    ensures
        r == line_matches(line@, query@, case_sensitive),
{
    let ghost fl = fold_if(line@, case_sensitive);
    let ghost fq = fold_if(query@, case_sensitive);
    proof {
        assert(fl.len() == line@.len());
        assert(fq.len() == query@.len());
    }
    let n = line.unicode_len();
    let m = query.unicode_len();
    if m == 0 {
        proof {
            assert(contains_at(fl, fq, 0)) by {
                assert(fl.subrange(0, 0) =~= fq);
            }
        }
        return true;
    }
    if m > n {
        proof {
            assert(forall|i: int| !contains_at(fl, fq, i));
        }
        return false;
    }
    let mut i: usize = 0;
    while i <= n - m
        invariant
            n == line@.len(),
            m == query@.len(),
            1 <= m <= n,
            0 <= i <= n - m + 1,
            fl == fold_if(line@, case_sensitive),
            fq == fold_if(query@, case_sensitive),
            fl.len() == n,
            fq.len() == m,
            forall|k: int| 0 <= k < i ==> !contains_at(fl, fq, k),
        decreases n - m + 1 - i,
    {
        if matches_at(line, query, i, case_sensitive) {
            return true;
        }
        i += 1;
    }
    proof {
        assert(forall|k: int| !contains_at(fl, fq, k)) by {
            assert(forall|k: int| k + fq.len() > fl.len() ==> !contains_at(fl, fq, k));
        }
    }
    false
}

/// Scan `contents` line by line and collect, in order, every line that
/// satisfies the matching policy. Returned slices reference `contents`.
fn search_lines<'a>(query: &str, contents: &'a str, case_sensitive: bool) -> (r: Vec<&'a str>)
    ensures
        views_of(r@) == search_matches(query@, contents@, case_sensitive),
{
    let n = contents.unicode_len();
    let mut result: Vec<&'a str> = Vec::new();
    let mut start: usize = 0;
    let mut i: usize = 0;
    let ghost mut processed: Seq<Seq<char>> = Seq::empty();
    proof {
        assert(contents@.subrange(0, n as int) =~= contents@);
        assert(split_lines(contents@) =~= processed + split_lines(
            contents@.subrange(0, n as int),
        ));
        assert(views_of(result@) =~= matching_lines(query@, processed, case_sensitive));
    }
    while i < n
        invariant
            n == contents@.len(),
            0 <= start <= i <= n,
            forall|k: int| start <= k < i ==> contents@[k] != '\n',
            split_lines(contents@) == processed + split_lines(
                contents@.subrange(start as int, n as int),
            ),
            views_of(result@) == matching_lines(query@, processed, case_sensitive),
        decreases n - i,
    {
        if contents.get_char(i) == '\n' {
            let end = if i > start && contents.get_char(i - 1) == '\r' {
                i - 1
            } else {
                i
            };
            let line = contents.substring_char(start, end);
            proof {
                let rem = contents@.subrange(start as int, n as int);
                let raw = contents@.subrange(start as int, i as int);
                assert(rem.subrange(0, i - start) =~= raw);
                assert(rem.subrange(i - start + 1, rem.len() as int) =~= contents@.subrange(
                    i + 1,
                    n as int,
                ));
                assert(rem[i - start] == '\n');
                lemma_split_lines_first(rem, i - start);
                if i > start && contents@[i - 1] == '\r' {
                    assert(raw.drop_last() =~= contents@.subrange(start as int, i - 1));
                    assert(line@ == chomp_cr(raw));
                } else {
                    assert(line@ == chomp_cr(raw));
                }
                lemma_matching_lines_push(query@, processed, line@, case_sensitive);
                lemma_views_of_push(result@, line);
                assert(processed + split_lines(rem) =~= processed.push(line@) + split_lines(
                    contents@.subrange(i + 1, n as int),
                ));
            }
            if line_contains(line, query, case_sensitive) {
                result.push(line);
            }
            proof {
                processed = processed.push(line@);
            }
            start = i + 1;
        }
        i += 1;
    }
    if start < n {
        let line = contents.substring_char(start, n);
        proof {
            let rem = contents@.subrange(start as int, n as int);
            lemma_split_lines_no_nl(rem);
            lemma_matching_lines_push(query@, processed, line@, case_sensitive);
            lemma_views_of_push(result@, line);
            assert(processed + split_lines(rem) =~= processed.push(line@));
        }
        if line_contains(line, query, case_sensitive) {
            result.push(line);
        }
        proof {
            processed = processed.push(line@);
        }
    } else {
        proof {
            assert(contents@.subrange(start as int, n as int) =~= Seq::<char>::empty());
            assert(processed + split_lines(Seq::<char>::empty()) =~= processed);
        }
    }
    result
}

/// Case-sensitive search: every line of `contents` that holds `query` as an
/// exact contiguous substring, in original order.
pub fn search<'a>(query: &str, contents: &'a str) -> (r: Vec<&'a str>)
    ensures
        views_of(r@) == search_matches(query@, contents@, true),
{
    search_lines(query, contents, true)
}

/// Case-insensitive search: the same lines and order, but query and line are
/// ASCII-lower-cased before the containment test.
pub fn search_case_insensitive<'a>(query: &str, contents: &'a str) -> (r: Vec<&'a str>)
    ensures
        views_of(r@) == search_matches(query@, contents@, false),
{
    search_lines(query, contents, false)
}

/// The policy selection of one run: searches `contents` for the configured
/// query, case-insensitively exactly when the configuration says so.
pub fn run_search<'a>(config: &Config, contents: &'a str) -> (r: Vec<&'a str>)
    ensures
        views_of(r@) == search_matches(config.query@, contents@, !config.case_insensitive),
{
    if config.case_insensitive {
        search_case_insensitive(config.query.as_str(), contents)
    } else {
        search(config.query.as_str(), contents)
    }
}

} // verus!
