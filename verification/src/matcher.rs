//! The matcher: finds the lines of a text that contain a query string,
//! case-sensitively or case-insensitively.
//!
//! Case-sensitive search returns each matching line unchanged;
//! case-insensitive search lowercases both the query and the line before
//! the substring test and returns the matching line trimmed of leading
//! and trailing whitespace. The asymmetry between the two modes is
//! deliberate.

use vstd::prelude::*;

use crate::text::{
    contains_substring, has_substring, split_lines, split_lines_str, trim_spec, trim_str,
};

verus! {

/// What `str::to_lowercase` returns on a string with these characters;
/// the result depends on the characters alone.
pub uninterp spec fn lower_of(s: Seq<char>) -> Seq<char>;

/// Relies on `str::to_lowercase`: returns the Unicode lowercase form of
/// the string, a function of the characters alone.
#[verifier::external_body]
fn to_lower(s: &str) -> (r: String)
    ensures
        r@ == lower_of(s@),
{
    s.to_lowercase()
}

/// A line matches a query case-sensitively when it contains the query as
/// an exact substring.
pub open spec fn line_matches(query: Seq<char>, line: Seq<char>) -> bool {
    has_substring(line, query)
}

/// A line matches a query case-insensitively when its lowercase form
/// contains the lowercase form of the query as a substring.
pub open spec fn line_matches_insensitive(query: Seq<char>, line: Seq<char>) -> bool {
    has_substring(lower_of(line), lower_of(query))
}

/// The case-sensitive matches: the lines of `contents` that contain
/// `query`, in order, each unchanged.
pub open spec fn sensitive_matches(query: Seq<char>, contents: Seq<char>) -> Seq<Seq<char>> {
    split_lines(contents).filter(|l: Seq<char>| line_matches(query, l))
}

/// The case-insensitive matches: the lines of `contents` whose lowercase
/// form contains the lowercase form of `query`, in order, each trimmed.
pub open spec fn insensitive_matches(query: Seq<char>, contents: Seq<char>) -> Seq<Seq<char>> {
    split_lines(contents).filter(|l: Seq<char>| line_matches_insensitive(query, l)).map_values(
        |l: Seq<char>| trim_spec(l),
    )
}

/// The matches of one run of the matcher, in either mode.
pub open spec fn matcher_result(query: Seq<char>, contents: Seq<char>, case_sensitive: bool) -> Seq<
    Seq<char>,
> {
    if case_sensitive {
        sensitive_matches(query, contents)
    } else {
        insensitive_matches(query, contents)
    }
}

/// Case-sensitive search: returns the lines of `contents` that contain
/// `query` as an exact substring, in the order the lines appear, each
/// returned unchanged. Empty contents give an empty result.
pub fn search<'a>(query: &str, contents: &'a str) -> (r: Vec<&'a str>)
    ensures
        r@.map_values(|l: &'a str| l@) == matcher_result(query@, contents@, true),
        contents@.len() == 0 ==> r@.len() == 0,
{
    let lines = split_lines_str(contents);
    let ghost lseq = lines@.map_values(|l: &'a str| l@);
    let mut r: Vec<&'a str> = Vec::new();
    let mut i: usize = 0;
    proof {
        assert(lseq.subrange(0, 0) =~= Seq::<Seq<char>>::empty());
        reveal_with_fuel(Seq::<_>::filter, 2);
        assert(r@.map_values(|l: &'a str| l@) =~= Seq::<Seq<char>>::empty());
    }
    while i < lines.len()
        invariant
            i <= lines@.len(),
            lseq == lines@.map_values(|l: &'a str| l@),
            lseq == split_lines(contents@),
            r@.map_values(|l: &'a str| l@) == lseq.subrange(0, i as int).filter(
                |l: Seq<char>| line_matches(query@, l),
            ),
        decreases lines@.len() - i,
    {
        let ghost prefix = lseq.subrange(0, i as int);
        let ghost prefix1 = lseq.subrange(0, i as int + 1);
        proof {
            assert(prefix1.drop_last() =~= prefix);
            assert(prefix1.last() == lseq[i as int]);
            reveal_with_fuel(Seq::<_>::filter, 2);
        }
        let line = lines[i];
        if contains_substring(line, query) {
            r.push(line);
            proof {
                let pred = |l: Seq<char>| line_matches(query@, l);
                assert(r@.map_values(|l: &'a str| l@) =~= prefix.filter(pred).push(line@));
            }
        }
        i = i + 1;
    }
    proof {
        assert(lseq.subrange(0, lines@.len() as int) =~= lseq);
        if contents@.len() == 0 {
            assert(split_lines(contents@) =~= Seq::<Seq<char>>::empty());
            reveal_with_fuel(Seq::<_>::filter, 2);
        }
    }
    r
}

/// Case-insensitive search: returns the lines of `contents` whose
/// lowercase form contains the lowercase form of `query`, in the order
/// the lines appear, each trimmed of leading and trailing whitespace.
/// Empty contents give an empty result.
pub fn search_case_insensitive<'a>(query: &str, contents: &'a str) -> (r: Vec<&'a str>)
    ensures
        r@.map_values(|l: &'a str| l@) == matcher_result(query@, contents@, false),
        contents@.len() == 0 ==> r@.len() == 0,
{
    let query_lower = to_lower(query);
    let lines = split_lines_str(contents);
    let ghost lseq = lines@.map_values(|l: &'a str| l@);
    let mut r: Vec<&'a str> = Vec::new();
    let mut i: usize = 0;
    proof {
        assert(lseq.subrange(0, 0) =~= Seq::<Seq<char>>::empty());
        reveal_with_fuel(Seq::<_>::filter, 2);
        assert(r@.map_values(|l: &'a str| l@) =~= Seq::<Seq<char>>::empty());
        assert(Seq::<Seq<char>>::empty().map_values(|l: Seq<char>| trim_spec(l))
            =~= Seq::<Seq<char>>::empty());
    }
    while i < lines.len()
        invariant
            i <= lines@.len(),
            lseq == lines@.map_values(|l: &'a str| l@),
            lseq == split_lines(contents@),
            query_lower@ == lower_of(query@),
            r@.map_values(|l: &'a str| l@) == lseq.subrange(0, i as int).filter(
                |l: Seq<char>| line_matches_insensitive(query@, l),
            ).map_values(|l: Seq<char>| trim_spec(l)),
        decreases lines@.len() - i,
    {
        let ghost prefix = lseq.subrange(0, i as int);
        let ghost prefix1 = lseq.subrange(0, i as int + 1);
        proof {
            assert(prefix1.drop_last() =~= prefix);
            assert(prefix1.last() == lseq[i as int]);
            reveal_with_fuel(Seq::<_>::filter, 2);
        }
        let line = lines[i];
        let line_lower = to_lower(line);
        if contains_substring(line_lower.as_str(), query_lower.as_str()) {
            let trimmed = trim_str(line);
            r.push(trimmed);
            proof {
                let pred = |l: Seq<char>| line_matches_insensitive(query@, l);
                let tr = |l: Seq<char>| trim_spec(l);
                assert(prefix1.filter(pred) =~= prefix.filter(pred).push(line@));
                assert(prefix1.filter(pred).map_values(tr) =~= prefix.filter(pred).map_values(
                    tr,
                ).push(trim_spec(line@)));
                assert(r@.map_values(|l: &'a str| l@) =~= prefix.filter(pred).map_values(tr).push(
                    trim_spec(line@),
                ));
            }
        } else {
            proof {
                let pred = |l: Seq<char>| line_matches_insensitive(query@, l);
                assert(prefix1.filter(pred) =~= prefix.filter(pred));
            }
        }
        i = i + 1;
    }
    proof {
        assert(lseq.subrange(0, lines@.len() as int) =~= lseq);
        if contents@.len() == 0 {
            assert(split_lines(contents@) =~= Seq::<Seq<char>>::empty());
            reveal_with_fuel(Seq::<_>::filter, 2);
            assert(Seq::<Seq<char>>::empty().map_values(|l: Seq<char>| trim_spec(l))
                =~= Seq::<Seq<char>>::empty());
        }
    }
    r
}

/// `a` can be obtained from `b` by deleting elements, keeping the order
/// of those that remain.
pub open spec fn is_ordered_subseq_of<A>(a: Seq<A>, b: Seq<A>) -> bool
    decreases b.len(),
{
    if b.len() == 0 {
        a.len() == 0
    } else if a.len() == 0 {
        true
    } else {
        (a.last() == b.last() && is_ordered_subseq_of(a.drop_last(), b.drop_last()))
            || is_ordered_subseq_of(a, b.drop_last())
    }
}

/// Filtering a sequence keeps an ordered subsequence of it.
proof fn lemma_filter_is_ordered_subseq<A>(s: Seq<A>, pred: spec_fn(A) -> bool)
    ensures
        is_ordered_subseq_of(s.filter(pred), s),
    decreases s.len(),
{
    reveal(Seq::filter);
    if s.len() == 0 {
    } else {
        lemma_filter_is_ordered_subseq(s.drop_last(), pred);
        if pred(s.last()) {
            assert(s.filter(pred).drop_last() =~= s.drop_last().filter(pred));
        }
    }
}

/// Every element of an ordered subsequence is an element of the longer
/// sequence.
proof fn lemma_ordered_subseq_membership<A>(a: Seq<A>, b: Seq<A>)
    requires
        is_ordered_subseq_of(a, b),
    ensures
        forall|k: int| 0 <= k < a.len() ==> b.contains(#[trigger] a[k]),
    decreases b.len(),
{
    if b.len() == 0 || a.len() == 0 {
    } else if a.last() == b.last() && is_ordered_subseq_of(a.drop_last(), b.drop_last()) {
        lemma_ordered_subseq_membership(a.drop_last(), b.drop_last());
        assert forall|k: int| 0 <= k < a.len() implies b.contains(#[trigger] a[k]) by {
            if k < a.len() - 1 {
                assert(a.drop_last()[k] == a[k]);
                let w = choose|w: int| 0 <= w < b.drop_last().len() && b.drop_last()[w] == a[k];
                assert(b[w] == a[k]);
            } else {
                assert(b[b.len() - 1] == a[k]);
            }
        }
    } else {
        lemma_ordered_subseq_membership(a, b.drop_last());
        assert forall|k: int| 0 <= k < a.len() implies b.contains(#[trigger] a[k]) by {
            let w = choose|w: int| 0 <= w < b.drop_last().len() && b.drop_last()[w] == a[k];
            assert(b[w] == a[k]);
        }
    }
}

/// Law of case-sensitive search: every returned line contains the query
/// as an exact substring, and the result keeps the order of the lines of
/// `contents` (it is an ordered subsequence of them, with no line changed).
pub proof fn lemma_sensitive_result(query: Seq<char>, contents: Seq<char>)
    ensures
        forall|k: int|
            0 <= k < sensitive_matches(query, contents).len() ==> has_substring(
                #[trigger] sensitive_matches(query, contents)[k],
                query,
            ),
        is_ordered_subseq_of(sensitive_matches(query, contents), split_lines(contents)),
{
    let pred = |l: Seq<char>| line_matches(query, l);
    let lines = split_lines(contents);
    broadcast use vstd::seq_lib::group_filter_ensures;

    assert forall|k: int|
        0 <= k < sensitive_matches(query, contents).len() implies has_substring(
        #[trigger] sensitive_matches(query, contents)[k],
        query,
    ) by {
        assert(pred(lines.filter(pred)[k]));
    }
    lemma_filter_is_ordered_subseq(lines, pred);
}

/// Every case-sensitive match is an unchanged line of `contents`.
pub proof fn lemma_sensitive_matches_are_lines(query: Seq<char>, contents: Seq<char>)
    ensures
        forall|k: int|
            0 <= k < sensitive_matches(query, contents).len() ==> split_lines(contents).contains(
                #[trigger] sensitive_matches(query, contents)[k],
            ),
{
    let pred = |l: Seq<char>| line_matches(query, l);
    lemma_filter_is_ordered_subseq(split_lines(contents), pred);
    lemma_ordered_subseq_membership(sensitive_matches(query, contents), split_lines(contents));
}

/// Filtering with a weaker predicate never keeps fewer elements.
proof fn lemma_filter_count_monotone<A>(s: Seq<A>, p1: spec_fn(A) -> bool, p2: spec_fn(A) -> bool)
    requires
        forall|x: A| s.contains(x) && p1(x) ==> p2(x),
    ensures
        s.filter(p1).len() <= s.filter(p2).len(),
    decreases s.len(),
{
    reveal(Seq::filter);
    if s.len() == 0 {
    } else {
        assert forall|x: A| s.drop_last().contains(x) && p1(x) implies p2(x) by {
            let w = choose|w: int| 0 <= w < s.drop_last().len() && s.drop_last()[w] == x;
            assert(s[w] == x);
            assert(s.contains(x));
        }
        lemma_filter_count_monotone(s.drop_last(), p1, p2);
        if p1(s.last()) {
            assert(s.contains(s.last()));
        }
    }
}

/// Law of the two modes: if lowercasing keeps the query's occurrence in
/// every line of `contents` that contains it, then case-insensitive
/// search returns at least as many matches as case-sensitive search.
/// (Unicode lowercasing does not always keep occurrences: a Greek capital
/// sigma at the end of a word lowercases differently than on its own.)
pub proof fn lemma_insensitive_superset(query: Seq<char>, contents: Seq<char>)
    ensures
        (forall|l: Seq<char>|
            split_lines(contents).contains(l) && line_matches(query, l)
                ==> line_matches_insensitive(query, l)) ==> insensitive_matches(
            query,
            contents,
        ).len() >= sensitive_matches(query, contents).len(),
{
    let p1 = |l: Seq<char>| line_matches(query, l);
    let p2 = |l: Seq<char>| line_matches_insensitive(query, l);
    let lines = split_lines(contents);
    if forall|l: Seq<char>| lines.contains(l) && line_matches(query, l)
        ==> line_matches_insensitive(query, l) {
        assert forall|x: Seq<char>| lines.contains(x) && p1(x) implies p2(x) by {
            assert(lines.contains(x) && line_matches(query, x));
        }
        lemma_filter_count_monotone(lines, p1, p2);
    }
}

/// Law of determinism: the matcher is a function of the query, the
/// contents and the mode alone, so two runs on identical inputs return
/// identical output.
pub proof fn lemma_matcher_deterministic(
    query: Seq<char>,
    contents: Seq<char>,
    case_sensitive: bool,
    r1: Seq<Seq<char>>,
    r2: Seq<Seq<char>>,
)
    requires
        r1 == matcher_result(query, contents, case_sensitive),
        r2 == matcher_result(query, contents, case_sensitive),
    ensures
        r1 == r2,
{
}

/// Law of empty contents: with nothing to scan, both modes return no
/// matches, whatever the query.
pub proof fn lemma_empty_contents(query: Seq<char>, case_sensitive: bool)
    ensures
        matcher_result(query, Seq::<char>::empty(), case_sensitive) == Seq::<Seq<char>>::empty(),
{
    reveal_with_fuel(Seq::<_>::filter, 2);
    assert(split_lines(Seq::<char>::empty()) =~= Seq::<Seq<char>>::empty());
    assert(matcher_result(query, Seq::<char>::empty(), case_sensitive)
        =~= Seq::<Seq<char>>::empty());
}

} // verus!
