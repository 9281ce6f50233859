//! Searching the buffer.
//!
//! A plain query hits a line when it occurs in it, letter case aside. A
//! regular expression hits a line when it matches somewhere in it; a pattern
//! that does not compile hits nothing.

use vstd::prelude::*;
use crate::text::{contains, lowercase, lowercased, occurs_in};

verus! {

/// The outcome of compiling `pattern` with `regex::Regex::new` and, where it
/// compiles, of asking `Regex::is_match` about `text`.
pub uninterp spec fn regex_verdict(pattern: Seq<char>, text: Seq<char>) -> Option<bool>;

/// Compiles `pattern` with `regex::Regex::new` and tests with `Regex::is_match`
/// whether it matches anywhere in `text`. The result is `None` where the crate
/// turns the pattern down. Both calls depend on their arguments alone; what
/// the pattern language means is the crate's business, so the outcome is only
/// given a name.
#[verifier::external_body]
pub(crate) fn regex_test(pattern: &str, text: &str) -> (r: Option<bool>)
    ensures
        r == regex_verdict(pattern@, text@),
{
    match regex::Regex::new(pattern) {
        Ok(re) => Some(re.is_match(text)),
        Err(_) => None,
    }
}

/// Whether a query hits a line.
pub open spec fn line_matches(line: Seq<char>, query: Seq<char>, is_regex: bool) -> bool {
    if is_regex {
        regex_verdict(query, line) == Some(true)
    } else {
        occurs_in(lowercased(query), lowercased(line))
    }
}

/// For each line, whether the query hits it.
pub open spec fn hits(lines: Seq<Seq<char>>, query: Seq<char>, is_regex: bool) -> Seq<bool> {
    Seq::new(lines.len(), |i: int| line_matches(lines[i], query, is_regex))
}

/// The positions that hold `true`, in rising order.
pub open spec fn positions_of(marks: Seq<bool>) -> Seq<usize>
    decreases marks.len(),
{
    if marks.len() == 0 {
        Seq::empty()
    } else if marks.last() {
        positions_of(marks.drop_last()).push((marks.len() - 1) as usize)
    } else {
        positions_of(marks.drop_last())
    }
}

/// The lines that a query hits: their indices, in rising order.
pub open spec fn matches_of(lines: Seq<Seq<char>>, query: Seq<char>, is_regex: bool) -> Seq<
    usize,
> {
    positions_of(hits(lines, query, is_regex))
}

/// `positions_of` lists exactly the marked positions, each once, in rising
/// order.
pub proof fn lemma_positions_of(marks: Seq<bool>)
    requires
        marks.len() <= usize::MAX,
    ensures
        positions_of(marks).len() <= marks.len(),
        forall|k: int|
            0 <= k < positions_of(marks).len() ==> (#[trigger] positions_of(marks)[k])
                < marks.len() && marks[positions_of(marks)[k] as int],
        forall|j: int, k: int|
            0 <= j < k < positions_of(marks).len() ==> positions_of(marks)[j] < positions_of(
                marks,
            )[k],
        forall|i: int|
            0 <= i < marks.len() && #[trigger] marks[i] ==> positions_of(marks).contains(
                i as usize,
            ),
    decreases marks.len(),
{
    if marks.len() > 0 {
        let front = marks.drop_last();
        let found = positions_of(marks);
        let before = positions_of(front);
        lemma_positions_of(front);
        assert forall|i: int| 0 <= i < marks.len() && #[trigger] marks[i] implies found.contains(
            i as usize,
        ) by {
            if i < front.len() {
                assert(front[i]);
                let k = choose|k: int| 0 <= k < before.len() && before[k] == i as usize;
                assert(found[k] == i as usize);
            } else {
                assert(found[found.len() - 1] == i as usize);
            }
        }
    }
}

/// A search lists exactly the lines that the query hits, each once, in
/// rising order.
pub proof fn lemma_matches_of(lines: Seq<Seq<char>>, query: Seq<char>, is_regex: bool)
    requires
        lines.len() <= usize::MAX,
    ensures
        ({
            let found = matches_of(lines, query, is_regex);
            &&& forall|k: int|
                0 <= k < found.len() ==> (#[trigger] found[k]) < lines.len() && line_matches(
                    lines[found[k] as int],
                    query,
                    is_regex,
                )
            &&& forall|j: int, k: int| 0 <= j < k < found.len() ==> found[j] < found[k]
            &&& forall|i: int|
                0 <= i < lines.len() && line_matches(#[trigger] lines[i], query, is_regex)
                    ==> found.contains(i as usize)
        }),
{
    let marks = hits(lines, query, is_regex);
    lemma_positions_of(marks);
    assert forall|i: int|
        0 <= i < lines.len() && line_matches(
            #[trigger] lines[i],
            query,
            is_regex,
        ) implies matches_of(lines, query, is_regex).contains(i as usize) by {
        assert(marks[i]);
    }
}

/// Tests one line against a query.
pub fn line_hit(line: &str, query: &str, is_regex: bool) -> (r: bool)
    ensures
        r == line_matches(line@, query@, is_regex),
{
    if is_regex {
        match regex_test(query, line) {
            Some(found) => found,
            None => false,
        }
    } else {
        let line_lower: String = lowercase(line);
        let query_lower: String = lowercase(query);
        contains(line_lower.as_str(), query_lower.as_str())
    }
}

/// Collects the positions that hold `true`.
pub fn marked_positions(marks: &Vec<bool>) -> (found: Vec<usize>)
    ensures
        found@ == positions_of(marks@),
{
    let mut found: Vec<usize> = Vec::new();
    let mut i: usize = 0;
    assert(marks@.take(0) =~= Seq::<bool>::empty());
    while i < marks.len()
        invariant
            i <= marks.len(),
            found@ == positions_of(marks@.take(i as int)),
        decreases marks.len() - i,
    {
        proof {
            let next = marks@.take(i + 1);
            assert(next.drop_last() =~= marks@.take(i as int));
            assert(next.last() == marks@[i as int]);
        }
        if marks[i] {
            found.push(i);
        }
        i = i + 1;
    }
    assert(marks@.take(marks.len() as int) =~= marks@);
    found
}

/// Finds the lines that a query hits and returns their indices in rising
/// order. With `is_regex` the query is a regular expression, otherwise text
/// to look for without regard to letter case.
pub fn get_matches(lines: &Vec<String>, search: &str, is_regex: bool) -> (found: Vec<usize>)
    ensures
        found@ == matches_of(lines.deep_view(), search@, is_regex),
        forall|k: int| 0 <= k < found.len() ==> #[trigger] found[k] < lines.len(),
{
    let lowered: String = if is_regex {
        String::new()
    } else {
        lowercase(search)
    };
    let mut marks: Vec<bool> = Vec::new();
    let mut i: usize = 0;
    while i < lines.len()
        invariant
            i <= lines.len(),
            marks.len() == i,
            !is_regex ==> lowered@ == lowercased(search@),
            forall|k: int|
                0 <= k < i ==> marks[k] == line_matches(
                    #[trigger] lines.deep_view()[k],
                    search@,
                    is_regex,
                ),
        decreases lines.len() - i,
    {
        let hit: bool = if is_regex {
            line_hit(lines[i].as_str(), search, true)
        } else {
            contains(lowercase(lines[i].as_str()).as_str(), lowered.as_str())
        };
        marks.push(hit);
        i = i + 1;
    }
    assert(marks@ =~= hits(lines.deep_view(), search@, is_regex));
    proof {
        lemma_positions_of(marks@);
    }
    marked_positions(&marks)
}

} // verus!
