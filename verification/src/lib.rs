//! A small verified text-search library.
//!
//! Given a query string and the full contents of a text file, the library
//! splits the contents into lines and returns, in order, every line that
//! contains the query as a contiguous substring, either case-sensitively
//! or after lowercasing both the query and each line.
use vstd::prelude::*;

pub mod config;
pub mod text;

pub use config::Config;
pub use config::MissingArgument;

verus! {

/// The lines of `contents`, in order, that contain `query` as a substring.
pub open spec fn search_spec(query: Seq<char>, contents: Seq<char>) -> Seq<Seq<char>> {
    text::lines_of(contents).filter(|l: Seq<char>| text::has_substring(l, query))
}

/// The lines of `contents`, in order, whose lowercased text contains the
/// lowercased query; the lines themselves keep their original case.
pub open spec fn search_case_insensitive_spec(query: Seq<char>, contents: Seq<char>) -> Seq<
    Seq<char>,
> {
    text::lines_of(contents).filter(
        |l: Seq<char>| text::has_substring(text::lower_of(l), text::lower_of(query)),
    )
}

/// Appending one element to the input of a filter appends it to the output
/// when it satisfies the predicate, and changes nothing when it does not.
proof fn lemma_filter_push<A>(s: Seq<A>, pred: spec_fn(A) -> bool, x: A)
    ensures
        s.push(x).filter(pred) == if pred(x) {
            s.filter(pred).push(x)
        } else {
            s.filter(pred)
        },
{
    reveal(Seq::filter);
    assert(s.push(x).drop_last() =~= s);
    assert(s.push(x).last() == x);
}

/// A filter whose predicate holds of every element returns its input whole.
proof fn lemma_filter_all<A>(s: Seq<A>, pred: spec_fn(A) -> bool)
    requires
        forall|i: int| 0 <= i < s.len() ==> pred(#[trigger] s[i]),
    ensures
        s.filter(pred) == s,
    decreases s.len(),
{
    reveal(Seq::filter);
    if s.len() > 0 {
        lemma_filter_all(s.drop_last(), pred);
        assert(pred(s.last()));
        assert(s.drop_last().push(s.last()) =~= s);
    }
}

/// A filter whose predicate holds of no element returns the empty sequence.
proof fn lemma_filter_none<A>(s: Seq<A>, pred: spec_fn(A) -> bool)
    requires
        forall|i: int| 0 <= i < s.len() ==> !pred(#[trigger] s[i]),
    ensures
        s.filter(pred) == Seq::<A>::empty(),
    decreases s.len(),
{
    reveal(Seq::filter);
    if s.len() > 0 {
        lemma_filter_none(s.drop_last(), pred);
        assert(!pred(s.last()));
    }
}

/// Law: the empty query matches every line, so searching for it returns
/// every line of the contents unchanged.
pub proof fn lemma_search_empty_query(contents: Seq<char>)
    ensures
        search_spec(Seq::<char>::empty(), contents) == text::lines_of(contents),
{
    let q = Seq::<char>::empty();
    let lines = text::lines_of(contents);
    let pred = |l: Seq<char>| text::has_substring(l, q);
    assert forall|i: int| 0 <= i < lines.len() implies pred(#[trigger] lines[i]) by {
        assert(lines[i].subrange(0, 0) =~= q);
        assert(text::match_at(lines[i], q, 0));
    }
    lemma_filter_all(lines, pred);
}

/// Law: the result of a search holds exactly the matching lines — every
/// returned line contains the query, and every line of the contents that
/// contains the query is returned.
pub proof fn lemma_search_characterization(query: Seq<char>, contents: Seq<char>)
    ensures
        forall|j: int| 0 <= j < search_spec(query, contents).len() ==> text::has_substring(
            #[trigger] search_spec(query, contents)[j],
            query,
        ),
        forall|i: int|
            0 <= i < text::lines_of(contents).len() && text::has_substring(
                #[trigger] text::lines_of(contents)[i],
                query,
            ) ==> search_spec(query, contents).contains(text::lines_of(contents)[i]),
{
    let lines = text::lines_of(contents);
    let pred = |l: Seq<char>| text::has_substring(l, query);
    assert forall|j: int|
        0 <= j < search_spec(query, contents).len() implies text::has_substring(
        #[trigger] search_spec(query, contents)[j],
        query,
    ) by {
        lines.lemma_filter_pred(pred, j);
    }
    assert forall|i: int|
        0 <= i < lines.len() && text::has_substring(
            #[trigger] lines[i],
            query,
        ) implies search_spec(query, contents).contains(lines[i]) by {
        lines.lemma_filter_contains(pred, i);
    }
}

/// Law: a line whose lowercased text contains the lowercased query is among
/// the results of the case-insensitive search, as the original line.
pub proof fn lemma_case_insensitive_includes(query: Seq<char>, contents: Seq<char>, i: int)
    requires
        0 <= i < text::lines_of(contents).len(),
        text::has_substring(
            text::lower_of(text::lines_of(contents)[i]),
            text::lower_of(query),
        ),
    ensures
        search_case_insensitive_spec(query, contents).contains(text::lines_of(contents)[i]),
{
    let lines = text::lines_of(contents);
    let pred = |l: Seq<char>| text::has_substring(text::lower_of(l), text::lower_of(query));
    lines.lemma_filter_contains(pred, i);
}

/// Law: searching is a pure function of the query and the contents — two
/// results of identical arguments are identical.
pub proof fn lemma_search_deterministic(
    query: Seq<char>,
    contents: Seq<char>,
    r1: Seq<Seq<char>>,
    r2: Seq<Seq<char>>,
)
    requires
        r1 == search_spec(query, contents),
        r2 == search_spec(query, contents),
    ensures
        r1 == r2,
{
}

/// Law: when no line of the contents contains the query, the result is the
/// empty sequence — an absence of matches, not an error.
pub proof fn lemma_search_no_matches(query: Seq<char>, contents: Seq<char>)
    requires
        forall|i: int| 0 <= i < text::lines_of(contents).len() ==> !text::has_substring(
            #[trigger] text::lines_of(contents)[i],
            query,
        ),
    ensures
        search_spec(query, contents) == Seq::<Seq<char>>::empty(),
{
    let lines = text::lines_of(contents);
    let pred = |l: Seq<char>| text::has_substring(l, query);
    lemma_filter_none(lines, pred);
}

/// Searches `contents` line by line for `query`, case-sensitively: the
/// result holds, in their original order and multiplicity, exactly the
/// lines that contain `query` as a contiguous substring.
pub fn search<'a>(query: &str, contents: &'a str) -> (r: Vec<&'a str>)
    ensures
        r@.map_values(|l: &str| l@) == search_spec(query@, contents@),
{
    let lines = text::split_lines(contents);
    let ghost lv = lines@.map_values(|l: &str| l@);
    let ghost pred = |l: Seq<char>| text::has_substring(l, query@);
    let mut r: Vec<&'a str> = Vec::new();
    let mut i: usize = 0;
    proof {
        assert(lv.subrange(0, 0) =~= Seq::<Seq<char>>::empty());
        reveal(Seq::filter);
        assert(r@.map_values(|l: &str| l@) =~= lv.subrange(0, 0).filter(pred));
    }
    while i < lines.len()
        invariant
            i <= lines@.len(),
            lv == lines@.map_values(|l: &str| l@),
            lv == text::lines_of(contents@),
            pred == (|l: Seq<char>| text::has_substring(l, query@)),
            r@.map_values(|l: &str| l@) == lv.subrange(0, i as int).filter(pred),
        decreases lines@.len() - i,
    {
        let line = lines[i];
        proof {
            assert(lv.subrange(0, i + 1) =~= lv.subrange(0, i as int).push(line@));
            lemma_filter_push(lv.subrange(0, i as int), pred, line@);
            if pred(line@) {
                assert(r@.push(line).map_values(|l: &str| l@) =~= r@.map_values(
                    |l: &str| l@,
                ).push(line@));
            }
        }
        if text::contains_substring(line, query) {
            r.push(line);
        }
        i += 1;
    }
    proof {
        assert(lv.subrange(0, lines@.len() as int) =~= lv);
    }
    r
}

/// Searches `contents` line by line for `query`, ignoring case: a line
/// matches when its lowercased text contains the lowercased query, and the
/// result holds the matching lines with their original case, in order.
pub fn search_case_insensitive<'a>(query: &str, contents: &'a str) -> (r: Vec<&'a str>)
    ensures
        r@.map_values(|l: &str| l@) == search_case_insensitive_spec(query@, contents@),
{
    let lowered_query = text::lowercase(query);
    let lines = text::split_lines(contents);
    let ghost lv = lines@.map_values(|l: &str| l@);
    let ghost pred = (|l: Seq<char>|
        text::has_substring(text::lower_of(l), text::lower_of(query@)));
    let mut r: Vec<&'a str> = Vec::new();
    let mut i: usize = 0;
    proof {
        assert(lv.subrange(0, 0) =~= Seq::<Seq<char>>::empty());
        reveal(Seq::filter);
        assert(r@.map_values(|l: &str| l@) =~= lv.subrange(0, 0).filter(pred));
    }
    while i < lines.len()
        invariant
            i <= lines@.len(),
            lv == lines@.map_values(|l: &str| l@),
            lv == text::lines_of(contents@),
            lowered_query@ == text::lower_of(query@),
            pred == (|l: Seq<char>|
                text::has_substring(text::lower_of(l), text::lower_of(query@))),
            r@.map_values(|l: &str| l@) == lv.subrange(0, i as int).filter(pred),
        decreases lines@.len() - i,
    {
        let line = lines[i];
        let lowered_line = text::lowercase(line);
        proof {
            assert(lv.subrange(0, i + 1) =~= lv.subrange(0, i as int).push(line@));
            lemma_filter_push(lv.subrange(0, i as int), pred, line@);
            if pred(line@) {
                assert(r@.push(line).map_values(|l: &str| l@) =~= r@.map_values(
                    |l: &str| l@,
                ).push(line@));
            }
        }
        if text::contains_substring(lowered_line.as_str(), lowered_query.as_str()) {
            r.push(line);
        }
        i += 1;
    }
    proof {
        assert(lv.subrange(0, lines@.len() as int) =~= lv);
    }
    r
}

/// Runs the search that `config` asks for over `contents`, already read
/// from the configured file: dispatches on the case-sensitivity setting and
/// returns the matching lines in order.
pub fn run<'a>(config: &Config, contents: &'a str) -> (r: Vec<&'a str>)
    ensures
        config.case_sensitive ==> r@.map_values(|l: &str| l@) == search_spec(
            config.query@,
            contents@,
        ),
        !config.case_sensitive ==> r@.map_values(|l: &str| l@) == search_case_insensitive_spec(
            config.query@,
            contents@,
        ),
{
    if config.case_sensitive {
        search(config.query.as_str(), contents)
    } else {
        search_case_insensitive(config.query.as_str(), contents)
    }
}

} // verus!
