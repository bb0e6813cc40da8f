//! The character-level model of the search: substring containment and
//! splitting text into lines, together with the verified primitives that
//! implement both on `&str` values.
use vstd::prelude::*;
use vstd::string::StrSliceExecFns;

verus! {

/// `needle` occurs in `hay` starting exactly at index `i`.
pub open spec fn match_at(hay: Seq<char>, needle: Seq<char>, i: int) -> bool {
    &&& 0 <= i
    &&& i + needle.len() <= hay.len()
    &&& hay.subrange(i, i + needle.len() as int) == needle
}

/// `needle` occurs somewhere in `hay` as a contiguous run of characters.
pub open spec fn has_substring(hay: Seq<char>, needle: Seq<char>) -> bool {
    exists|i: int| match_at(hay, needle, i)
}

/// Compares `needle` against the characters of `hay` beginning at `i`.
fn matches_at(hay: &str, needle: &str, i: usize, m: usize) -> (r: bool)
    requires
        m == needle@.len(),
        i + m <= hay@.len(),
        hay@.len() <= usize::MAX,
    ensures
        r == match_at(hay@, needle@, i as int),
{
    let mut j: usize = 0;
    while j < m
        invariant
            j <= m,
            m == needle@.len(),
            i + m <= hay@.len(),
            hay@.len() <= usize::MAX,
            forall|k: int| 0 <= k < j ==> hay@[i + k] == needle@[k],
        decreases m - j,
    {
        let hc = hay.get_char(i + j);
        let nc = needle.get_char(j);
        if hc != nc {
            proof {
                assert(hay@.subrange(i as int, i + m) != needle@) by {
                    assert(hay@.subrange(i as int, i + m)[j as int] == hay@[i + j]);
                }
            }
            return false;
        }
        j += 1;
    }
    proof {
        assert(hay@.subrange(i as int, i + m) =~= needle@);
    }
    true
}

/// Decides substring containment: whether `needle` occurs anywhere in `hay`.
pub fn contains_substring(hay: &str, needle: &str) -> (r: bool)
    ensures
        r == has_substring(hay@, needle@),
{
    let n = hay.unicode_len();
    let m = needle.unicode_len();
    if m == 0 {
        proof {
            assert(hay@.subrange(0, 0) =~= needle@);
            assert(match_at(hay@, needle@, 0));
        }
        return true;
    }
    if m > n {
        return false;
    }
    let mut i: usize = 0;
    while i <= n - m
        invariant
            n == hay@.len(),
            m == needle@.len(),
            0 < m <= n,
            i <= n,
            forall|k: int| 0 <= k < i ==> !match_at(hay@, needle@, k),
        decreases n - i,
    {
        if matches_at(hay, needle, i, m) {
            return true;
        }
        i += 1;
    }
    proof {
        assert forall|k: int| !match_at(hay@, needle@, k) by {
            if i <= k {
                assert(k + m > n);
            }
        }
    }
    false
}

/// The lines of `s`, in order, splitting on `'\n'`.
///
/// A trailing line without a terminator is still a line, and a trailing
/// `'\n'` does not open an empty final line, so the empty text has no lines.
pub open spec fn lines_of(s: Seq<char>) -> Seq<Seq<char>>
    decreases s.len(),
{
    if s.len() == 0 {
        Seq::empty()
    } else if s[0] == '\n' {
        seq![Seq::<char>::empty()] + lines_of(s.skip(1))
    } else {
        let rest = lines_of(s.skip(1));
        if rest.len() == 0 {
            seq![s]
        } else {
            seq![seq![s[0]] + rest[0]] + rest.skip(1)
        }
    }
}

/// Text without a line break is a single line, unless it is empty.
pub proof fn lemma_lines_of_no_newline(s: Seq<char>)
    requires
        forall|k: int| 0 <= k < s.len() ==> s[k] != '\n',
    ensures
        lines_of(s) == if s.len() == 0 {
            Seq::<Seq<char>>::empty()
        } else {
            (seq![s])
        },
    decreases s.len(),
{
    if s.len() > 0 {
        lemma_lines_of_no_newline(s.skip(1));
        if s.len() > 1 {
            assert(seq![s[0]] + s.skip(1) =~= s);
        }
    }
}

/// Splitting starts over after the first line break: a break-free prefix,
/// the break itself, and the remainder yield that prefix as the first line
/// followed by the lines of the remainder.
pub proof fn lemma_lines_of_unfold(pre: Seq<char>, rest: Seq<char>)
    requires
        forall|k: int| 0 <= k < pre.len() ==> pre[k] != '\n',
    ensures
        lines_of(pre + seq!['\n'] + rest) == seq![pre] + lines_of(rest),
    decreases pre.len(),
{
    let s = pre + seq!['\n'] + rest;
    if pre.len() == 0 {
        assert(s[0] == '\n');
        assert(s.skip(1) =~= rest);
        assert(pre =~= Seq::<char>::empty());
        assert(lines_of(s) == seq![pre] + lines_of(rest));
    } else {
        assert(s.skip(1) =~= pre.skip(1) + seq!['\n'] + rest);
        lemma_lines_of_unfold(pre.skip(1), rest);
        let inner = lines_of(s.skip(1));
        assert(inner == seq![pre.skip(1)] + lines_of(rest));
        assert(inner.len() > 0);
        assert(seq![s[0]] + inner[0] =~= pre);
        assert(lines_of(s) =~= seq![pre] + lines_of(rest)) by {
            assert(inner.skip(1) =~= lines_of(rest));
        }
    }
}

/// What lowercasing a string yields: the result depends on the characters
/// of the input alone.
pub uninterp spec fn lower_of(s: Seq<char>) -> Seq<char>;

/// Relies on `str::to_lowercase` of std for the lowercased text; the
/// mapping is a fixed, locale-independent function of the characters.
#[verifier::external_body]
pub(crate) fn lowercase(s: &str) -> (r: String)
    ensures
        r@ == lower_of(s@),
{
    s.to_lowercase()
}

/// Splits `s` into its lines, each a view into `s` itself.
pub fn split_lines<'a>(s: &'a str) -> (r: Vec<&'a str>)
    ensures
        r@.map_values(|l: &str| l@) == lines_of(s@),
{
    let n = s.unicode_len();
    let mut r: Vec<&'a str> = Vec::new();
    let mut start: usize = 0;
    let mut i: usize = 0;
    proof {
        assert(s@.skip(0) =~= s@);
        assert(r@.map_values(|l: &str| l@) + lines_of(s@) =~= lines_of(s@));
    }
    while i < n
        invariant
            n == s@.len(),
            start <= i <= n,
            forall|k: int| start <= k < i ==> s@[k] != '\n',
            lines_of(s@) == r@.map_values(|l: &str| l@) + lines_of(s@.skip(start as int)),
        decreases n - i,
    {
        if s.get_char(i) == '\n' {
            let line = s.substring_char(start, i);
            proof {
                let pre = s@.subrange(start as int, i as int);
                let rest = s@.skip(i + 1);
                assert(s@.skip(start as int) =~= pre + seq!['\n'] + rest);
                lemma_lines_of_unfold(pre, rest);
                assert(r@.push(line).map_values(|l: &str| l@) =~= r@.map_values(
                    |l: &str| l@,
                ).push(line@));
                assert(r@.map_values(|l: &str| l@).push(pre) + lines_of(rest) =~= r@.map_values(
                    |l: &str| l@,
                ) + (seq![pre] + lines_of(rest)));
            }
            r.push(line);
            start = i + 1;
        }
        i += 1;
    }
    proof {
        lemma_lines_of_no_newline(s@.skip(start as int));
    }
    if start < n {
        let line = s.substring_char(start, n);
        proof {
            assert(s@.skip(start as int) =~= line@);
            assert(r@.push(line).map_values(|l: &str| l@) =~= r@.map_values(|l: &str| l@).push(
                line@,
            ));
            assert(r@.map_values(|l: &str| l@).push(line@) =~= r@.map_values(|l: &str| l@) + seq![
                line@,
            ]);
        }
        r.push(line);
    } else {
        proof {
            assert(s@.skip(start as int) =~= Seq::<char>::empty());
            assert(r@.map_values(|l: &str| l@) + Seq::<Seq<char>>::empty() =~= r@.map_values(
                |l: &str| l@,
            ));
        }
    }
    r
}

} // verus!
