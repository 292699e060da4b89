//! The line scanner: one traversal of a text's lines, parameterised by a
//! matcher, and the exact and case-folded matchers built on it.
use vstd::prelude::*;
use vstd::string::StringSliceAdditionalSpecFns;
use vstd::utf8::*;
use crate::config::Config;
use crate::text::{
    contains, lemma_encode_ascii, lemma_encode_concat, lemma_lines_of_single,
    lemma_lines_of_split, lemma_no_newline_byte, lines_of, strip_cr, views,
};

verus! {

broadcast use vstd::utf8::group_utf8_lib;

/// What `str::to_lowercase` makes of a sequence of characters.
pub uninterp spec fn lower_of(s: Seq<char>) -> Seq<char>;

/// The predicate of exact search: a line matches when it contains `query`.
pub open spec fn matches_exact(query: Seq<char>) -> spec_fn(Seq<char>) -> bool {
    |line: Seq<char>| contains(line, query)
}

/// The predicate of case-insensitive search: a line matches when its
/// lowercase form contains the lowercase form of `query`.
pub open spec fn matches_folded(query: Seq<char>) -> spec_fn(Seq<char>) -> bool {
    |line: Seq<char>| contains(lower_of(line), lower_of(query))
}

/// Relies on `str::to_lowercase`: the result depends on the characters of
/// `s` alone, and the empty string stays empty.
#[verifier::external_body]
fn lowercase(s: &str) -> (r: String)
    ensures
        r@ == lower_of(s@),
        s@.len() == 0 ==> r@.len() == 0,
{
    s.to_lowercase()
}

/// The characters of `s`, in order.
fn chars_of(s: &str) -> (r: Vec<char>)
    ensures
        r@ == s@,
{
    let mut out: Vec<char> = Vec::new();
    for c in it: s.chars()
        invariant
            out@ == it.history(),
    {
        out.push(c);
    }
    out
}

/// Whether `query` occurs in `line` as a contiguous run of characters.
fn contains_chars(line: &Vec<char>, query: &Vec<char>) -> (r: bool)
    ensures
        r == contains(line@, query@),
{
    let n = line.len();
    let m = query.len();
    if m > n {
        return false;
    }
    let mut i: usize = 0;
    while i <= n - m
        invariant
            n == line@.len(),
            m == query@.len(),
            m <= n,
            i <= n - m + 1,
            forall|k: int| 0 <= k < i ==> #[trigger] line@.subrange(k, k + m) != query@,
        decreases n - i,
    {
        let mut j: usize = 0;
        while j < m && line[i + j] == query[j]
            invariant
                n == line@.len(),
                m == query@.len(),
                i + m <= n,
                j <= m,
                forall|t: int| 0 <= t < j ==> line@[i + t] == query@[t],
            decreases m - j,
        {
            j = j + 1;
        }
        if j == m {
            assert(line@.subrange(i as int, i + m) =~= query@);
            return true;
        }
        assert(line@.subrange(i as int, i + m)[j as int] != query@[j as int]);
        i = i + 1;
    }
    false
}

/// Whether `query` occurs in `line`. With both arguments lowercased, this is
/// the test of case-insensitive search.
pub fn line_contains(line: &str, query: &str) -> (r: bool)
    ensures
        r == contains(line@, query@),
{
    let l = chars_of(line);
    let q = chars_of(query);
    contains_chars(&l, &q)
}

/// Splits off the first line of a non-empty text: the line, without its
/// terminator, and the text after that terminator if there is one.
fn split_first_line<'a>(rest: &'a str) -> (r: (&'a str, Option<&'a str>))
    requires
        rest@.len() > 0,
    ensures
        match r.1 {
            Some(next) => {
                &&& lines_of(rest@) == seq![r.0@] + lines_of(next@)
                &&& next@.len() < rest@.len()
            },
            None => lines_of(rest@) == seq![r.0@],
        },
{
    let bytes = rest.as_bytes();
    let len = bytes.len();
    let mut n: usize = 0;
    while n < len && bytes[n] != 10u8
        invariant
            len == bytes@.len(),
            n <= len,
            forall|j: int| 0 <= j < n ==> bytes@[j] != 10u8,
        decreases len - n,
    {
        n = n + 1;
    }
    proof {
        assert(bytes@ == encode_utf8(rest@));
        assert(decode_utf8(bytes@) == rest@);
    }
    if n == len {
        proof {
            lemma_no_newline_byte(rest@);
            lemma_lines_of_single(rest@);
        }
        return (rest, None);
    }
    proof {
        is_char_boundary_iff_not_is_continuation_byte(bytes@, n as int);
    }
    let (run, tail) = rest.split_at(n);
    let ghost tb = tail.spec_bytes();
    let ghost lb = run.spec_bytes();
    proof {
        assert(tb =~= bytes@.subrange(n as int, len as int));
        valid_utf8_split(bytes@, n as int);
        decode_utf8_split(bytes@, n as int);
        assert(lb =~= bytes@.subrange(0, n as int));
        assert forall|j: int| 0 <= j < encode_utf8(run@).len() implies encode_utf8(run@)[j]
            != 10u8 by {
            assert(encode_utf8(run@)[j] == bytes@[j]);
        }
        lemma_no_newline_byte(run@);
        assert(decode_utf8(lb) == run@);
        assert(decode_utf8(tb) == tail@);
        assert(rest@ == run@ + tail@);
        assert(tb[0] == 10u8);
        assert(is_char_boundary(tb, 1)) by {
            reveal_with_fuel(is_char_boundary, 2);
        }
    }
    let (newline, next) = tail.split_at(1);
    proof {
        decode_utf8_split(tb, 1);
        lemma_encode_ascii('\n');
        assert(newline.spec_bytes() =~= seq![10u8]);
        assert(newline@ == decode_utf8(encode_utf8(seq!['\n'])));
        assert(decode_utf8(next.spec_bytes()) == next@);
        assert(tail@ == newline@ + next@);
        assert(rest@ =~= run@ + seq!['\n'] + next@);
        lemma_lines_of_split(run@, next@);
    }
    if n > 0 && bytes[n - 1] == 13u8 {
        proof {
            is_char_boundary_iff_not_is_continuation_byte(lb, n - 1);
        }
        let (line, cr) = run.split_at(n - 1);
        proof {
            decode_utf8_split(lb, n - 1);
            lemma_encode_ascii('\r');
            assert(cr.spec_bytes() =~= seq![13u8]);
            assert(cr@ == decode_utf8(encode_utf8(seq!['\r'])));
            assert(decode_utf8(line.spec_bytes()) == line@);
            assert(run@ == line@ + cr@);
            assert(strip_cr(run@) =~= line@);
        }
        return (line, Some(next));
    }
    proof {
        if run@.len() > 0 && run@.last() == '\r' {
            let a = run@.drop_last();
            assert(run@ =~= a + seq!['\r']);
            lemma_encode_concat(a, seq!['\r']);
            lemma_encode_ascii('\r');
            assert(lb[lb.len() - 1] == 13u8);
            assert(n > 0);
        }
        assert(strip_cr(run@) == run@);
    }
    (run, Some(next))
}

/// The lines of `contents` that `matcher` accepts, in order. The two search
/// modes share this traversal and differ only in the matcher they hand it.
fn closure_search<'a, F: Fn(&'a str) -> bool>(
    matcher: F,
    Ghost(pred): Ghost<spec_fn(Seq<char>) -> bool>,
    contents: &'a str,
) -> (r: Vec<&'a str>)
    requires
        forall|l: &'a str| #[trigger] matcher.requires((l,)),
        forall|l: &'a str, b: bool| matcher.ensures((l,), b) ==> b == pred(l@),
    ensures
        views(r@) == lines_of(contents@).filter(pred),
{
    let mut out: Vec<&'a str> = Vec::new();
    let mut rest: &'a str = contents;
    let ghost mut done: Seq<Seq<char>> = seq![];
    while !rest.is_empty()
        invariant_except_break
            lines_of(contents@) == done + lines_of(rest@),
        invariant
            forall|l: &'a str| #[trigger] matcher.requires((l,)),
            forall|l: &'a str, b: bool| matcher.ensures((l,), b) ==> b == pred(l@),
            views(out@) == done.filter(pred),
        ensures
            lines_of(contents@) == done,
        decreases rest@.len(),
    {
        let (line, next) = split_first_line(rest);
        let keep = matcher(line);
        proof {
            done.lemma_filter_push(line@, pred);
        }
        if keep {
            out.push(line);
        }
        proof {
            assert(views(out@) =~= done.push(line@).filter(pred));
            done = done.push(line@);
        }
        match next {
            Some(nx) => {
                proof {
                    assert(lines_of(contents@) =~= done + lines_of(nx@));
                }
                rest = nx;
            },
            None => {
                proof {
                    assert(lines_of(contents@) =~= done);
                }
                break ;
            },
        }
    }
    out
}

/// The lines of `contents` that contain `query`, in the order they appear.
/// An empty query keeps every line; an empty text has no lines.
pub fn search<'a>(query: &str, contents: &'a str) -> (r: Vec<&'a str>)
    ensures
        views(r@) == lines_of(contents@).filter(matches_exact(query@)),
        query@.len() == 0 ==> views(r@) == lines_of(contents@),
        contents@.len() == 0 ==> r@.len() == 0,
{
    let q = chars_of(query);
    let matcher = |line: &'a str| -> (b: bool)
        ensures
            b == contains(line@, q@),
        {
            let l = chars_of(line);
            contains_chars(&l, &q)
        };
    let r = closure_search(matcher, Ghost(matches_exact(query@)), contents);
    proof {
        if query@.len() == 0 {
            lemma_empty_query_keeps_all(lines_of(contents@), query@);
        }
        lemma_empty_text_no_lines(contents@, matches_exact(query@));
    }
    r
}

/// The lines of `contents` that contain `query` when both are lowercased,
/// in the order they appear. Each line is lowercased on its own; the lines
/// returned are those of `contents`, as they stand there.
pub fn search_case_insensitive<'a>(query: &str, contents: &'a str) -> (r: Vec<&'a str>)
    ensures
        views(r@) == lines_of(contents@).filter(matches_folded(query@)),
        query@.len() == 0 ==> views(r@) == lines_of(contents@),
        contents@.len() == 0 ==> r@.len() == 0,
{
    let folded = lowercase(query);
    let matcher = |line: &'a str| -> (b: bool)
        ensures
            b == contains(lower_of(line@), folded@),
        {
            let l = lowercase(line);
            line_contains(l.as_str(), folded.as_str())
        };
    let r = closure_search(matcher, Ghost(matches_folded(query@)), contents);
    proof {
        if query@.len() == 0 {
            lemma_folded_empty_keeps_all(lines_of(contents@), query@);
        }
        lemma_empty_text_no_lines(contents@, matches_folded(query@));
    }
    r
}

proof fn lemma_empty_query_keeps_all(lines: Seq<Seq<char>>, query: Seq<char>)
    requires
        query.len() == 0,
    ensures
        lines.filter(matches_exact(query)) == lines,
{
    assert forall|l: Seq<char>| #[trigger] matches_exact(query)(l) by {
        assert(l.subrange(0int, 0int + query.len()) =~= query);
        assert(contains(l, query));
    }
    lemma_filter_all(lines, matches_exact(query));
}

proof fn lemma_folded_empty_keeps_all(lines: Seq<Seq<char>>, query: Seq<char>)
    requires
        lower_of(query).len() == 0,
    ensures
        lines.filter(matches_folded(query)) == lines,
{
    assert forall|l: Seq<char>| #[trigger] matches_folded(query)(l) by {
        assert(lower_of(l).subrange(0int, 0int + lower_of(query).len()) =~= lower_of(query));
        assert(contains(lower_of(l), lower_of(query)));
    }
    lemma_filter_all(lines, matches_folded(query));
}

/// An empty text has no lines, so nothing is kept from it.
proof fn lemma_empty_text_no_lines(contents: Seq<char>, p: spec_fn(Seq<char>) -> bool)
    ensures
        contents.len() == 0 ==> lines_of(contents).filter(p).len() == 0,
{
    if contents.len() == 0 {
        assert(lines_of(contents) =~= Seq::<Seq<char>>::empty());
        reveal(Seq::filter);
        assert(lines_of(contents).filter(p) =~= Seq::<Seq<char>>::empty());
    }
}

/// Filtering by a predicate that holds everywhere keeps every element.
proof fn lemma_filter_all(lines: Seq<Seq<char>>, p: spec_fn(Seq<char>) -> bool)
    requires
        forall|l: Seq<char>| #[trigger] p(l),
    ensures
        lines.filter(p) == lines,
    decreases lines.len(),
{
    reveal(Seq::filter);
    if lines.len() > 0 {
        lemma_filter_all(lines.drop_last(), p);
        assert(lines.drop_last().push(lines.last()) =~= lines);
    } else {
        assert(lines.filter(p) =~= lines);
    }
}

/// The predicate that `config` asks for: exact, or with case folded.
pub open spec fn matches_for(config: &Config) -> spec_fn(Seq<char>) -> bool {
    if config.case_sensitive {
        matches_exact(config.query@)
    } else {
        matches_folded(config.query@)
    }
}

/// The lines of `contents` that match the query of `config`, in the mode it
/// asks for, in the order they appear.
pub fn scan<'a>(config: &Config, contents: &'a str) -> (r: Vec<&'a str>)
    ensures
        views(r@) == lines_of(contents@).filter(matches_for(config)),
        config.query@.len() == 0 ==> views(r@) == lines_of(contents@),
        contents@.len() == 0 ==> r@.len() == 0,
{
    if config.case_sensitive {
        search(config.query.as_str(), contents)
    } else {
        search_case_insensitive(config.query.as_str(), contents)
    }
}

/// Soundness and completeness of exact search: every line kept contains
/// the query, and every line of the text that contains it is kept, in the
/// order of the text.
pub proof fn exact_search_keeps_exactly_matching_lines(text: Seq<char>, query: Seq<char>)
    ensures
        ({
            let kept = lines_of(text).filter(matches_exact(query));
            &&& forall|i: int| 0 <= i < kept.len() ==> contains(#[trigger] kept[i], query)
            &&& forall|l: Seq<char>|
                lines_of(text).contains(l) && contains(l, query) ==> #[trigger] kept.contains(l)
        }),
{
    lemma_filter_sound_complete(lines_of(text), matches_exact(query));
}

/// Soundness and completeness of case-insensitive search: every line kept
/// contains the query once both are lowercased, and every line of the text
/// that does is kept, in the order of the text.
pub proof fn folded_search_keeps_exactly_matching_lines(text: Seq<char>, query: Seq<char>)
    ensures
        ({
            let kept = lines_of(text).filter(matches_folded(query));
            &&& forall|i: int|
                0 <= i < kept.len() ==> contains(lower_of(#[trigger] kept[i]), lower_of(query))
            &&& forall|l: Seq<char>|
                lines_of(text).contains(l) && contains(lower_of(l), lower_of(query))
                    ==> #[trigger] kept.contains(l)
        }),
{
    lemma_filter_sound_complete(lines_of(text), matches_folded(query));
}

proof fn lemma_filter_sound_complete(lines: Seq<Seq<char>>, p: spec_fn(Seq<char>) -> bool)
    ensures
        forall|i: int| 0 <= i < lines.filter(p).len() ==> p(#[trigger] lines.filter(p)[i]),
        forall|l: Seq<char>| lines.contains(l) && p(l) ==> #[trigger] lines.filter(p).contains(l),
{
    broadcast use vstd::seq_lib::group_filter_ensures;

}

/// An empty text yields no lines, whatever the query and the mode.
pub proof fn empty_text_yields_nothing(query: Seq<char>)
    ensures
        lines_of(Seq::<char>::empty()).filter(matches_exact(query)).len() == 0,
        lines_of(Seq::<char>::empty()).filter(matches_folded(query)).len() == 0,
{
    lemma_empty_text_no_lines(Seq::<char>::empty(), matches_exact(query));
    lemma_empty_text_no_lines(Seq::<char>::empty(), matches_folded(query));
}

/// With an empty query, exact search keeps every line of the text.
pub proof fn empty_query_keeps_every_line(text: Seq<char>)
    ensures
        lines_of(text).filter(matches_exact(Seq::<char>::empty())) == lines_of(text),
{
    lemma_empty_query_keeps_all(lines_of(text), Seq::<char>::empty());
}

} // verus!
