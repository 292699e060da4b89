//! The mathematical model of a text buffer: its lines, and containment of
//! one character sequence in another.
use vstd::prelude::*;
use vstd::utf8::*;

verus! {

broadcast use vstd::utf8::group_utf8_lib;

/// `query` occurs in `line` as a contiguous run of characters.
pub open spec fn contains(line: Seq<char>, query: Seq<char>) -> bool {
    exists|i: int|
        0 <= i && i + query.len() <= line.len() && #[trigger] line.subrange(i, i + query.len())
            == query
}

/// Number of characters before the first newline of `s`, or the length of
/// `s` when it holds no newline.
pub open spec fn first_line_len(s: Seq<char>) -> nat
    decreases s.len(),
{
    if s.len() == 0 || s[0] == '\n' {
        0
    } else {
        1 + first_line_len(s.drop_first())
    }
}

/// A run that a newline ends, without the carriage return that makes its
/// terminator `"\r\n"`, if there is one.
pub open spec fn strip_cr(run: Seq<char>) -> Seq<char> {
    if run.len() > 0 && run.last() == '\r' {
        run.drop_last()
    } else {
        run
    }
}

/// The lines of `s`: the runs between newlines, without their terminators,
/// which are `"\n"` or `"\r\n"`. A final run with no newline after it is a
/// line, as it stands; an empty text has none, and a terminator at the very
/// end opens no further line.
pub open spec fn lines_of(s: Seq<char>) -> Seq<Seq<char>>
    decreases s.len(),
{
    if s.len() == 0 {
        seq![]
    } else {
        let n = first_line_len(s);
        if n < s.len() {
            seq![strip_cr(s.subrange(0, n as int))] + lines_of(
                s.subrange(n + 1int, s.len() as int),
            )
        } else {
            seq![s]
        }
    }
}

/// The character views of a sequence of string slices.
pub open spec fn views(v: Seq<&str>) -> Seq<Seq<char>> {
    v.map_values(|l: &str| l@)
}

/// A text made of a run without newlines, a newline and a rest has that run
/// as its first line, less a final carriage return, followed by the lines of
/// the rest.
pub proof fn lemma_lines_of_split(a: Seq<char>, rest: Seq<char>)
    requires
        forall|j: int| 0 <= j < a.len() ==> a[j] != '\n',
    ensures
        lines_of(a + seq!['\n'] + rest) == seq![strip_cr(a)] + lines_of(rest),
{
    let s = a + seq!['\n'] + rest;
    lemma_first_line_len_of(a, rest);
    assert(s.subrange(0, a.len() as int) =~= a);
    assert(s.subrange(a.len() + 1int, s.len() as int) =~= rest);
}

proof fn lemma_first_line_len_of(a: Seq<char>, rest: Seq<char>)
    requires
        forall|j: int| 0 <= j < a.len() ==> a[j] != '\n',
    ensures
        first_line_len(a + seq!['\n'] + rest) == a.len(),
    decreases a.len(),
{
    let s = a + seq!['\n'] + rest;
    if a.len() == 0 {
        assert(s[0] == '\n');
    } else {
        assert(s.drop_first() =~= a.drop_first() + seq!['\n'] + rest);
        lemma_first_line_len_of(a.drop_first(), rest);
    }
}

/// A non-empty text without newlines is a single line.
pub proof fn lemma_lines_of_single(a: Seq<char>)
    requires
        a.len() > 0,
        forall|j: int| 0 <= j < a.len() ==> a[j] != '\n',
    ensures
        lines_of(a) == seq![a],
{
    lemma_first_line_len_no_newline(a);
}

proof fn lemma_first_line_len_no_newline(a: Seq<char>)
    requires
        forall|j: int| 0 <= j < a.len() ==> a[j] != '\n',
    ensures
        first_line_len(a) == a.len(),
    decreases a.len(),
{
    if a.len() > 0 {
        assert(a[0] != '\n');
        assert forall|j: int| 0 <= j < a.drop_first().len() implies a.drop_first()[j] != '\n' by {
            assert(a.drop_first()[j] == a[j + 1]);
        }
        lemma_first_line_len_no_newline(a.drop_first());
    }
}

/// The UTF-8 encoding of an ASCII character is the single byte of its code.
pub proof fn lemma_encode_ascii(ch: char)
    requires
        (ch as u32) < 128,
    ensures
        encode_utf8(seq![ch]) == seq![(ch as u32) as u8],
{
    let s = seq![ch];
    let c = s[0] as u32;
    assert(c < 128 ==> (c & 0x7F) as u8 == c as u8) by (bit_vector);
    assert(has_width_1_encoding(c));
    assert(encode_scalar(c) == seq![leading_byte_width_1(c)]);
    assert(s.drop_first() =~= Seq::<char>::empty());
    assert(encode_utf8(s.drop_first()) == Seq::<u8>::empty());
    assert(encode_utf8(s) == encode_scalar(c) + encode_utf8(s.drop_first()));
    assert(encode_utf8(s) =~= seq![c as u8]);
}

/// Encoding a concatenation concatenates the encodings.
pub proof fn lemma_encode_concat(a: Seq<char>, b: Seq<char>)
    ensures
        encode_utf8(a + b) == encode_utf8(a) + encode_utf8(b),
    decreases a.len(),
{
    if a.len() == 0 {
        assert(a + b =~= b);
        assert(encode_utf8(a) + encode_utf8(b) =~= encode_utf8(b));
    } else {
        assert((a + b).drop_first() =~= a.drop_first() + b);
        assert((a + b)[0] == a[0]);
        lemma_encode_concat(a.drop_first(), b);
        assert(encode_utf8(a + b) =~= encode_utf8(a) + encode_utf8(b));
    }
}

/// Characters whose encoding holds no byte 10 hold no newline.
pub proof fn lemma_no_newline_byte(c: Seq<char>)
    requires
        forall|j: int| 0 <= j < encode_utf8(c).len() ==> encode_utf8(c)[j] != 10u8,
    ensures
        forall|j: int| 0 <= j < c.len() ==> c[j] != '\n',
    decreases c.len(),
{
    if c.len() > 0 {
        let head = encode_scalar(c[0] as u32);
        let tail = encode_utf8(c.drop_first());
        assert(encode_utf8(c) == head + tail);
        if c[0] == '\n' {
            lemma_encode_ascii('\n');
            assert(encode_utf8(seq![c[0]]) == head + encode_utf8(seq![c[0]].drop_first()));
            assert(seq![c[0]].drop_first() =~= Seq::<char>::empty());
            assert(seq![c[0]] =~= seq!['\n']);
            assert(head =~= seq![10u8]);
            assert(encode_utf8(c)[0] == 10u8);
        }
        assert forall|j: int| 0 <= j < tail.len() implies tail[j] != 10u8 by {
            assert(encode_utf8(c)[head.len() + j] == tail[j]);
        }
        lemma_no_newline_byte(c.drop_first());
        assert forall|j: int| 0 <= j < c.len() implies c[j] != '\n' by {
            if j > 0 {
                assert(c[j] == c.drop_first()[j - 1]);
            }
        }
    }
}

} // verus!
