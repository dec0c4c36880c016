//! Splitting a text into lines, and writing lines out as a text.

use vstd::prelude::*;
use vstd::string::*;

use crate::text::{from_chars, lemma_texts_push, texts, to_chars};

verus! {

/// How many items of `s` stand before the first `c`: all of them where there is
/// none.
pub open spec fn until<T>(s: Seq<T>, c: T) -> int
    decreases s.len(),
{
    if s.len() == 0 || s[0] == c {
        0
    } else {
        1 + until(s.skip(1), c)
    }
}

/// A line without the carriage return that may stand before its line feed.
pub open spec fn strip_cr(line: Seq<char>) -> Seq<char> {
    if line.len() > 0 && line.last() == '\r' {
        line.drop_last()
    } else {
        line
    }
}

/// The lines of a text as `str::lines` gives them: each ends at a line feed,
/// with or without a carriage return before it, and the last may end with the
/// text.
pub open spec fn lines(s: Seq<char>) -> Seq<Seq<char>>
    decreases s.len(),
    via lines_shrinks
{
    let k = until(s, '\n');
    if s.len() == 0 {
        Seq::empty()
    } else if k < s.len() {
        seq![strip_cr(s.take(k))] + lines(s.skip(k + 1))
    } else {
        seq![s]
    }
}

#[via_fn]
proof fn lines_shrinks(s: Seq<char>) {
    lemma_until_range(s, '\n');
}

/// A list of lines as one text, each line closed by a line feed.
pub open spec fn framed(list: Seq<Seq<char>>) -> Seq<char>
    decreases list.len(),
{
    if list.len() == 0 {
        Seq::empty()
    } else {
        list[0].push('\n') + framed(list.skip(1))
    }
}

/// Whether a line survives being written and split again: it holds no line
/// feed and does not end in a carriage return.
pub open spec fn is_line(s: Seq<char>) -> bool {
    !s.contains('\n') && (s.len() > 0 ==> s.last() != '\r')
}

/// The count stays within the text.
pub proof fn lemma_until_range<T>(s: Seq<T>, c: T)
    ensures
        0 <= until(s, c) <= s.len(),
        until(s, c) < s.len() ==> s[until(s, c)] == c,
        forall|i: int| 0 <= i < until(s, c) ==> s[i] != c,
    decreases s.len(),
{
    if s.len() > 0 && s[0] != c {
        lemma_until_range(s.skip(1), c);
        assert forall|i: int| 0 <= i < until(s, c) implies s[i] != c by {
            if i > 0 {
                assert(s.skip(1)[i - 1] == s[i]);
            }
        }
    }
}

/// The count is where the character first stands.
pub proof fn lemma_until_at<T>(s: Seq<T>, c: T, k: int)
    requires
        0 <= k <= s.len(),
        forall|i: int| 0 <= i < k ==> s[i] != c,
        k < s.len() ==> s[k] == c,
    ensures
        until(s, c) == k,
{
    lemma_until_range(s, c);
    let u = until(s, c);
    if u < k {
        assert(s[u] != c);
    } else if k < u {
        assert(s[k] != c);
    }
}

/// The first line of a text that begins with a closed line, and the rest.
pub proof fn lemma_lines_first(line: Seq<char>, rest: Seq<char>)
    requires
        !line.contains('\n'),
    ensures
        lines(line.push('\n') + rest) == seq![strip_cr(line)] + lines(rest),
{
    let s = line.push('\n') + rest;
    let k = line.len() as int;
    assert forall|i: int| 0 <= i < k implies s[i] != '\n' by {
        assert(s[i] == line[i]);
    }
    lemma_until_at(s, '\n', k);
    assert(s.take(k) =~= line);
    assert(s.skip(k + 1) =~= rest);
}

/// Writing two lists one after the other writes the joined list.
pub proof fn lemma_framed_concat(a: Seq<Seq<char>>, b: Seq<Seq<char>>)
    ensures
        framed(a + b) == framed(a) + framed(b),
    decreases a.len(),
{
    if a.len() == 0 {
        assert(a + b =~= b);
        assert(framed(a) + framed(b) =~= framed(b));
    } else {
        assert((a + b).skip(1) =~= a.skip(1) + b);
        lemma_framed_concat(a.skip(1), b);
        assert(framed(a + b) =~= framed(a) + framed(b));
    }
}

/// One line written at the end of a written list writes the longer list.
pub proof fn lemma_framed_push(list: Seq<Seq<char>>, line: Seq<char>)
    ensures
        framed(list.push(line)) == framed(list) + line.push('\n'),
{
    lemma_framed_concat(list, seq![line]);
    assert(list + seq![line] =~= list.push(line));
    assert(seq![line].skip(1) =~= Seq::<Seq<char>>::empty());
    assert(framed(Seq::<Seq<char>>::empty()) =~= Seq::<char>::empty());
    assert(framed(seq![line]) =~= line.push('\n'));
}

/// Splitting a written list gives the list back.
pub proof fn lemma_lines_of_framed(list: Seq<Seq<char>>)
    requires
        forall|i: int| 0 <= i < list.len() ==> is_line(#[trigger] list[i]),
    ensures
        lines(framed(list)) == list,
    decreases list.len(),
{
    if list.len() > 0 {
        let rest = list.skip(1);
        assert forall|i: int| 0 <= i < rest.len() implies is_line(#[trigger] rest[i]) by {
            assert(rest[i] == list[i + 1]);
        }
        lemma_lines_of_framed(rest);
        assert(is_line(list[0]));
        lemma_lines_first(list[0], framed(rest));
        assert(seq![list[0]] + rest =~= list);
    }
}

/// Splits a text into its lines.
pub fn split_lines(raw: &str) -> (r: Vec<String>)
    ensures
        texts(r@) == lines(raw@),
{
    let c: Vec<char> = to_chars(raw);
    let mut out: Vec<String> = Vec::new();
    let mut start: usize = 0;
    assert(raw@.skip(0) =~= raw@);
    assert(texts(out@) + lines(raw@) =~= lines(raw@));
    for i in 0..c.len()
        invariant
            c@ == raw@,
            0 <= start <= i,
            i <= c@.len(),
            forall|j: int| start <= j < i ==> c@[j] != '\n',
            texts(out@) + lines(c@.skip(start as int)) == lines(c@),
    {
        if c[i] == '\n' {
            let end: usize = if start < i && c[i - 1] == '\r' {
                i - 1
            } else {
                i
            };
            let line = from_chars(&c, start, end);
            proof {
                let s = c@.skip(start as int);
                assert forall|j: int| 0 <= j < i - start implies s[j] != '\n' by {
                    assert(s[j] == c@[j + start]);
                }
                lemma_until_at(s, '\n', i - start);
                assert(s.take(i - start) =~= c@.subrange(start as int, i as int));
                assert(strip_cr(s.take(i - start)) =~= line@);
                assert(s.skip(i - start + 1) =~= c@.skip(i as int + 1));
                lemma_texts_push(out@, line);
                assert(texts(out@) + (seq![line@] + lines(c@.skip(i as int + 1))) =~= texts(
                    out@,
                ).push(line@) + lines(c@.skip(i as int + 1)));
            }
            out.push(line);
            start = i + 1;
        }
    }
    if start < c.len() {
        let line = from_chars(&c, start, c.len());
        proof {
            let s = c@.skip(start as int);
            assert forall|j: int| 0 <= j < s.len() implies s[j] != '\n' by {
                assert(s[j] == c@[j + start]);
            }
            lemma_until_at(s, '\n', s.len() as int);
            assert(line@ =~= s);
            lemma_texts_push(out@, line);
            assert(texts(out@) + seq![line@] =~= texts(out@).push(line@));
        }
        out.push(line);
    } else {
        assert(texts(out@) + lines(c@.skip(start as int)) =~= texts(out@));
    }
    out
}

/// Writes one line out, closed by a line feed.
pub fn frame_line(line: &str) -> (r: String)
    ensures
        r@ == framed(seq![line@]),
{
    let mut out = line.to_owned();
    out.push('\n');
    proof {
        lemma_framed_push(Seq::empty(), line@);
        assert(Seq::<Seq<char>>::empty().push(line@) =~= seq![line@]);
        assert(framed(seq![line@]) =~= line@.push('\n'));
    }
    out
}

/// Writes a list of lines out, each closed by a line feed.
pub fn frame_lines(list: &Vec<String>) -> (r: String)
    ensures
        r@ == framed(texts(list@)),
{
    let mut out = String::new();
    for i in 0..list.len()
        invariant
            out@ == framed(texts(list@).take(i as int)),
    {
        proof {
            let done = texts(list@).take(i as int);
            lemma_framed_push(done, list@[i as int]@);
            assert(texts(list@).take(i as int + 1) =~= done.push(list@[i as int]@));
            assert(framed(done) + list@[i as int]@.push('\n') =~= (framed(done)
                + list@[i as int]@).push('\n'));
        }
        out.append(list[i].as_str());
        out.push('\n');
    }
    assert(texts(list@).take(list@.len() as int) =~= texts(list@));
    out
}

// ---------------------------------------------------------------------- laws

/// A line ends at its line feed, with or without a carriage return before it, and
/// the rest is split in the same way; a text without a line feed is one line.
pub proof fn law_lines_end_at_line_feeds(line: Seq<char>, rest: Seq<char>)
    requires
        !line.contains('\n'),
    ensures
        lines(Seq::<char>::empty()) == Seq::<Seq<char>>::empty(),
        line.len() > 0 ==> lines(line) == seq![line],
        lines(line + seq!['\r', '\n'] + rest) == seq![line] + lines(rest),
        line.len() == 0 || line.last() != '\r' ==> lines(line + seq!['\n'] + rest) == seq![line]
            + lines(rest),
{
    assert forall|i: int| 0 <= i < line.len() implies line[i] != '\n' by {
        assert(line.contains(line[i]));
    }
    lemma_until_at(line, '\n', line.len() as int);
    lemma_lines_first(line, rest);
    assert(line + seq!['\n'] + rest =~= line.push('\n') + rest);
    let longer = line.push('\r');
    assert forall|i: int| 0 <= i < longer.len() implies longer[i] != '\n' by {
        if i < line.len() {
            assert(longer[i] == line[i]);
        }
    }
    lemma_lines_first(longer, rest);
    assert(longer.drop_last() =~= line);
    assert(line + seq!['\r', '\n'] + rest =~= longer.push('\n') + rest);
}

/// Lines are written one after the other, each closed by a line feed.
pub proof fn law_lines_are_closed(list: Seq<Seq<char>>, line: Seq<char>)
    ensures
        framed(Seq::<Seq<char>>::empty()) == Seq::<char>::empty(),
        framed(list.push(line)) == framed(list) + line + seq!['\n'],
{
    lemma_framed_push(list, line);
    assert(framed(list) + line.push('\n') =~= framed(list) + line + seq!['\n']);
}

} // verus!
