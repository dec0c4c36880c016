//! Lines as they lie on disk: bytes, some of which may be no text.

use vstd::prelude::*;
use vstd::string::*;
use vstd::utf8::{
    decode_utf8, decode_utf8_encode_utf8, encode_scalar, encode_utf8, encode_utf8_decode_utf8, encode_utf8_valid_utf8,
    valid_utf8,
};

use crate::lines::{lemma_until_at, lemma_until_range, lines, strip_cr, until};
use crate::text::opt_text;

verus! {

/// A line feed.
pub const LINE_FEED: u8 = 10;

/// A carriage return.
pub const CARRIAGE_RETURN: u8 = 13;

/// A line without the carriage return that may stand before its line feed.
pub open spec fn strip_cr_byte(line: Seq<u8>) -> Seq<u8> {
    if line.len() > 0 && line.last() == CARRIAGE_RETURN {
        line.drop_last()
    } else {
        line
    }
}

/// The lines of a row of bytes: each ends at a line feed, with or without a
/// carriage return before it, and the last may end with the bytes.
pub open spec fn raw_lines(b: Seq<u8>) -> Seq<Seq<u8>>
    decreases b.len(),
    via raw_lines_shrinks
{
    let k = until(b, LINE_FEED);
    if b.len() == 0 {
        Seq::empty()
    } else if k < b.len() {
        seq![strip_cr_byte(b.take(k))] + raw_lines(b.skip(k + 1))
    } else {
        seq![b]
    }
}

#[via_fn]
proof fn raw_lines_shrinks(b: Seq<u8>) {
    lemma_until_range(b, LINE_FEED);
}

/// The text that a row of bytes holds, where it is UTF-8.
pub open spec fn text_of(b: Seq<u8>) -> Option<Seq<char>> {
    if valid_utf8(b) {
        Some(decode_utf8(b))
    } else {
        None
    }
}

/// The lines of a row of bytes, each as text, or as none where it is no UTF-8.
pub open spec fn raw_texts(b: Seq<u8>) -> Seq<Option<Seq<char>>> {
    raw_lines(b).map_values(|line: Seq<u8>| text_of(line))
}

/// The contents of a list of optional strings.
pub open spec fn opt_texts(list: Seq<Option<String>>) -> Seq<Option<Seq<char>>> {
    list.map_values(|s: Option<String>| opt_text(s))
}

/// `std::str::from_utf8`: the text that a row of bytes holds where it is valid
/// UTF-8, and an error, here none, exactly where it is not.
#[verifier::external_body]
fn read_text(b: &[u8]) -> (r: Option<String>)
    ensures
        opt_text(r) == text_of(b@),
{
    std::str::from_utf8(b).ok().map(|s| s.to_owned())
}

/// Copies a part of a row of bytes.
fn copy_bytes(b: &[u8], from: usize, to: usize) -> (r: Vec<u8>)
    requires
        from <= to <= b@.len(),
    ensures
        r@ == b@.subrange(from as int, to as int),
{
    let mut out: Vec<u8> = Vec::new();
    for i in from..to
        invariant
            from <= to <= b@.len(),
            out@ == b@.subrange(from as int, i as int),
    {
        out.push(b[i]);
        assert(b@.subrange(from as int, i as int + 1) =~= b@.subrange(from as int, i as int).push(
            b@[i as int],
        ));
    }
    out
}

/// Splits a row of bytes into its lines and reads each.
pub fn split_raw(b: &[u8]) -> (r: Vec<Option<String>>)
    ensures
        opt_texts(r@) == raw_texts(b@),
{
    let mut out: Vec<Option<String>> = Vec::new();
    let mut start: usize = 0;
    assert(b@.skip(0) =~= b@);
    assert(opt_texts(out@) + raw_texts(b@) =~= raw_texts(b@));
    for i in 0..b.len()
        invariant
            start <= i <= b@.len(),
            forall|j: int| start <= j < i ==> b@[j] != LINE_FEED,
            opt_texts(out@) + raw_texts(b@.skip(start as int)) == raw_texts(b@),
    {
        if b[i] == LINE_FEED {
            let ghost rest = b@.skip(start as int);
            let ghost k = i - start;
            let ghost before = out@;
            let end: usize = if i > start && b[i - 1] == CARRIAGE_RETURN {
                i - 1
            } else {
                i
            };
            let line: Vec<u8> = copy_bytes(b, start, end);
            let t = read_text(line.as_slice());
            proof {
                assert forall|j: int| 0 <= j < k implies rest[j] != LINE_FEED by {
                    assert(rest[j] == b@[start + j]);
                }
                lemma_until_at(rest, LINE_FEED, k);
                assert(line@ =~= strip_cr_byte(rest.take(k)));
                assert(rest.skip(k + 1) =~= b@.skip(i as int + 1));
                assert(raw_texts(rest) =~= seq![text_of(line@)] + raw_texts(
                    b@.skip(i as int + 1),
                ));
                assert(opt_texts(before.push(t)) =~= opt_texts(before).push(text_of(line@)));
                assert(opt_texts(before) + raw_texts(rest) =~= opt_texts(before.push(t))
                    + raw_texts(b@.skip(i as int + 1)));
            }
            out.push(t);
            start = i + 1;
        }
    }
    let ghost rest = b@.skip(start as int);
    if start < b.len() {
        let ghost before = out@;
        let line: Vec<u8> = copy_bytes(b, start, b.len());
        let t = read_text(line.as_slice());
        proof {
            assert forall|j: int| 0 <= j < rest.len() implies rest[j] != LINE_FEED by {
                assert(rest[j] == b@[start + j]);
            }
            lemma_until_at(rest, LINE_FEED, rest.len() as int);
            assert(line@ =~= rest);
            assert(raw_texts(rest) =~= seq![text_of(line@)]);
            assert(opt_texts(before.push(t)) =~= opt_texts(before).push(text_of(line@)));
            assert(opt_texts(before) + raw_texts(rest) =~= opt_texts(before.push(t)));
        }
        out.push(t);
    } else {
        assert(raw_texts(rest) =~= Seq::<Option<Seq<char>>>::empty());
        assert(opt_texts(out@) + raw_texts(rest) =~= opt_texts(out@));
    }
    out
}

// -------------------------------------------------------------------- lemmas

/// Encoding two texts one after the other encodes the joined text.
pub proof fn lemma_encode_concat(a: Seq<char>, b: Seq<char>)
    ensures
        encode_utf8(a + b) == encode_utf8(a) + encode_utf8(b),
    decreases a.len(),
{
    if a.len() == 0 {
        assert(a + b =~= b);
        assert(encode_utf8(a) + encode_utf8(b) =~= encode_utf8(b));
    } else {
        assert((a + b).drop_first() =~= a.drop_first() + b);
        lemma_encode_concat(a.drop_first(), b);
        assert(encode_utf8(a + b) =~= encode_utf8(a) + encode_utf8(b));
    }
}

/// A character below 128 is one byte, and all others are bytes from 128 on.
proof fn lemma_encode_scalar(v: u32)
    ensures
        v < 0x80 ==> encode_scalar(v) == seq![v as u8],
        v >= 0x80 ==> forall|i: int|
            0 <= i < encode_scalar(v).len() ==> #[trigger] encode_scalar(v)[i] >= 0x80,
        encode_scalar(v).len() > 0,
{
    assert(v < 0x80 ==> (v & 0x7F) as u8 == v as u8) by (bit_vector);
    assert((0xC0u8 | ((v >> 6) & 0x1F) as u8) >= 0x80) by (bit_vector);
    assert((0xE0u8 | ((v >> 12) & 0x0F) as u8) >= 0x80) by (bit_vector);
    assert((0xF0u8 | ((v >> 18) & 0x7) as u8) >= 0x80) by (bit_vector);
    assert((0x80u8 | (v & 0x3F) as u8) >= 0x80) by (bit_vector);
    assert((0x80u8 | ((v >> 6) & 0x3F) as u8) >= 0x80) by (bit_vector);
    assert((0x80u8 | ((v >> 12) & 0x3F) as u8) >= 0x80) by (bit_vector);
}

/// Different characters have different numbers.
proof fn lemma_char_numbers(a: char, b: char)
    ensures
        a as u32 == b as u32 ==> a == b,
{
}

/// A text of one character has the bytes of that character.
proof fn lemma_encode_one(c: char)
    ensures
        encode_utf8(seq![c]) == encode_scalar(c as u32),
{
    let none = Seq::<char>::empty();
    assert(seq![c].drop_first() =~= none);
    assert(encode_utf8(none) =~= Seq::<u8>::empty());
    assert(encode_utf8(seq![c]) =~= encode_scalar(c as u32));
}

/// The bytes of a text hold a byte below 128 where the text holds its character.
proof fn lemma_encode_holds(s: Seq<char>, c: char)
    requires
        (c as u32) < 0x80,
        !s.contains(c),
    ensures
        !encode_utf8(s).contains(c as u32 as u8),
    decreases s.len(),
{
    if s.len() > 0 {
        let rest = s.drop_first();
        let first = encode_scalar(s[0] as u32);
        assert(s[0] != c);
        lemma_char_numbers(s[0], c);
        assert forall|i: int| 0 <= i < rest.len() implies rest[i] != c by {
            assert(rest[i] == s[i + 1]);
        }
        lemma_encode_holds(rest, c);
        lemma_encode_scalar(s[0] as u32);
        let e = encode_utf8(s);
        assert forall|i: int| 0 <= i < e.len() implies e[i] != c as u32 as u8 by {
            if i < first.len() {
                assert(e[i] == first[i]);
                if (s[0] as u32) < 0x80 {
                    assert(first[i] == s[0] as u32 as u8);
                    assert(s[0] as u32 != c as u32);
                }
            } else {
                assert(e[i] == encode_utf8(rest)[i - first.len()]);
                assert(encode_utf8(rest).contains(e[i]));
            }
        }
    }
}

/// A line ends in a carriage return where its bytes do.
proof fn lemma_encode_strip_cr(s: Seq<char>)
    ensures
        strip_cr_byte(encode_utf8(s)) == encode_utf8(strip_cr(s)),
{
    if s.len() > 0 {
        let rest = s.drop_last();
        let one = seq![s.last()];
        let last = encode_scalar(s.last() as u32);
        assert(rest + one =~= s);
        lemma_encode_concat(rest, one);
        lemma_encode_one(s.last());
        lemma_char_numbers(s.last(), '\r');
        lemma_encode_scalar(s.last() as u32);
        let e = encode_utf8(s);
        assert(e.last() == last.last());
        assert(last.last() == last[last.len() - 1]);
        if s.last() == '\r' {
            assert(e.drop_last() =~= encode_utf8(rest));
        }
    }
}

/// The lines of a text, written as UTF-8, are the lines of its bytes.
pub proof fn law_text_is_split_alike(s: Seq<char>)
    ensures
        raw_texts(encode_utf8(s)) == lines(s).map_values(|line: Seq<char>| Some(line)),
    decreases s.len(),
{
    broadcast use {encode_utf8_valid_utf8, encode_utf8_decode_utf8};

    let e = encode_utf8(s);
    let k = until(s, '\n');
    let wrap = |line: Seq<char>| Some(line);
    lemma_until_range(s, '\n');
    if s.len() == 0 {
        assert(raw_texts(e) =~= lines(s).map_values(wrap));
    } else if k < s.len() {
        let line = s.take(k);
        let rest = s.skip(k + 1);
        let feed = seq!['\n'];
        assert(line + (feed + rest) =~= s);
        lemma_encode_concat(line, feed + rest);
        lemma_encode_concat(feed, rest);
        lemma_encode_one('\n');
        lemma_encode_scalar('\n' as u32);
        assert(encode_utf8(feed) =~= seq![LINE_FEED]);
        let el = encode_utf8(line);
        let n = el.len() as int;
        assert forall|i: int| 0 <= i < line.len() implies line[i] != '\n' by {
            assert(line[i] == s[i]);
        }
        lemma_encode_holds(line, '\n');
        assert(e =~= el + seq![LINE_FEED] + encode_utf8(rest));
        assert forall|i: int| 0 <= i < n implies e[i] != LINE_FEED by {
            assert(e[i] == el[i]);
            assert(el.contains(el[i]));
        }
        lemma_until_at(e, LINE_FEED, n);
        assert(e.take(n) =~= el);
        assert(e.skip(n + 1) =~= encode_utf8(rest));
        lemma_encode_strip_cr(line);
        law_text_is_split_alike(rest);
        assert(raw_texts(e) =~= seq![text_of(encode_utf8(strip_cr(line)))] + raw_texts(
            encode_utf8(rest),
        ));
        assert(lines(s).map_values(wrap) =~= seq![Some(strip_cr(line))] + lines(rest).map_values(
            wrap,
        ));
    } else {
        assert forall|i: int| 0 <= i < s.len() implies s[i] != '\n' by {}
        lemma_encode_holds(s, '\n');
        lemma_encode_scalar(s[0] as u32);
        assert forall|i: int| 0 <= i < e.len() implies e[i] != LINE_FEED by {
            assert(e.contains(e[i]));
        }
        lemma_until_at(e, LINE_FEED, e.len() as int);
        assert(raw_texts(e) =~= lines(s).map_values(wrap));
    }
}

/// Whether bytes are made of whole lines: none, or the last is a line feed.
pub open spec fn is_closed(b: Seq<u8>) -> bool {
    b.len() == 0 || b.last() == LINE_FEED
}

/// Whole lines are split apart from what follows them.
pub proof fn lemma_raw_texts_concat(a: Seq<u8>, b: Seq<u8>)
    requires
        is_closed(a),
    ensures
        raw_texts(a + b) == raw_texts(a) + raw_texts(b),
    decreases a.len(),
{
    if a.len() == 0 {
        assert(a + b =~= b);
        assert(raw_texts(a) + raw_texts(b) =~= raw_texts(b));
    } else {
        let k = until(a, LINE_FEED);
        lemma_until_range(a, LINE_FEED);
        if k == a.len() {
            assert(a[a.len() - 1] != LINE_FEED);
        }
        let c = a + b;
        assert forall|i: int| 0 <= i < k implies c[i] != LINE_FEED by {
            assert(c[i] == a[i]);
        }
        assert(c[k] == a[k]);
        lemma_until_at(c, LINE_FEED, k);
        let rest = a.skip(k + 1);
        if rest.len() > 0 {
            assert(rest.last() == a.last());
        }
        assert(c.take(k) =~= a.take(k));
        assert(c.skip(k + 1) =~= rest + b);
        lemma_raw_texts_concat(rest, b);
        let line = text_of(strip_cr_byte(a.take(k)));
        assert(raw_texts(c) =~= seq![line] + raw_texts(rest + b));
        assert(raw_texts(a) =~= seq![line] + raw_texts(rest));
        assert(raw_texts(c) =~= raw_texts(a) + raw_texts(b));
    }
}

/// One line, closed by its line feed.
pub proof fn lemma_raw_texts_line(line: Seq<u8>)
    requires
        !line.contains(LINE_FEED),
    ensures
        raw_texts(line.push(LINE_FEED)) == seq![text_of(strip_cr_byte(line))],
{
    let b = line.push(LINE_FEED);
    let k = line.len() as int;
    assert forall|i: int| 0 <= i < k implies b[i] != LINE_FEED by {
        assert(b[i] == line[i]);
        assert(line.contains(line[i]));
    }
    lemma_until_at(b, LINE_FEED, k);
    assert(b.take(k) =~= line);
    assert(b.skip(k + 1) =~= Seq::<u8>::empty());
    assert(raw_lines(Seq::<u8>::empty()) =~= Seq::<Seq<u8>>::empty());
    assert(raw_texts(b) =~= seq![text_of(strip_cr_byte(line))]);
}

/// A row of bytes is read as the text it encodes, and only as that; what encodes
/// none is not read.
pub proof fn law_bytes_are_read_as_text(s: Seq<char>, b: Seq<u8>)
    ensures
        text_of(encode_utf8(s)) == Some(s),
        !valid_utf8(b) ==> text_of(b) is None,
        text_of(b) matches Some(t) ==> encode_utf8(t) == b,
{
    broadcast use {encode_utf8_valid_utf8, encode_utf8_decode_utf8, decode_utf8_encode_utf8};

}

/// A line of bytes ends at its line feed, with or without a carriage return before
/// it, and the rest is split in the same way; bytes without a line feed are one
/// line.
pub proof fn law_raw_lines_end_at_line_feeds(line: Seq<u8>, rest: Seq<u8>)
    requires
        !line.contains(10u8),
    ensures
        raw_texts(Seq::empty()) == Seq::<Option<Seq<char>>>::empty(),
        line.len() > 0 ==> raw_texts(line) == seq![text_of(line)],
        raw_texts(line + seq![13u8, 10u8] + rest) == seq![text_of(line)] + raw_texts(rest),
        line.len() == 0 || line.last() != 13 ==> raw_texts(line + seq![10u8] + rest) == seq![
            text_of(line),
        ] + raw_texts(rest),
{
    assert(raw_texts(Seq::empty()) =~= Seq::<Option<Seq<char>>>::empty());
    assert forall|i: int| 0 <= i < line.len() implies line[i] != LINE_FEED by {
        assert(line.contains(line[i]));
    }
    lemma_until_at(line, LINE_FEED, line.len() as int);
    if line.len() > 0 {
        assert(raw_texts(line) =~= seq![text_of(line)]);
    }
    lemma_raw_texts_line(line);
    lemma_raw_texts_concat(line.push(LINE_FEED), rest);
    assert(line + seq![10u8] + rest =~= line.push(LINE_FEED) + rest);
    let longer = line.push(CARRIAGE_RETURN);
    assert forall|i: int| 0 <= i < longer.len() implies longer[i] != LINE_FEED by {
        if i < line.len() {
            assert(longer[i] == line[i]);
        }
    }
    lemma_raw_texts_line(longer);
    assert(longer.drop_last() =~= line);
    lemma_raw_texts_concat(longer.push(LINE_FEED), rest);
    assert(line + seq![13u8, 10u8] + rest =~= longer.push(LINE_FEED) + rest);
}

/// The contents of a list of optional texts are all that it holds.
pub proof fn law_optional_texts_are_whole(list: Seq<Option<String>>, i: int)
    requires
        0 <= i < list.len(),
    ensures
        opt_texts(list).len() == list.len(),
        opt_texts(list)[i] is Some <==> list[i] is Some,
        list[i] matches Some(t) ==> opt_texts(list)[i] == Some(t@),
{
}

} // verus!
