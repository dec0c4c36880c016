//! Putting texts together and comparing them.

use vstd::prelude::*;
use vstd::string::*;

use crate::text::{char_to_lower, texts, to_chars, to_lower};

verus! {

/// What `str::to_lowercase` makes of a text.
pub uninterp spec fn lowercase(s: Seq<char>) -> Seq<char>;

/// `str::to_lowercase`, the Unicode lower-case mapping of a text: its result is
/// given the name [`lowercase`] and nothing more is said of it.
pub assume_specification[ str::to_lowercase ](s: &str) -> (r: String)
    ensures
        r@ == lowercase(s@),
;

// ---------------------------------------------------------------- comparison

/// A text with its ASCII letters in lower case.
pub open spec fn lowered(s: Seq<char>) -> Seq<char> {
    s.map_values(|c: char| to_lower(c))
}

/// Whether two texts differ in the case of ASCII letters at most.
pub open spec fn same_ignoring_case(a: Seq<char>, b: Seq<char>) -> bool {
    lowered(a) == lowered(b)
}

/// Whether `a` stands before `b` in the order of code points.
pub open spec fn text_before(a: Seq<char>, b: Seq<char>) -> bool
    decreases a.len(),
{
    if b.len() == 0 {
        false
    } else if a.len() == 0 {
        true
    } else if a[0] != b[0] {
        a[0] < b[0]
    } else {
        text_before(a.skip(1), b.skip(1))
    }
}

/// Two texts cannot each stand before the other.
pub proof fn lemma_text_before_asymmetric(a: Seq<char>, b: Seq<char>)
    ensures
        !(text_before(a, b) && text_before(b, a)),
    decreases a.len(),
{
    if a.len() > 0 && b.len() > 0 && a[0] == b[0] {
        lemma_text_before_asymmetric(a.skip(1), b.skip(1));
    }
}

/// Not standing before is transitive.
pub proof fn lemma_text_not_before(a: Seq<char>, b: Seq<char>, c: Seq<char>)
    requires
        !text_before(a, b),
        !text_before(b, c),
    ensures
        !text_before(a, c),
    decreases a.len(),
{
    if a.len() > 0 && b.len() > 0 && c.len() > 0 && a[0] == b[0] && b[0] == c[0] {
        lemma_text_not_before(a.skip(1), b.skip(1), c.skip(1));
    }
}

/// Compares two texts without regard to the case of ASCII letters.
pub fn texts_match(a: &str, b: &str) -> (r: bool)
    ensures
        r == same_ignoring_case(a@, b@),
{
    let x: Vec<char> = to_chars(a);
    let y: Vec<char> = to_chars(b);
    if x.len() != y.len() {
        assert(lowered(a@).len() != lowered(b@).len());
        return false;
    }
    for i in 0..x.len()
        invariant
            x@ == a@,
            y@ == b@,
            x@.len() == y@.len(),
            forall|j: int| 0 <= j < i ==> to_lower(x@[j]) == to_lower(y@[j]),
    {
        if char_to_lower(x[i]) != char_to_lower(y[i]) {
            assert(lowered(a@)[i as int] != lowered(b@)[i as int]);
            return false;
        }
    }
    assert(lowered(a@) =~= lowered(b@));
    true
}

/// Decides whether `a` stands before `b` in the order of code points.
pub fn stands_before(a: &str, b: &str) -> (r: bool)
    ensures
        r == text_before(a@, b@),
{
    let x: Vec<char> = to_chars(a);
    let y: Vec<char> = to_chars(b);
    let mut i: usize = 0;
    assert(x@.skip(0) =~= x@ && y@.skip(0) =~= y@);
    while i < x.len() && i < y.len()
        invariant
            x@ == a@,
            y@ == b@,
            i <= x@.len(),
            i <= y@.len(),
            text_before(a@, b@) == text_before(x@.skip(i as int), y@.skip(i as int)),
        decreases x@.len() - i,
    {
        if x[i] != y[i] {
            return x[i] < y[i];
        }
        assert(x@.skip(i as int).skip(1) =~= x@.skip(i as int + 1));
        assert(y@.skip(i as int).skip(1) =~= y@.skip(i as int + 1));
        i = i + 1;
    }
    i < y.len()
}

// --------------------------------------------------------------- composition

/// A list of texts with `sep` between each two.
pub open spec fn joined(parts: Seq<Seq<char>>, sep: Seq<char>) -> Seq<char>
    decreases parts.len(),
{
    if parts.len() == 0 {
        Seq::empty()
    } else if parts.len() == 1 {
        parts[0]
    } else {
        joined(parts.drop_last(), sep) + sep + parts.last()
    }
}

/// `s` with every occurrence of `pat`, found from the left, replaced by `with`.
pub open spec fn replaced(s: Seq<char>, pat: Seq<char>, with: Seq<char>) -> Seq<char>
    decreases s.len(),
{
    if pat.len() == 0 || s.len() < pat.len() {
        s
    } else if s.take(pat.len() as int) == pat {
        with + replaced(s.skip(pat.len() as int), pat, with)
    } else {
        seq![s[0]] + replaced(s.skip(1), pat, with)
    }
}

/// `s` filled up with spaces on the right to at least `width` characters.
pub open spec fn padded(s: Seq<char>, width: nat) -> Seq<char> {
    if s.len() >= width {
        s
    } else {
        s + Seq::new((width - s.len()) as nat, |i: int| ' ')
    }
}

/// Joins a list of texts.
pub fn join(parts: &Vec<String>, sep: &str) -> (r: String)
    ensures
        r@ == joined(texts(parts@), sep@),
{
    let mut out = String::new();
    for i in 0..parts.len()
        invariant
            out@ == joined(texts(parts@).take(i as int), sep@),
    {
        proof {
            let next = texts(parts@).take(i as int + 1);
            assert(next.drop_last() =~= texts(parts@).take(i as int));
            assert(next.last() == parts@[i as int]@);
        }
        if i > 0 {
            out.append(sep);
        } else {
            assert(out@ + parts@[i as int]@ =~= parts@[i as int]@);
        }
        out.append(parts[i].as_str());
    }
    assert(texts(parts@).take(parts@.len() as int) =~= texts(parts@));
    out
}

/// Whether `pat` stands in `c` at position `at`.
fn stands_at(c: &Vec<char>, at: usize, pat: &Vec<char>) -> (r: bool)
    requires
        at <= c@.len(),
    ensures
        r == (at + pat@.len() <= c@.len() && c@.subrange(at as int, at + pat@.len()) == pat@),
{
    if c.len() - at < pat.len() {
        return false;
    }
    for j in 0..pat.len()
        invariant
            at + pat.len() <= c.len(),
            forall|k: int| 0 <= k < j ==> c@[at + k] == pat@[k],
    {
        if c[at + j] != pat[j] {
            assert(c@.subrange(at as int, at + pat@.len())[j as int] != pat@[j as int]);
            return false;
        }
    }
    assert(c@.subrange(at as int, at + pat@.len()) =~= pat@);
    true
}

/// Replaces every occurrence of `pat`.
pub fn replace_all(s: &str, pat: &str, with: &str) -> (r: String)
    requires
        pat@.len() > 0,
    ensures
        r@ == replaced(s@, pat@, with@),
{
    let c: Vec<char> = to_chars(s);
    let p: Vec<char> = to_chars(pat);
    let mut out = String::new();
    let mut i: usize = 0;
    assert(c@.skip(0) =~= c@);
    assert(out@ + replaced(c@, pat@, with@) =~= replaced(c@, pat@, with@));
    while i < c.len()
        invariant
            c@ == s@,
            p@ == pat@,
            pat@.len() > 0,
            i <= c@.len(),
            out@ + replaced(c@.skip(i as int), pat@, with@) == replaced(s@, pat@, with@),
        decreases c@.len() - i,
    {
        let ghost rest = c@.skip(i as int);
        let ghost done = out@;
        if stands_at(&c, i, &p) {
            out.append(with);
            proof {
                assert(rest.take(pat@.len() as int) =~= c@.subrange(i as int, i + pat@.len()));
                assert(rest.skip(pat@.len() as int) =~= c@.skip(i + pat@.len()));
                assert(done + (with@ + replaced(c@.skip(i + pat@.len()), pat@, with@)) =~= out@
                    + replaced(c@.skip(i + pat@.len()), pat@, with@));
            }
            i = i + p.len();
        } else {
            out.push(c[i]);
            proof {
                if rest.len() >= pat@.len() {
                    assert(rest.take(pat@.len() as int) =~= c@.subrange(i as int, i + pat@.len()));
                }
                assert(rest.skip(1) =~= c@.skip(i as int + 1));
                let tail = replaced(c@.skip(i as int + 1), pat@, with@);
                if rest.len() < pat@.len() {
                    assert(tail == rest.skip(1));
                    assert(rest =~= seq![c@[i as int]] + rest.skip(1));
                }
                assert(done + (seq![c@[i as int]] + tail) =~= out@ + tail);
            }
            i = i + 1;
        }
    }
    assert(out@ + replaced(c@.skip(i as int), pat@, with@) =~= out@);
    out
}

/// Fills a text up with spaces on the right.
pub fn pad_right(s: &str, width: usize) -> (r: String)
    ensures
        r@ == padded(s@, width as nat),
{
    let mut out = s.to_owned();
    let mut n: usize = s.unicode_len();
    let ghost start = n as int;
    while n < width
        invariant
            start == s@.len(),
            start <= n,
            n <= width || n == start,
            out@ == padded(s@, n as nat),
        decreases width - n,
    {
        out.push(' ');
        n = n + 1;
        assert(out@ =~= padded(s@, n as nat));
    }
    out
}

/// Whether `s` begins with `prefix`.
pub open spec fn begins_with(s: Seq<char>, prefix: Seq<char>) -> bool {
    prefix.len() <= s.len() && s.take(prefix.len() as int) == prefix
}

/// What follows `prefix` in `s`, where `s` begins with it.
pub fn strip_prefix(s: &str, prefix: &str) -> (r: Option<String>)
    ensures
        r is Some <==> begins_with(s@, prefix@),
        r matches Some(rest) ==> rest@ == s@.skip(prefix@.len() as int),
{
    let c: Vec<char> = to_chars(s);
    let p: Vec<char> = to_chars(prefix);
    assert(prefix@.len() <= s@.len() ==> s@.take(prefix@.len() as int) =~= s@.subrange(
        0,
        prefix@.len() as int,
    ));
    if stands_at(&c, 0, &p) {
        let rest = crate::text::from_chars(&c, p.len(), c.len());
        assert(rest@ =~= s@.skip(prefix@.len() as int));
        Some(rest)
    } else {
        None
    }
}

// ---------------------------------------------------------------------- laws

/// Two texts are the same but for case where they are as long and differ, place
/// by place, at most in the case of an ASCII letter.
pub proof fn law_case_is_all_that_is_ignored(a: Seq<char>, b: Seq<char>)
    ensures
        same_ignoring_case(a, b) <==> a.len() == b.len() && forall|i: int|
            0 <= i < a.len() ==> {
                ||| #[trigger] a[i] == b[i]
                ||| 'A' <= a[i] <= 'Z' && b[i] as u32 == a[i] as u32 + 32
                ||| 'A' <= b[i] <= 'Z' && a[i] as u32 == b[i] as u32 + 32
            },
{
    if same_ignoring_case(a, b) {
        assert(lowered(a).len() == a.len());
        assert forall|i: int| 0 <= i < a.len() implies {
            ||| #[trigger] a[i] == b[i]
            ||| 'A' <= a[i] <= 'Z' && b[i] as u32 == a[i] as u32 + 32
            ||| 'A' <= b[i] <= 'Z' && a[i] as u32 == b[i] as u32 + 32
        } by {
            assert(lowered(a)[i] == lowered(b)[i]);
            lemma_to_lower(a[i], b[i]);
        }
    }
    if a.len() == b.len() && forall|i: int|
        0 <= i < a.len() ==> {
            ||| #[trigger] a[i] == b[i]
            ||| 'A' <= a[i] <= 'Z' && b[i] as u32 == a[i] as u32 + 32
            ||| 'A' <= b[i] <= 'Z' && a[i] as u32 == b[i] as u32 + 32
        } {
        assert forall|i: int| 0 <= i < a.len() implies lowered(a)[i] == lowered(b)[i] by {
            let x = a[i];
            lemma_to_lower(a[i], b[i]);
        }
        assert(lowered(a) =~= lowered(b));
    }
}

/// Two characters have the same lower-case form where they differ in case at most.
proof fn lemma_to_lower(a: char, b: char)
    ensures
        to_lower(a) == to_lower(b) <==> (a == b || ('A' <= a <= 'Z' && b as u32 == a as u32 + 32)
            || ('A' <= b <= 'Z' && a as u32 == b as u32 + 32)),
{
}

/// Texts are put in order by the first character they differ in, and a text
/// stands before every longer one that begins with it.
pub proof fn law_texts_are_ordered(p: Seq<char>, x: char, a: Seq<char>, y: char, b: Seq<char>)
    ensures
        x < y ==> text_before(p + (seq![x] + a), p + (seq![y] + b)),
        x < y ==> !text_before(p + (seq![y] + b), p + (seq![x] + a)),
        text_before(p, p + (seq![x] + a)),
        !text_before(p + (seq![x] + a), p),
        !text_before(p, p),
    decreases p.len(),
{
    let s = p + (seq![x] + a);
    let t = p + (seq![y] + b);
    if p.len() > 0 {
        law_texts_are_ordered(p.skip(1), x, a, y, b);
        assert(s.skip(1) =~= p.skip(1) + (seq![x] + a));
        assert(t.skip(1) =~= p.skip(1) + (seq![y] + b));
        assert(s[0] == p[0] && t[0] == p[0]);
    } else {
        assert(s[0] == x && t[0] == y);
    }
}

/// Texts are joined in their order, with the separator between each two.
pub proof fn law_joining_separates(parts: Seq<Seq<char>>, last: Seq<char>, sep: Seq<char>)
    ensures
        joined(Seq::<Seq<char>>::empty(), sep) == Seq::<char>::empty(),
        joined(seq![last], sep) == last,
        parts.len() > 0 ==> joined(parts.push(last), sep) == joined(parts, sep) + sep + last,
{
    assert(parts.push(last).drop_last() =~= parts);
}

/// Whether a pattern stands in a text at a position.
pub open spec fn occurs_at(s: Seq<char>, pat: Seq<char>, at: int) -> bool {
    0 <= at && at + pat.len() <= s.len() && s.subrange(at, at + pat.len()) == pat
}

/// What stands before the first occurrence of a pattern is kept, the occurrence
/// is replaced, and what follows it is treated in the same way; a text without
/// the pattern is kept.
pub proof fn law_replacing_finds_each(
    before: Seq<char>,
    pat: Seq<char>,
    behind: Seq<char>,
    with: Seq<char>,
)
    requires
        pat.len() > 0,
        forall|i: int|
            0 <= i < before.len() ==> !(#[trigger] occurs_at(before + pat + behind, pat, i)),
    ensures
        replaced(before + pat + behind, pat, with) == before + with + replaced(behind, pat, with),
    decreases before.len(),
{
    let s = before + pat + behind;
    if before.len() == 0 {
        assert(s.take(pat.len() as int) =~= pat);
        assert(s.skip(pat.len() as int) =~= behind);
        assert(before + with + replaced(behind, pat, with) =~= with + replaced(behind, pat, with));
    } else {
        let rest = before.skip(1);
        let t = rest + pat + behind;
        assert(s.skip(1) =~= t);
        assert forall|i: int| 0 <= i < rest.len() implies !(#[trigger] occurs_at(t, pat, i)) by {
            assert(!occurs_at(s, pat, i + 1));
            if i + pat.len() <= t.len() {
                assert(t.subrange(i, i + pat.len()) =~= s.subrange(i + 1, i + 1 + pat.len()));
            }
        }
        law_replacing_finds_each(rest, pat, behind, with);
        assert(!occurs_at(s, pat, 0));
        assert(s.take(pat.len() as int) =~= s.subrange(0, 0int + pat.len()));
        assert(seq![s[0]] + (rest + with + replaced(behind, pat, with)) =~= before + with
            + replaced(behind, pat, with));
    }
}

/// A text in which a pattern does not stand is left as it is.
pub proof fn law_replacing_keeps_the_rest(s: Seq<char>, pat: Seq<char>, with: Seq<char>)
    requires
        pat.len() > 0,
        forall|i: int| 0 <= i < s.len() ==> !(#[trigger] occurs_at(s, pat, i)),
    ensures
        replaced(s, pat, with) == s,
    decreases s.len(),
{
    if s.len() >= pat.len() {
        let rest = s.skip(1);
        assert forall|i: int| 0 <= i < rest.len() implies !(#[trigger] occurs_at(
            rest,
            pat,
            i,
        )) by {
            assert(!occurs_at(s, pat, i + 1));
            if i + pat.len() <= rest.len() {
                assert(rest.subrange(i, i + pat.len()) =~= s.subrange(i + 1, i + 1 + pat.len()));
            }
        }
        law_replacing_keeps_the_rest(rest, pat, with);
        assert(!occurs_at(s, pat, 0));
        assert(s.take(pat.len() as int) =~= s.subrange(0, 0int + pat.len()));
        assert(seq![s[0]] + rest =~= s);
    }
}

/// A text is filled up with spaces behind it, and never cut.
pub proof fn law_padding_fills_up(s: Seq<char>, width: nat)
    ensures
        padded(s, width).len() >= width,
        padded(s, width).len() >= s.len(),
        padded(s, width).len() == width || padded(s, width).len() == s.len(),
        padded(s, width).take(s.len() as int) == s,
        forall|i: int|
            s.len() <= i < padded(s, width).len() ==> #[trigger] padded(s, width)[i] == ' ',
{
    assert(padded(s, width).take(s.len() as int) =~= s);
}

/// A text begins with every text that something can follow to make it up.
pub proof fn law_prefixes_begin_texts(prefix: Seq<char>, rest: Seq<char>, s: Seq<char>)
    ensures
        begins_with(prefix + rest, prefix),
        (prefix + rest).skip(prefix.len() as int) == rest,
        begins_with(s, prefix) ==> s == prefix + s.skip(prefix.len() as int),
{
    assert((prefix + rest).take(prefix.len() as int) =~= prefix);
    assert((prefix + rest).skip(prefix.len() as int) =~= rest);
    if begins_with(s, prefix) {
        assert(s =~= s.take(prefix.len() as int) + s.skip(prefix.len() as int));
    }
}

} // verus!
