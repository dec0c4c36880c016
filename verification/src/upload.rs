//! What an upload is: its format, told from its first bytes, and a name that is
//! fit to be shown.

use vstd::prelude::*;
use vstd::string::*;

use crate::text::{
    char_is_control, from_chars, is_blank, is_control, is_space, lemma_trimmed_empty, to_chars, trim,
    trimmed,
};

verus! {

/// How many characters of a name are kept.
pub const MAX_NAME_CHARS: usize = 120;

// -------------------------------------------------------------------- format

/// Whether a row of bytes stands in `b` at a position.
pub open spec fn has_at(b: Seq<u8>, at: int, pattern: Seq<u8>) -> bool {
    at + pattern.len() <= b.len() && b.subrange(at, at + pattern.len()) == pattern
}

/// The signature of a PNG file.
pub open spec fn png_magic() -> Seq<u8> {
    seq![0x89u8, 0x50, 0x4E, 0x47, 0x0D, 0x0A, 0x1A, 0x0A]
}

/// The signature of a JPEG file.
pub open spec fn jpeg_magic() -> Seq<u8> {
    seq![0xFFu8, 0xD8, 0xFF]
}

/// `GIF87a`
pub open spec fn gif87_magic() -> Seq<u8> {
    seq![0x47u8, 0x49, 0x46, 0x38, 0x37, 0x61]
}

/// `GIF89a`
pub open spec fn gif89_magic() -> Seq<u8> {
    seq![0x47u8, 0x49, 0x46, 0x38, 0x39, 0x61]
}

/// `RIFF`
pub open spec fn riff_magic() -> Seq<u8> {
    seq![0x52u8, 0x49, 0x46, 0x46]
}

/// `WEBP`
pub open spec fn webp_magic() -> Seq<u8> {
    seq![0x57u8, 0x45, 0x42, 0x50]
}

/// The content type of a raster image, told from its first bytes; none for
/// anything else.
pub open spec fn image_type(b: Seq<u8>) -> Option<Seq<char>> {
    if has_at(b, 0, png_magic()) {
        Some("image/png"@)
    } else if has_at(b, 0, jpeg_magic()) {
        Some("image/jpeg"@)
    } else if has_at(b, 0, gif87_magic()) || has_at(b, 0, gif89_magic()) {
        Some("image/gif"@)
    } else if has_at(b, 0, riff_magic()) && has_at(b, 8, webp_magic()) {
        Some("image/webp"@)
    } else {
        None
    }
}

/// Decides whether a row of bytes stands in `b` at a position.
fn bytes_at(b: &[u8], at: usize, pattern: &[u8]) -> (r: bool)
    ensures
        r == has_at(b@, at as int, pattern@),
{
    if b.len() < pattern.len() || b.len() - pattern.len() < at {
        return false;
    }
    for i in 0..pattern.len()
        invariant
            at + pattern.len() <= b.len(),
            forall|j: int| 0 <= j < i ==> b@[at + j] == pattern@[j],
    {
        if b[at + i] != pattern[i] {
            assert(b@.subrange(at as int, at + pattern@.len())[i as int] != pattern@[i as int]);
            return false;
        }
    }
    assert(b@.subrange(at as int, at + pattern@.len()) =~= pattern@);
    true
}

/// Identifies a raster image by its first bytes. The name that a file is given
/// plays no part.
pub fn sniff_image(b: &[u8]) -> (r: Option<&'static str>)
    ensures
        r is Some <==> image_type(b@) is Some,
        r matches Some(t) ==> image_type(b@) == Some(t@),
{
    let png: [u8; 8] = [0x89, 0x50, 0x4E, 0x47, 0x0D, 0x0A, 0x1A, 0x0A];
    let jpeg: [u8; 3] = [0xFF, 0xD8, 0xFF];
    let gif87: [u8; 6] = [0x47, 0x49, 0x46, 0x38, 0x37, 0x61];
    let gif89: [u8; 6] = [0x47, 0x49, 0x46, 0x38, 0x39, 0x61];
    let riff: [u8; 4] = [0x52, 0x49, 0x46, 0x46];
    let webp: [u8; 4] = [0x57, 0x45, 0x42, 0x50];
    assert(png@ =~= png_magic());
    assert(jpeg@ =~= jpeg_magic());
    assert(gif87@ =~= gif87_magic());
    assert(gif89@ =~= gif89_magic());
    assert(riff@ =~= riff_magic());
    assert(webp@ =~= webp_magic());
    if bytes_at(b, 0, &png) {
        return Some("image/png");
    }
    if bytes_at(b, 0, &jpeg) {
        return Some("image/jpeg");
    }
    if bytes_at(b, 0, &gif87) || bytes_at(b, 0, &gif89) {
        return Some("image/gif");
    }
    if bytes_at(b, 0, &riff) && bytes_at(b, 8, &webp) {
        return Some("image/webp");
    }
    None
}

// ---------------------------------------------------------------------- name

/// A character that separates the parts of a path.
pub open spec fn is_separator(c: char) -> bool {
    c == '/' || c == '\\'
}

/// What stands behind the last separator of a name.
pub open spec fn base_name(name: Seq<char>) -> Seq<char>
    decreases name.len(),
{
    if name.len() == 0 || is_separator(name.last()) {
        Seq::empty()
    } else {
        base_name(name.drop_last()).push(name.last())
    }
}

/// A name without control characters, cut to the length that is kept.
pub open spec fn cleaned(base: Seq<char>) -> Seq<char> {
    let kept = base.filter(|c: char| !is_control(c));
    if kept.len() <= MAX_NAME_CHARS {
        kept
    } else {
        kept.take(MAX_NAME_CHARS as int)
    }
}

/// The name under which an upload is shown: its base name, cleaned, or `image`
/// where nothing is left of it.
pub open spec fn display_name(name: Seq<char>) -> Seq<char> {
    let c = cleaned(base_name(name));
    if trimmed(c).len() == 0 {
        "image"@
    } else {
        c
    }
}

/// The base name is what stands behind a separator that no other follows.
proof fn lemma_base_name_at(name: Seq<char>, start: int)
    requires
        0 <= start <= name.len(),
        start > 0 ==> is_separator(name[start - 1]),
        forall|i: int| start <= i < name.len() ==> !is_separator(#[trigger] name[i]),
    ensures
        base_name(name) == name.skip(start),
    decreases name.len(),
{
    if start < name.len() {
        lemma_base_name_at(name.drop_last(), start);
        assert(name.drop_last().skip(start).push(name.last()) =~= name.skip(start));
        assert(!is_separator(name[name.len() - 1]));
    } else {
        assert(name.skip(start) =~= Seq::<char>::empty());
    }
}

/// Makes a name fit to be shown.
pub fn sanitize_name(name: &str) -> (r: String)
    ensures
        r@ == display_name(name@),
{
    let c: Vec<char> = to_chars(name);
    let mut start: usize = c.len();
    while start > 0 && c[start - 1] != '/' && c[start - 1] != '\\'
        invariant
            c@ == name@,
            start <= c@.len(),
            forall|i: int| start <= i < c@.len() ==> !is_separator(#[trigger] c@[i]),
        ensures
            start > 0 ==> is_separator(c@[start - 1]),
        decreases start,
    {
        start = start - 1;
    }
    proof {
        lemma_base_name_at(name@, start as int);
    }
    let ghost base = base_name(name@);
    let ghost keep = |x: char| !is_control(x);
    let mut out: Vec<char> = Vec::new();
    proof {
        reveal(Seq::filter);
    }
    for i in start..c.len()
        invariant
            c@ == name@,
            start <= c@.len(),
            base == name@.skip(start as int),
            keep == (|x: char| !is_control(x)),
            out@ == base.take(i - start).filter(keep),
    {
        let ghost k = i - start;
        proof {
            reveal(Seq::filter);
            assert(base.take(k + 1).drop_last() =~= base.take(k));
            assert(base[k] == c@[i as int]);
        }
        if !char_is_control(c[i]) {
            out.push(c[i]);
        }
    }
    assert(base.take(base.len() as int) =~= base);
    let end: usize = if out.len() <= MAX_NAME_CHARS {
        out.len()
    } else {
        MAX_NAME_CHARS
    };
    let clean = from_chars(&out, 0, end);
    assert(clean@ =~= cleaned(base));
    if trim(clean.as_str()).as_str().is_empty() {
        "image".to_owned()
    } else {
        clean
    }
}

// ---------------------------------------------------------------------- laws

/// Only the four raster formats are ever accepted.
pub proof fn law_only_raster_types(b: Seq<u8>)
    ensures
        image_type(b) matches Some(t) ==> t == "image/png"@ || t == "image/jpeg"@ || t
            == "image/gif"@ || t == "image/webp"@,
{
}

/// What begins like markup is no image, whatever it is called.
pub proof fn law_markup_is_rejected(b: Seq<u8>)
    requires
        b.len() > 0,
        b[0] == 0x3C,
    ensures
        image_type(b) is None,
{
    if has_at(b, 0, png_magic()) {
        assert(b.subrange(0, png_magic().len() as int)[0] == b[0]);
    }
    if has_at(b, 0, jpeg_magic()) {
        assert(b.subrange(0, jpeg_magic().len() as int)[0] == b[0]);
    }
    if has_at(b, 0, gif87_magic()) {
        assert(b.subrange(0, gif87_magic().len() as int)[0] == b[0]);
    }
    if has_at(b, 0, gif89_magic()) {
        assert(b.subrange(0, gif89_magic().len() as int)[0] == b[0]);
    }
    if has_at(b, 0, riff_magic()) {
        assert(b.subrange(0, riff_magic().len() as int)[0] == b[0]);
    }
}

/// Whether a name can be shown: it is not blank, not too long, and carries
/// neither a path nor a control character.
pub open spec fn is_showable(s: Seq<char>) -> bool {
    &&& !is_blank(s)
    &&& 0 < s.len() <= MAX_NAME_CHARS
    &&& forall|i: int|
        0 <= i < s.len() ==> !is_separator(#[trigger] s[i]) && !is_control(s[i])
}

/// No separator is left in a base name.
proof fn lemma_base_name_clean(name: Seq<char>)
    ensures
        forall|i: int|
            0 <= i < base_name(name).len() ==> !is_separator(#[trigger] base_name(name)[i]),
    decreases name.len(),
{
    if name.len() > 0 && !is_separator(name.last()) {
        lemma_base_name_clean(name.drop_last());
        let b = base_name(name.drop_last());
        assert forall|i: int| 0 <= i < base_name(name).len() implies !is_separator(
            #[trigger] base_name(name)[i],
        ) by {
            if i < b.len() {
                assert(base_name(name)[i] == b[i]);
            }
        }
    }
}

/// What a filter keeps passes its test, and came from the list.
pub proof fn lemma_filtered(s: Seq<char>, test: spec_fn(char) -> bool)
    ensures
        forall|i: int|
            0 <= i < s.filter(test).len() ==> test(#[trigger] s.filter(test)[i]) && s.contains(
                s.filter(test)[i],
            ),
    decreases s.len(),
{
    reveal(Seq::filter);
    if s.len() > 0 {
        let rest = s.drop_last();
        lemma_filtered(rest, test);
        assert forall|i: int| 0 <= i < s.filter(test).len() implies test(
            #[trigger] s.filter(test)[i],
        ) && s.contains(s.filter(test)[i]) by {
            if i < rest.filter(test).len() {
                assert(s.filter(test)[i] == rest.filter(test)[i]);
                let j = choose|j: int| 0 <= j < rest.len() && rest[j] == rest.filter(test)[i];
                assert(s[j] == rest.filter(test)[i]);
            } else {
                assert(s[s.len() - 1] == s.filter(test)[i]);
            }
        }
    }
}

/// A filter keeps all of a list that passes throughout.
proof fn lemma_filter_keeps(s: Seq<char>, test: spec_fn(char) -> bool)
    requires
        forall|i: int| 0 <= i < s.len() ==> test(#[trigger] s[i]),
    ensures
        s.filter(test) == s,
    decreases s.len(),
{
    reveal(Seq::filter);
    if s.len() > 0 {
        let rest = s.drop_last();
        assert forall|i: int| 0 <= i < rest.len() implies test(#[trigger] rest[i]) by {
            assert(rest[i] == s[i]);
        }
        lemma_filter_keeps(rest, test);
        assert(test(s[s.len() - 1]));
        assert(s.filter(test) =~= s);
    }
}

/// The name of an upload can always be shown.
pub proof fn law_display_name_is_showable(name: Seq<char>)
    ensures
        is_showable(display_name(name)),
{
    let base = base_name(name);
    let test = |c: char| !is_control(c);
    let kept = base.filter(test);
    let c = cleaned(base);
    lemma_base_name_clean(name);
    lemma_filtered(base, test);
    lemma_trimmed_empty(c);
    if trimmed(c).len() == 0 {
        reveal_strlit("image");
        let s = "image"@;
        assert(s.len() == 5);
        assert(s[0] == 'i' && s[1] == 'm' && s[2] == 'a' && s[3] == 'g' && s[4] == 'e');
        assert(!is_space(s[0]));
    } else {
        assert forall|i: int| 0 <= i < c.len() implies !is_separator(#[trigger] c[i])
            && !is_control(c[i]) by {
            assert(c[i] == kept[i]);
            assert(test(kept[i]));
            let j = choose|j: int| 0 <= j < base.len() && base[j] == kept[i];
            assert(!is_separator(base[j]));
        }
        assert(!is_blank(c));
        if c.len() == 0 {
            assert(is_blank(c));
        }
    }
}

/// A name that can be shown is shown as it is, so that cleaning twice is cleaning
/// once.
pub proof fn law_showable_name_is_kept(name: Seq<char>)
    requires
        is_showable(name),
    ensures
        display_name(name) == name,
{
    let test = |c: char| !is_control(c);
    lemma_base_name_at(name, 0);
    assert(name.skip(0) =~= name);
    lemma_filter_keeps(name, test);
    lemma_trimmed_empty(name);
}

/// All bytes that begin with the signature of a format have its type, whatever
/// follows.
pub proof fn law_every_image_is_known(rest: Seq<u8>, four: Seq<u8>)
    requires
        four.len() == 4,
    ensures
        image_type(seq![0x89u8, 0x50, 0x4E, 0x47, 0x0D, 0x0A, 0x1A, 0x0A] + rest) == Some(
            "image/png"@,
        ),
        image_type(seq![0xFFu8, 0xD8, 0xFF] + rest) == Some("image/jpeg"@),
        image_type(seq![0x47u8, 0x49, 0x46, 0x38, 0x37, 0x61] + rest) == Some("image/gif"@),
        image_type(seq![0x47u8, 0x49, 0x46, 0x38, 0x39, 0x61] + rest) == Some("image/gif"@),
        image_type(
            seq![0x52u8, 0x49, 0x46, 0x46] + four + seq![0x57u8, 0x45, 0x42, 0x50] + rest,
        ) == Some("image/webp"@),
{
    let png = seq![0x89u8, 0x50, 0x4E, 0x47, 0x0D, 0x0A, 0x1A, 0x0A];
    let jpeg = seq![0xFFu8, 0xD8, 0xFF];
    let gif87 = seq![0x47u8, 0x49, 0x46, 0x38, 0x37, 0x61];
    let gif89 = seq![0x47u8, 0x49, 0x46, 0x38, 0x39, 0x61];
    let riff = seq![0x52u8, 0x49, 0x46, 0x46];
    let webp = seq![0x57u8, 0x45, 0x42, 0x50];
    assert((png + rest).subrange(0, 8) =~= png_magic());
    assert((jpeg + rest).subrange(0, 3) =~= jpeg_magic());
    assert((gif87 + rest).subrange(0, 6) =~= gif87_magic());
    assert((gif89 + rest).subrange(0, 6) =~= gif89_magic());
    let w = riff + four + webp + rest;
    assert(w.subrange(0, 4) =~= riff_magic());
    assert(w.subrange(8, 12) =~= webp_magic());
    lemma_first_byte(jpeg + rest);
    lemma_first_byte(gif87 + rest);
    lemma_first_byte(gif89 + rest);
    lemma_first_byte(w);
}

/// The formats are told apart by their first byte.
proof fn lemma_first_byte(b: Seq<u8>)
    ensures
        has_at(b, 0, png_magic()) ==> b[0] == 0x89,
        has_at(b, 0, jpeg_magic()) ==> b[0] == 0xFF,
        has_at(b, 0, gif87_magic()) ==> b[0] == 0x47,
        has_at(b, 0, gif89_magic()) ==> b[0] == 0x47,
        has_at(b, 0, riff_magic()) ==> b[0] == 0x52,
{
    if has_at(b, 0, png_magic()) {
        assert(b.subrange(0, 8)[0] == b[0]);
    }
    if has_at(b, 0, jpeg_magic()) {
        assert(b.subrange(0, 3)[0] == b[0]);
    }
    if has_at(b, 0, gif87_magic()) {
        assert(b.subrange(0, 6)[0] == b[0]);
    }
    if has_at(b, 0, gif89_magic()) {
        assert(b.subrange(0, 6)[0] == b[0]);
    }
    if has_at(b, 0, riff_magic()) {
        assert(b.subrange(0, 4)[0] == b[0]);
    }
}

/// What has a type begins with a signature of its format: nothing else is taken
/// for an image.
pub proof fn law_every_type_is_earned(b: Seq<u8>)
    ensures
        image_type(b) == Some("image/png"@) ==> b.len() >= 8 && b[0] == 0x89 && b[1] == 0x50 && b[2]
            == 0x4E && b[3] == 0x47 && b[4] == 0x0D && b[5] == 0x0A && b[6] == 0x1A && b[7] == 0x0A,
        image_type(b) == Some("image/jpeg"@) ==> b.len() >= 3 && b[0] == 0xFF && b[1] == 0xD8 && b[2]
            == 0xFF,
        image_type(b) == Some("image/gif"@) ==> b.len() >= 6 && b[0] == 0x47 && b[1] == 0x49 && b[2]
            == 0x46 && b[3] == 0x38 && (b[4] == 0x37 || b[4] == 0x39) && b[5] == 0x61,
        image_type(b) == Some("image/webp"@) ==> b.len() >= 12 && b[0] == 0x52 && b[1] == 0x49
            && b[2] == 0x46 && b[3] == 0x46 && b[8] == 0x57 && b[9] == 0x45 && b[10] == 0x42 && b[11]
            == 0x50,
{
    reveal_strlit("image/png");
    reveal_strlit("image/jpeg");
    reveal_strlit("image/gif");
    reveal_strlit("image/webp");
    assert("image/png"@.len() == 9 && "image/jpeg"@.len() == 10 && "image/gif"@.len() == 9
        && "image/webp"@.len() == 10);
    assert("image/png"@[6] == 'p' && "image/gif"@[6] == 'g');
    assert("image/jpeg"@[6] == 'j' && "image/webp"@[6] == 'w');
    lemma_stands(b, 0, png_magic());
    lemma_stands(b, 0, jpeg_magic());
    lemma_stands(b, 0, gif87_magic());
    lemma_stands(b, 0, gif89_magic());
    lemma_stands(b, 0, riff_magic());
    lemma_stands(b, 8, webp_magic());
}

/// A row of bytes that stands in another stands there byte by byte.
proof fn lemma_stands(b: Seq<u8>, at: int, pattern: Seq<u8>)
    requires
        0 <= at,
    ensures
        has_at(b, at, pattern) ==> forall|i: int|
            0 <= i < pattern.len() ==> b[at + i] == #[trigger] pattern[i],
{
    if has_at(b, at, pattern) {
        assert forall|i: int| 0 <= i < pattern.len() implies b[at + i] == #[trigger] pattern[i] by {
            assert(b.subrange(at, at + pattern.len())[i] == b[at + i]);
        }
    }
}

/// A path before a name changes nothing: what is shown is the name behind the
/// last separator.
pub proof fn law_paths_are_dropped(path: Seq<char>, name: Seq<char>)
    ensures
        display_name(path.push('/') + name) == display_name(name),
        display_name(path.push('\\') + name) == display_name(name),
{
    lemma_base_name_behind(path.push('/'), name);
    lemma_base_name_behind(path.push('\\'), name);
}

/// The base name of what stands behind a separator.
proof fn lemma_base_name_behind(path: Seq<char>, name: Seq<char>)
    requires
        path.len() > 0,
        path.last() == '/' || path.last() == '\\',
    ensures
        base_name(path + name) == base_name(name),
    decreases name.len(),
{
    let s = path + name;
    if name.len() == 0 {
        assert(s =~= path);
    } else {
        assert(s.drop_last() =~= path + name.drop_last());
        assert(s.last() == name.last());
        lemma_base_name_behind(path, name.drop_last());
    }
}

/// A control character in a name changes nothing.
pub proof fn law_control_characters_are_dropped(a: Seq<char>, c: char, b: Seq<char>)
    requires
        c <= '\u{1f}' || '\u{7f}' <= c <= '\u{9f}',
    ensures
        display_name(a.push(c) + b) == display_name(a + b),
{
    lemma_kept_without(a, c, b);
}

/// As above, of the characters that are kept.
proof fn lemma_kept_without(a: Seq<char>, c: char, b: Seq<char>)
    requires
        is_control(c),
    ensures
        base_name(a.push(c) + b).filter(|x: char| !is_control(x)) == base_name(a + b).filter(
            |x: char| !is_control(x),
        ),
    decreases b.len(),
{
    reveal(Seq::filter);
    let test = |x: char| !is_control(x);
    let s = a.push(c) + b;
    let t = a + b;
    if b.len() == 0 {
        assert(s =~= a.push(c));
        assert(t =~= a);
        assert(s.drop_last() =~= a);
        assert(base_name(s) == base_name(a).push(c));
        assert(base_name(s).drop_last() =~= base_name(a));
    } else {
        assert(s.drop_last() =~= a.push(c) + b.drop_last());
        assert(t.drop_last() =~= a + b.drop_last());
        assert(s.last() == b.last() && t.last() == b.last());
        lemma_kept_without(a, c, b.drop_last());
        if !is_separator(b.last()) {
            assert(base_name(s).drop_last() =~= base_name(s.drop_last()));
            assert(base_name(t).drop_last() =~= base_name(t.drop_last()));
        }
    }
}

/// A long name without separators or control characters is shown by its first 120
/// characters, and a blank one as `image`.
pub proof fn law_names_are_cut(name: Seq<char>)
    requires
        forall|i: int|
            0 <= i < name.len() ==> (#[trigger] name[i]) != '/' && name[i] != '\\' && name[i]
                > '\u{1f}' && !('\u{7f}' <= name[i] <= '\u{9f}'),
    ensures
        name.len() > 120 && !is_blank(name.take(120)) ==> display_name(name) == name.take(120),
        name.len() > 120 && is_blank(name.take(120)) ==> display_name(name) == "image"@,
        name.len() <= 120 && is_blank(name) ==> display_name(name) == "image"@,
        name.len() <= 120 && !is_blank(name) ==> display_name(name) == name,
{
    let test = |c: char| !is_control(c);
    lemma_base_name_at(name, 0);
    assert(name.skip(0) =~= name);
    lemma_filter_keeps(name, test);
    lemma_trimmed_empty(name);
    lemma_trimmed_empty(name.take(120));
}

} // verus!
