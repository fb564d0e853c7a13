//! The KaTeX assets the drill server serves: which font files exist, and
//! with which content type.

use vstd::prelude::*;

use crate::text::chars_eq;
use crate::text::chars_of;
use crate::text::ends_with_chars;
use crate::text::has_suffix;
use crate::text::sub_chars;

verus! {

/// Is `b` the name (without extension) of one of KaTeX's fonts?
pub open spec fn katex_font_base(b: Seq<char>) -> bool {
    ||| b == "KaTeX_AMS-Regular"@
    ||| b == "KaTeX_Caligraphic-Bold"@
    ||| b == "KaTeX_Caligraphic-Regular"@
    ||| b == "KaTeX_Fraktur-Bold"@
    ||| b == "KaTeX_Fraktur-Regular"@
    ||| b == "KaTeX_Main-Bold"@
    ||| b == "KaTeX_Main-BoldItalic"@
    ||| b == "KaTeX_Main-Italic"@
    ||| b == "KaTeX_Main-Regular"@
    ||| b == "KaTeX_Math-BoldItalic"@
    ||| b == "KaTeX_Math-Italic"@
    ||| b == "KaTeX_SansSerif-Bold"@
    ||| b == "KaTeX_SansSerif-Italic"@
    ||| b == "KaTeX_SansSerif-Regular"@
    ||| b == "KaTeX_Script-Regular"@
    ||| b == "KaTeX_Size1-Regular"@
    ||| b == "KaTeX_Size2-Regular"@
    ||| b == "KaTeX_Size3-Regular"@
    ||| b == "KaTeX_Size4-Regular"@
    ||| b == "KaTeX_Typewriter-Regular"@
}

/// The content type of a KaTeX font file, by its extension; `None` for
/// any other extension.
pub open spec fn font_content_type(path: Seq<char>) -> Option<Seq<char>> {
    if has_suffix(path, ".woff2"@) {
        Some("font/woff2"@)
    } else if has_suffix(path, ".woff"@) {
        Some("font/woff"@)
    } else if has_suffix(path, ".ttf"@) {
        Some("font/ttf"@)
    } else {
        None
    }
}

/// The length of the extension that gives `path` its content type.
pub open spec fn font_ext_len(path: Seq<char>) -> int {
    if has_suffix(path, ".woff2"@) {
        6
    } else if has_suffix(path, ".woff"@) {
        5
    } else {
        4
    }
}

/// The content type of the KaTeX font file `path`, or `None` when the
/// server has no such file (it answers 404 Not Found).
pub open spec fn katex_font(path: Seq<char>) -> Option<Seq<char>> {
    match font_content_type(path) {
        None => None,
        Some(ct) => if katex_font_base(path.take(path.len() - font_ext_len(path))) {
            Some(ct)
        } else {
            None
        },
    }
}

fn is_font_name(b: &[char], name: &str) -> (r: bool)
    ensures
        r == (b@ == name@),
{
    let n = chars_of(name);
    chars_eq(b, n.as_slice())
}

fn is_katex_font_base(b: &[char]) -> (r: bool)
    ensures
        r == katex_font_base(b@),
{
        is_font_name(b, "KaTeX_AMS-Regular") ||
        is_font_name(b, "KaTeX_Caligraphic-Bold") ||
        is_font_name(b, "KaTeX_Caligraphic-Regular") ||
        is_font_name(b, "KaTeX_Fraktur-Bold") ||
        is_font_name(b, "KaTeX_Fraktur-Regular") ||
        is_font_name(b, "KaTeX_Main-Bold") ||
        is_font_name(b, "KaTeX_Main-BoldItalic") ||
        is_font_name(b, "KaTeX_Main-Italic") ||
        is_font_name(b, "KaTeX_Main-Regular") ||
        is_font_name(b, "KaTeX_Math-BoldItalic") ||
        is_font_name(b, "KaTeX_Math-Italic") ||
        is_font_name(b, "KaTeX_SansSerif-Bold") ||
        is_font_name(b, "KaTeX_SansSerif-Italic") ||
        is_font_name(b, "KaTeX_SansSerif-Regular") ||
        is_font_name(b, "KaTeX_Script-Regular") ||
        is_font_name(b, "KaTeX_Size1-Regular") ||
        is_font_name(b, "KaTeX_Size2-Regular") ||
        is_font_name(b, "KaTeX_Size3-Regular") ||
        is_font_name(b, "KaTeX_Size4-Regular") ||
        is_font_name(b, "KaTeX_Typewriter-Regular")
}

/// The content type of the KaTeX font file named `path`: by its extension
/// (`.woff2`, `.woff` or `.ttf`), and only for the fonts KaTeX ships; `None`
/// for any other name.
pub fn katex_font_content_type(path: &str) -> (r: Option<String>)
    ensures
        match katex_font(path@) {
            Some(ct) => r matches Some(s) && s@ == ct,
            None => r is None,
        },
{
    let p = chars_of(path);
    let w2 = chars_of(".woff2");
    let w1 = chars_of(".woff");
    let tt = chars_of(".ttf");
    let (ct, ext): (&str, usize) = if ends_with_chars(p.as_slice(), w2.as_slice()) {
        ("font/woff2", 6)
    } else if ends_with_chars(p.as_slice(), w1.as_slice()) {
        ("font/woff", 5)
    } else if ends_with_chars(p.as_slice(), tt.as_slice()) {
        ("font/ttf", 4)
    } else {
        return None;
    };
    proof {
        reveal_strlit(".woff2");
        reveal_strlit(".woff");
        reveal_strlit(".ttf");
    }
    assert(ext as int == font_ext_len(path@));
    assert(ext <= p@.len());
    let base = sub_chars(p.as_slice(), 0, p.len() - ext);
    assert(base@ =~= path@.take(path@.len() - font_ext_len(path@)));
    if is_katex_font_base(base.as_slice()) {
        Some(ct.to_string())
    } else {
        None
    }
}

} // verus!
