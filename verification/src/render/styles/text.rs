use vstd::prelude::*;

use crate::language::text::{
    ascii_lowercase, chars_of, is_ascii_text, same_chars, to_lowercase, unicode_lowercase,
};
use crate::render::styles::StyleError;

verus! {

#[derive(Debug, Clone, Copy, PartialEq, Eq, Structural)]
pub enum FontWeight {
    Thin,
    ExtraLight,
    Light,
    Normal,
    Medium,
    SemiBold,
    Bold,
    ExtraBold,
    Black,
    ExtraBlack,
}

/// The weight named by the lower-case text `l`; the compound names may be written with or
/// without `_`.
pub open spec fn spec_font_weight(l: Seq<char>) -> Option<FontWeight> {
    if l == seq!['t', 'h', 'i', 'n'] {
        Some(FontWeight::Thin)
    } else if l == seq!['e', 'x', 't', 'r', 'a', '_', 'l', 'i', 'g', 'h', 't'] || l == seq![
        'e',
        'x',
        't',
        'r',
        'a',
        'l',
        'i',
        'g',
        'h',
        't',
    ] {
        Some(FontWeight::ExtraLight)
    } else if l == seq!['l', 'i', 'g', 'h', 't'] {
        Some(FontWeight::Light)
    } else if l == seq!['n', 'o', 'r', 'm', 'a', 'l'] {
        Some(FontWeight::Normal)
    } else if l == seq!['m', 'e', 'd', 'i', 'u', 'm'] {
        Some(FontWeight::Medium)
    } else if l == seq!['s', 'e', 'm', 'i', 'b', 'o', 'l', 'd'] {
        Some(FontWeight::SemiBold)
    } else if l == seq!['b', 'o', 'l', 'd'] {
        Some(FontWeight::Bold)
    } else if l == seq!['e', 'x', 't', 'r', 'a', '_', 'b', 'o', 'l', 'd'] || l == seq![
        'e',
        'x',
        't',
        'r',
        'a',
        'b',
        'o',
        'l',
        'd',
    ] {
        Some(FontWeight::ExtraBold)
    } else if l == seq!['b', 'l', 'a', 'c', 'k'] {
        Some(FontWeight::Black)
    } else if l == seq!['e', 'x', 't', 'r', 'a', '_', 'b', 'l', 'a', 'c', 'k'] || l == seq![
        'e',
        'x',
        't',
        'r',
        'a',
        'b',
        'l',
        'a',
        'c',
        'k',
    ] {
        Some(FontWeight::ExtraBlack)
    } else {
        None
    }
}

impl FontWeight {
    /// Reads a weight from `thin` to `extra_black`, in any case. A refusal carries the text in
    /// lower case.
    pub fn from_str(value: &str) -> (r: Result<FontWeight, StyleError>)
        ensures
            is_ascii_text(value@) ==> unicode_lowercase(value@) == ascii_lowercase(value@),
            match spec_font_weight(unicode_lowercase(value@)) {
                Some(w) => r == Ok::<FontWeight, StyleError>(w),
                None => r matches Err(StyleError::InvalidFontWeight(v)) && v@ == unicode_lowercase(
                    value@,
                ),
            },
    {
        let l = to_lowercase(value);
        let v = chars_of(l.as_str());
        if same_chars(&v, &['t', 'h', 'i', 'n']) {
            Ok(FontWeight::Thin)
        } else if same_chars(&v, &['e', 'x', 't', 'r', 'a', '_', 'l', 'i', 'g', 'h', 't'])
            || same_chars(&v, &['e', 'x', 't', 'r', 'a', 'l', 'i', 'g', 'h', 't']) {
            Ok(FontWeight::ExtraLight)
        } else if same_chars(&v, &['l', 'i', 'g', 'h', 't']) {
            Ok(FontWeight::Light)
        } else if same_chars(&v, &['n', 'o', 'r', 'm', 'a', 'l']) {
            Ok(FontWeight::Normal)
        } else if same_chars(&v, &['m', 'e', 'd', 'i', 'u', 'm']) {
            Ok(FontWeight::Medium)
        } else if same_chars(&v, &['s', 'e', 'm', 'i', 'b', 'o', 'l', 'd']) {
            Ok(FontWeight::SemiBold)
        } else if same_chars(&v, &['b', 'o', 'l', 'd']) {
            Ok(FontWeight::Bold)
        } else if same_chars(&v, &['e', 'x', 't', 'r', 'a', '_', 'b', 'o', 'l', 'd'])
            || same_chars(&v, &['e', 'x', 't', 'r', 'a', 'b', 'o', 'l', 'd']) {
            Ok(FontWeight::ExtraBold)
        } else if same_chars(&v, &['b', 'l', 'a', 'c', 'k']) {
            Ok(FontWeight::Black)
        } else if same_chars(&v, &['e', 'x', 't', 'r', 'a', '_', 'b', 'l', 'a', 'c', 'k'])
            || same_chars(&v, &['e', 'x', 't', 'r', 'a', 'b', 'l', 'a', 'c', 'k']) {
            Ok(FontWeight::ExtraBlack)
        } else {
            Err(StyleError::InvalidFontWeight(l))
        }
    }
}


// ---------------------------------------------------------------------------
// Names and values
// ---------------------------------------------------------------------------
/// The documented name of each `FontWeight` (in lower case).
pub open spec fn fontweight_name(x: FontWeight) -> Seq<char> {
    match x {
        FontWeight::Thin => seq!['t', 'h', 'i', 'n'],
        FontWeight::ExtraLight => seq!['e', 'x', 't', 'r', 'a', '_', 'l', 'i', 'g', 'h', 't'],
        FontWeight::Light => seq!['l', 'i', 'g', 'h', 't'],
        FontWeight::Normal => seq!['n', 'o', 'r', 'm', 'a', 'l'],
        FontWeight::Medium => seq!['m', 'e', 'd', 'i', 'u', 'm'],
        FontWeight::SemiBold => seq!['s', 'e', 'm', 'i', 'b', 'o', 'l', 'd'],
        FontWeight::Bold => seq!['b', 'o', 'l', 'd'],
        FontWeight::ExtraBold => seq!['e', 'x', 't', 'r', 'a', '_', 'b', 'o', 'l', 'd'],
        FontWeight::Black => seq!['b', 'l', 'a', 'c', 'k'],
        FontWeight::ExtraBlack => seq!['e', 'x', 't', 'r', 'a', '_', 'b', 'l', 'a', 'c', 'k'],
    }
}

/// The second spelling of a `FontWeight`, without `_`, where it has one.
pub open spec fn fontweight_alias(x: FontWeight) -> Seq<char> {
    match x {
        FontWeight::Thin => seq!['t', 'h', 'i', 'n'],
        FontWeight::ExtraLight => seq!['e', 'x', 't', 'r', 'a', 'l', 'i', 'g', 'h', 't'],
        FontWeight::Light => seq!['l', 'i', 'g', 'h', 't'],
        FontWeight::Normal => seq!['n', 'o', 'r', 'm', 'a', 'l'],
        FontWeight::Medium => seq!['m', 'e', 'd', 'i', 'u', 'm'],
        FontWeight::SemiBold => seq!['s', 'e', 'm', 'i', 'b', 'o', 'l', 'd'],
        FontWeight::Bold => seq!['b', 'o', 'l', 'd'],
        FontWeight::ExtraBold => seq!['e', 'x', 't', 'r', 'a', 'b', 'o', 'l', 'd'],
        FontWeight::Black => seq!['b', 'l', 'a', 'c', 'k'],
        FontWeight::ExtraBlack => seq!['e', 'x', 't', 'r', 'a', 'b', 'l', 'a', 'c', 'k'],
    }
}

/// Each `FontWeight` is read from its own name, and a text that is read at all is the name of
/// the value it gives or its second spelling: the names and the values correspond one to one.
pub proof fn lemma_fontweight_names(x: FontWeight, v: Seq<char>)
    ensures
        spec_font_weight(fontweight_name(x)) == Some(x),
        spec_font_weight(fontweight_alias(x)) == Some(x),
        spec_font_weight(v) == Some(x) ==> v == fontweight_name(x) || v == fontweight_alias(x),
{
}

} // verus!
