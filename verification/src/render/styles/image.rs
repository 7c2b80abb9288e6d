use vstd::prelude::*;

use crate::language::text::{
    ascii_lowercase, chars_of, is_ascii_text, same_chars, to_lowercase, unicode_lowercase,
};
use crate::render::styles::StyleError;

verus! {

/// How an image is drawn.
#[derive(Debug, Clone, Copy, PartialEq, Eq, Structural)]
pub struct ImageStyle {
    pub fit: Option<ImageFit>,
}

impl Default for ImageStyle {
    fn default() -> (r: Self)
        ensures
            r.fit is None,
    {
        ImageStyle { fit: None }
    }
}

/// How an image fills its box.
#[derive(Debug, Clone, Copy, PartialEq, Eq, Structural)]
pub enum ImageFit {
    Cover,
    Contain,
    Fill,
}

/// The fit named by the lower-case text `l`.
pub open spec fn spec_image_fit(l: Seq<char>) -> Option<ImageFit> {
    if l == seq!['c', 'o', 'v', 'e', 'r'] {
        Some(ImageFit::Cover)
    } else if l == seq!['c', 'o', 'n', 't', 'a', 'i', 'n'] {
        Some(ImageFit::Contain)
    } else if l == seq!['f', 'i', 'l', 'l'] {
        Some(ImageFit::Fill)
    } else {
        None
    }
}

impl ImageFit {
    /// Reads `cover`, `contain` or `fill`, in any case. A refusal carries the text in lower case.
    pub fn from_str(value: &str) -> (r: Result<ImageFit, StyleError>)
        ensures
            is_ascii_text(value@) ==> unicode_lowercase(value@) == ascii_lowercase(value@),
            match spec_image_fit(unicode_lowercase(value@)) {
                Some(f) => r == Ok::<ImageFit, StyleError>(f),
                None => r matches Err(StyleError::InvalidFit(v)) && v@ == unicode_lowercase(
                    value@,
                ),
            },
    {
        let l = to_lowercase(value);
        let v = chars_of(l.as_str());
        if same_chars(&v, &['c', 'o', 'v', 'e', 'r']) {
            Ok(ImageFit::Cover)
        } else if same_chars(&v, &['c', 'o', 'n', 't', 'a', 'i', 'n']) {
            Ok(ImageFit::Contain)
        } else if same_chars(&v, &['f', 'i', 'l', 'l']) {
            Ok(ImageFit::Fill)
        } else {
            Err(StyleError::InvalidFit(l))
        }
    }
}


// ---------------------------------------------------------------------------
// Names and values
// ---------------------------------------------------------------------------
/// The documented name of each `ImageFit` (in lower case).
pub open spec fn imagefit_name(x: ImageFit) -> Seq<char> {
    match x {
        ImageFit::Cover => seq!['c', 'o', 'v', 'e', 'r'],
        ImageFit::Contain => seq!['c', 'o', 'n', 't', 'a', 'i', 'n'],
        ImageFit::Fill => seq!['f', 'i', 'l', 'l'],
    }
}

/// Each `ImageFit` is read from its own name, and a text that is read at all is the name of
/// the value it gives: the names and the values correspond one to one.
pub proof fn lemma_imagefit_names(x: ImageFit, v: Seq<char>)
    ensures
        spec_image_fit(imagefit_name(x)) == Some(x),
        spec_image_fit(v) == Some(x) ==> v == imagefit_name(x),
{
}

} // verus!
