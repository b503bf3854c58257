//! Two-language user-facing text.

use vstd::prelude::*;

verus! {

/// The language user-facing replies are written in.
#[derive(Clone, Copy, Debug, PartialEq, Eq, Structural)]
pub enum Language {
    English,
    Chinese,
}

/// The text for `lang` out of an English and a Chinese wording.
pub open spec fn tr(lang: Language, en: Seq<char>, zh: Seq<char>) -> Seq<char> {
    match lang {
        Language::English => en,
        Language::Chinese => zh,
    }
}

/// Picks the wording for `lang`.
pub fn text(lang: Language, en: &'static str, zh: &'static str) -> (r: &'static str)
    ensures
        r@ == tr(lang, en@, zh@),
{
    match lang {
        Language::English => en,
        Language::Chinese => zh,
    }
}

} // verus!
