//! The language a page declares.
use vstd::prelude::*;
use vstd::string::*;

verus! {

broadcast use vstd::string::group_string_axioms;

/// A page's localization: the language found, and whether the page declared
/// it (then it is certainly right) or it is the default guess.
pub struct Localization {
    pub code: String,
    pub declared: bool,
}

/// To determine a website's localization, we use the following things:
/// 1. the `lang` attribute of the `html` element (`html_lang`);
/// 2. the `lang` attribute of the first
///    `meta[http-equiv="content_language"]` element (`meta_lang`: `None` when
///    there is no such element, `Some(None)` when it has no `lang`).
/// Without either, the default `en-US`, undeclared.
pub fn get_localization(html_lang: Option<String>, meta_lang: Option<Option<String>>) -> (loc: Localization)
    ensures
        match html_lang {
            Some(l) => loc.code@ == l@ && loc.declared,
            None => match meta_lang {
                Some(Some(l)) => loc.code@ == l@ && loc.declared,
                _ => loc.code@ == "en-US"@ && !loc.declared,
            },
        },
{
    if let Some(lang) = html_lang {
        return Localization { code: lang, declared: true };
    }
    match meta_lang {
        Some(Some(lang)) => Localization { code: lang, declared: true },
        _ => Localization { code: String::from_str("en-US"), declared: false },
    }
}

} // verus!
