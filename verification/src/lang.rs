//! The closed set of languages the service understands, and the
//! bidirectional mapping between a language and its short wire code.

use vstd::prelude::*;

use crate::json::DecodeError;
use crate::text::str_eq;

verus! {

/// Languages supported by the service. Each variant has exactly one
/// canonical wire code (for example `English` is written `"en"` and
/// `BrazilianPortuguese` is written `"pt-BR"`).
#[derive(PartialEq, Eq, Structural, Clone, Copy, Debug)]
pub enum Language {
    BrazilianPortuguese,
    ChineseCantonese,
    ChineseSimplified,
    ChineseTraditional,
    English,
    Dutch,
    French,
    German,
    Italian,
    Japanese,
    Korean,
    Portuguese,
    Russian,
    Spanish,
    Ukranian,
}

/// The canonical wire code of a language.
pub open spec fn lang_code(l: Language) -> Seq<char> {
    match l {
        Language::BrazilianPortuguese => "pt-BR"@,
        Language::ChineseCantonese => "zh-HK"@,
        Language::ChineseSimplified => "zh-CN"@,
        Language::ChineseTraditional => "zh-TW"@,
        Language::English => "en"@,
        Language::Dutch => "nl"@,
        Language::French => "fr"@,
        Language::German => "de"@,
        Language::Italian => "it"@,
        Language::Japanese => "ja"@,
        Language::Korean => "ko"@,
        Language::Portuguese => "pt"@,
        Language::Russian => "ru"@,
        Language::Spanish => "es"@,
        Language::Ukranian => "uk"@,
    }
}

/// The language a wire code stands for, if it is one of the recognized
/// codes.
pub open spec fn lang_from_code(s: Seq<char>) -> Option<Language> {
    if s == "pt-BR"@ {
        Some(Language::BrazilianPortuguese)
    } else if s == "zh-HK"@ {
        Some(Language::ChineseCantonese)
    } else if s == "zh-CN"@ {
        Some(Language::ChineseSimplified)
    } else if s == "zh-TW"@ {
        Some(Language::ChineseTraditional)
    } else if s == "en"@ {
        Some(Language::English)
    } else if s == "nl"@ {
        Some(Language::Dutch)
    } else if s == "fr"@ {
        Some(Language::French)
    } else if s == "de"@ {
        Some(Language::German)
    } else if s == "it"@ {
        Some(Language::Italian)
    } else if s == "ja"@ {
        Some(Language::Japanese)
    } else if s == "ko"@ {
        Some(Language::Korean)
    } else if s == "pt"@ {
        Some(Language::Portuguese)
    } else if s == "ru"@ {
        Some(Language::Russian)
    } else if s == "es"@ {
        Some(Language::Spanish)
    } else if s == "uk"@ {
        Some(Language::Ukranian)
    } else {
        None
    }
}

impl Language {
    /// The canonical wire code of this language, as used by the service.
    pub fn value(&self) -> (r: &'static str)
        ensures
            r@ == lang_code(*self),
    {
        match *self {
            Language::BrazilianPortuguese => "pt-BR",
            Language::ChineseCantonese => "zh-HK",
            Language::ChineseSimplified => "zh-CN",
            Language::ChineseTraditional => "zh-TW",
            Language::English => "en",
            Language::Dutch => "nl",
            Language::French => "fr",
            Language::German => "de",
            Language::Italian => "it",
            Language::Japanese => "ja",
            Language::Korean => "ko",
            Language::Portuguese => "pt",
            Language::Russian => "ru",
            Language::Spanish => "es",
            Language::Ukranian => "uk",
        }
    }

    /// Decode a wire code. An unrecognized code is rejected with an error
    /// that names the offending string.
    pub fn from_code(s: &str) -> (r: Result<Language, DecodeError>)
        ensures
            match r {
                Ok(l) => lang_from_code(s@) == Some(l),
                Err(e) => lang_from_code(s@) is None && e.message@ == "Language "@ + s@
                    + " was not a supported string."@,
            },
    {
        if str_eq(s, "pt-BR") {
            Ok(Language::BrazilianPortuguese)
        } else if str_eq(s, "zh-HK") {
            Ok(Language::ChineseCantonese)
        } else if str_eq(s, "zh-CN") {
            Ok(Language::ChineseSimplified)
        } else if str_eq(s, "zh-TW") {
            Ok(Language::ChineseTraditional)
        } else if str_eq(s, "en") {
            Ok(Language::English)
        } else if str_eq(s, "nl") {
            Ok(Language::Dutch)
        } else if str_eq(s, "fr") {
            Ok(Language::French)
        } else if str_eq(s, "de") {
            Ok(Language::German)
        } else if str_eq(s, "it") {
            Ok(Language::Italian)
        } else if str_eq(s, "ja") {
            Ok(Language::Japanese)
        } else if str_eq(s, "ko") {
            Ok(Language::Korean)
        } else if str_eq(s, "pt") {
            Ok(Language::Portuguese)
        } else if str_eq(s, "ru") {
            Ok(Language::Russian)
        } else if str_eq(s, "es") {
            Ok(Language::Spanish)
        } else if str_eq(s, "uk") {
            Ok(Language::Ukranian)
        } else {
            let mut msg = String::from_str("Language ");
            msg.append(s);
            msg.append(" was not a supported string.");
            Err(DecodeError { message: msg })
        }
    }
}

impl Default for Language {
    /// The language used when none is given: English.
    fn default() -> (r: Language)
        ensures
            r == Language::English,
    {
        Language::English
    }
}

/// Encoding a language always yields one of the fixed documented codes,
/// and decoding that code gives the language back.
pub proof fn lemma_language_round_trip(l: Language)
    ensures
        lang_from_code(lang_code(l)) == Some(l),
{
    reveal_strlit("pt-BR");
    reveal_strlit("zh-HK");
    reveal_strlit("zh-CN");
    reveal_strlit("zh-TW");
    reveal_strlit("en");
    reveal_strlit("nl");
    reveal_strlit("fr");
    reveal_strlit("de");
    reveal_strlit("it");
    reveal_strlit("ja");
    reveal_strlit("ko");
    reveal_strlit("pt");
    reveal_strlit("ru");
    reveal_strlit("es");
    reveal_strlit("uk");
    assert("pt-BR"@.len() == 5);
    assert("pt-BR"@[0] == 'p');
    assert("pt-BR"@[1] == 't');
    assert("pt-BR"@[2] == '-');
    assert("pt-BR"@[3] == 'B');
    assert("pt-BR"@[4] == 'R');
    assert("zh-HK"@.len() == 5);
    assert("zh-HK"@[0] == 'z');
    assert("zh-HK"@[1] == 'h');
    assert("zh-HK"@[2] == '-');
    assert("zh-HK"@[3] == 'H');
    assert("zh-HK"@[4] == 'K');
    assert("zh-CN"@.len() == 5);
    assert("zh-CN"@[0] == 'z');
    assert("zh-CN"@[1] == 'h');
    assert("zh-CN"@[2] == '-');
    assert("zh-CN"@[3] == 'C');
    assert("zh-CN"@[4] == 'N');
    assert("zh-TW"@.len() == 5);
    assert("zh-TW"@[0] == 'z');
    assert("zh-TW"@[1] == 'h');
    assert("zh-TW"@[2] == '-');
    assert("zh-TW"@[3] == 'T');
    assert("zh-TW"@[4] == 'W');
    assert("en"@.len() == 2);
    assert("en"@[0] == 'e');
    assert("en"@[1] == 'n');
    assert("nl"@.len() == 2);
    assert("nl"@[0] == 'n');
    assert("nl"@[1] == 'l');
    assert("fr"@.len() == 2);
    assert("fr"@[0] == 'f');
    assert("fr"@[1] == 'r');
    assert("de"@.len() == 2);
    assert("de"@[0] == 'd');
    assert("de"@[1] == 'e');
    assert("it"@.len() == 2);
    assert("it"@[0] == 'i');
    assert("it"@[1] == 't');
    assert("ja"@.len() == 2);
    assert("ja"@[0] == 'j');
    assert("ja"@[1] == 'a');
    assert("ko"@.len() == 2);
    assert("ko"@[0] == 'k');
    assert("ko"@[1] == 'o');
    assert("pt"@.len() == 2);
    assert("pt"@[0] == 'p');
    assert("pt"@[1] == 't');
    assert("ru"@.len() == 2);
    assert("ru"@[0] == 'r');
    assert("ru"@[1] == 'u');
    assert("es"@.len() == 2);
    assert("es"@[0] == 'e');
    assert("es"@[1] == 's');
    assert("uk"@.len() == 2);
    assert("uk"@[0] == 'u');
    assert("uk"@[1] == 'k');
    match l {
        Language::BrazilianPortuguese => assert(lang_from_code(lang_code(l)) == Some(l)),
        Language::ChineseCantonese => assert(lang_from_code(lang_code(l)) == Some(l)),
        Language::ChineseSimplified => assert(lang_from_code(lang_code(l)) == Some(l)),
        Language::ChineseTraditional => assert(lang_from_code(lang_code(l)) == Some(l)),
        Language::English => assert(lang_from_code(lang_code(l)) == Some(l)),
        Language::Dutch => assert(lang_from_code(lang_code(l)) == Some(l)),
        Language::French => assert(lang_from_code(lang_code(l)) == Some(l)),
        Language::German => assert(lang_from_code(lang_code(l)) == Some(l)),
        Language::Italian => assert(lang_from_code(lang_code(l)) == Some(l)),
        Language::Japanese => assert(lang_from_code(lang_code(l)) == Some(l)),
        Language::Korean => assert(lang_from_code(lang_code(l)) == Some(l)),
        Language::Portuguese => assert(lang_from_code(lang_code(l)) == Some(l)),
        Language::Russian => assert(lang_from_code(lang_code(l)) == Some(l)),
        Language::Spanish => assert(lang_from_code(lang_code(l)) == Some(l)),
        Language::Ukranian => assert(lang_from_code(lang_code(l)) == Some(l)),
    }
}

} // verus!
