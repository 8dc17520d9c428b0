//! The language inventory: one row per language (ISO 639-3 code as the
//! variant name, ISO 639-1 / NLLB-200 / Whisper codes where they exist, the
//! English name, the primary script, the Russian localized name and a flag
//! emoji). Variant order is the detector's model-column order.
use vstd::prelude::*;

use crate::text::{ascii_fold, chars_eq_ignore_ascii_case, eq_ignore_ascii_case, str_chars};

verus! {

/// Writing system of a language (or of a single character via
/// [`char_script`]). `Kana` covers hiragana and katakana — the script unique
/// to Japanese among the supported languages.
#[derive(Copy, Clone, Debug, PartialEq, Eq, Hash, Structural)]
pub enum Script {
    Latin,
    Cyrillic,
    Devanagari,
    Arabic,
    Han,
    Kana,
}

/// Script of one code point, restricted to the scripts of the inventory;
/// the signs `×` (U+00D7) and `÷` (U+00F7) inside the Latin-1 letter block
/// belong to no script.
pub open spec fn spec_char_script(c: char) -> Option<Script> {
    let u = c as u32;
    if (0x41 <= u && u <= 0x5A) || (0x61 <= u && u <= 0x7A) || (0xC0 <= u && u <= 0x24F && u != 0xD7
        && u != 0xF7) || (0x1E00 <= u && u <= 0x1EFF) {
        Some(Script::Latin)
    } else if (0x0400 <= u && u <= 0x052F) || (0x2DE0 <= u && u <= 0x2DFF) || (0xA640 <= u && u
        <= 0xA69F) {
        Some(Script::Cyrillic)
    } else if 0x0900 <= u && u <= 0x097F {
        Some(Script::Devanagari)
    } else if (0x0600 <= u && u <= 0x06FF) || (0x0750 <= u && u <= 0x077F) || (0xFB50 <= u && u
        <= 0xFDFF) || (0xFE70 <= u && u <= 0xFEFF) {
        Some(Script::Arabic)
    } else if (0x3040 <= u && u <= 0x309F) || (0x30A0 <= u && u <= 0x30FF) || (0x31F0 <= u && u
        <= 0x31FF) || (0xFF66 <= u && u <= 0xFF9D) {
        Some(Script::Kana)
    } else if (0x3400 <= u && u <= 0x4DBF) || (0x4E00 <= u && u <= 0x9FFF) || (0xF900 <= u && u
        <= 0xFAFF) {
        Some(Script::Han)
    } else {
        None
    }
}

/// Script of a single code point, restricted to the scripts this inventory
/// cares about; `None` for anything else (digits, punctuation, other
/// scripts).
pub fn char_script(c: char) -> (r: Option<Script>)
    ensures
        r == spec_char_script(c),
{
    let u = c as u32;
    if (0x41 <= u && u <= 0x5A) || (0x61 <= u && u <= 0x7A) || (0xC0 <= u && u <= 0x24F && u != 0xD7
        && u != 0xF7) || (0x1E00 <= u && u <= 0x1EFF) {
        Some(Script::Latin)
    } else if (0x0400 <= u && u <= 0x052F) || (0x2DE0 <= u && u <= 0x2DFF) || (0xA640 <= u && u
        <= 0xA69F) {
        Some(Script::Cyrillic)
    } else if 0x0900 <= u && u <= 0x097F {
        Some(Script::Devanagari)
    } else if (0x0600 <= u && u <= 0x06FF) || (0x0750 <= u && u <= 0x077F) || (0xFB50 <= u && u
        <= 0xFDFF) || (0xFE70 <= u && u <= 0xFEFF) {
        Some(Script::Arabic)
    } else if (0x3040 <= u && u <= 0x309F) || (0x30A0 <= u && u <= 0x30FF) || (0x31F0 <= u && u
        <= 0x31FF) || (0xFF66 <= u && u <= 0xFF9D) {
        Some(Script::Kana)
    } else if (0x3400 <= u && u <= 0x4DBF) || (0x4E00 <= u && u <= 0x9FFF) || (0xF900 <= u && u
        <= 0xFAFF) {
        Some(Script::Han)
    } else {
        None
    }
}

/// Supported language. Variant order is the detector's model-column order;
/// the variant name is the ISO 639-3 code.
#[derive(Copy, Clone, Debug, PartialEq, Eq, Hash, PartialOrd, Ord, Structural)]
pub enum Lang {
    Rus,
    Ukr,
    Bel,
    Bul,
    Mkd,
    Srp,
    Kaz,
    Kir,
    Tgk,
    Uzn,
    Tat,
    Bak,
    Chv,
    Sah,
    Tyv,
    Mon,
    Oss,
    Che,
    Udm,
    Mhr,
    Kpv,
    Eng,
    Spa,
    Fra,
    Por,
    Deu,
    Cmn,
    Jpn,
    Hin,
    Ara,
}

/// Number of languages in the inventory.
pub const NUM_LANGS: usize = 30;

/// Failed to parse a [`Lang`] from a string: holds the rejected input.
#[derive(Debug, Clone, PartialEq, Eq)]
pub struct UnknownLang(pub String);

impl UnknownLang {
    /// Human-readable description: `unknown language code: <input>`.
    pub fn message(&self) -> (r: String)
        ensures
            r@ == "unknown language code: "@ + self.0@,
    {
        let mut out = String::from_str("unknown language code: ");
        out.append(self.0.as_str());
        out
    }
}

impl Lang {
    /// All languages, in model-column order.
    pub const ALL: [Lang; NUM_LANGS] = [
        Lang::Rus,
        Lang::Ukr,
        Lang::Bel,
        Lang::Bul,
        Lang::Mkd,
        Lang::Srp,
        Lang::Kaz,
        Lang::Kir,
        Lang::Tgk,
        Lang::Uzn,
        Lang::Tat,
        Lang::Bak,
        Lang::Chv,
        Lang::Sah,
        Lang::Tyv,
        Lang::Mon,
        Lang::Oss,
        Lang::Che,
        Lang::Udm,
        Lang::Mhr,
        Lang::Kpv,
        Lang::Eng,
        Lang::Spa,
        Lang::Fra,
        Lang::Por,
        Lang::Deu,
        Lang::Cmn,
        Lang::Jpn,
        Lang::Hin,
        Lang::Ara,
    ];

    /// Position in [`Lang::ALL`] (the model-column index).
    pub open spec fn spec_index(self) -> nat {
        match self {
            Lang::Rus => 0,
            Lang::Ukr => 1,
            Lang::Bel => 2,
            Lang::Bul => 3,
            Lang::Mkd => 4,
            Lang::Srp => 5,
            Lang::Kaz => 6,
            Lang::Kir => 7,
            Lang::Tgk => 8,
            Lang::Uzn => 9,
            Lang::Tat => 10,
            Lang::Bak => 11,
            Lang::Chv => 12,
            Lang::Sah => 13,
            Lang::Tyv => 14,
            Lang::Mon => 15,
            Lang::Oss => 16,
            Lang::Che => 17,
            Lang::Udm => 18,
            Lang::Mhr => 19,
            Lang::Kpv => 20,
            Lang::Eng => 21,
            Lang::Spa => 22,
            Lang::Fra => 23,
            Lang::Por => 24,
            Lang::Deu => 25,
            Lang::Cmn => 26,
            Lang::Jpn => 27,
            Lang::Hin => 28,
            Lang::Ara => 29,
        }
    }

    /// Position in [`Lang::ALL`] (the model-column index).
    pub fn index(self) -> (r: usize)
        ensures
            r == self.spec_index(),
    {
        match self {
            Lang::Rus => 0,
            Lang::Ukr => 1,
            Lang::Bel => 2,
            Lang::Bul => 3,
            Lang::Mkd => 4,
            Lang::Srp => 5,
            Lang::Kaz => 6,
            Lang::Kir => 7,
            Lang::Tgk => 8,
            Lang::Uzn => 9,
            Lang::Tat => 10,
            Lang::Bak => 11,
            Lang::Chv => 12,
            Lang::Sah => 13,
            Lang::Tyv => 14,
            Lang::Mon => 15,
            Lang::Oss => 16,
            Lang::Che => 17,
            Lang::Udm => 18,
            Lang::Mhr => 19,
            Lang::Kpv => 20,
            Lang::Eng => 21,
            Lang::Spa => 22,
            Lang::Fra => 23,
            Lang::Por => 24,
            Lang::Deu => 25,
            Lang::Cmn => 26,
            Lang::Jpn => 27,
            Lang::Hin => 28,
            Lang::Ara => 29,
        }
    }

    /// ISO 639-3 code.
    pub open spec fn spec_code(self) -> Seq<char> {
        match self {
            Lang::Rus => "rus"@,
            Lang::Ukr => "ukr"@,
            Lang::Bel => "bel"@,
            Lang::Bul => "bul"@,
            Lang::Mkd => "mkd"@,
            Lang::Srp => "srp"@,
            Lang::Kaz => "kaz"@,
            Lang::Kir => "kir"@,
            Lang::Tgk => "tgk"@,
            Lang::Uzn => "uzn"@,
            Lang::Tat => "tat"@,
            Lang::Bak => "bak"@,
            Lang::Chv => "chv"@,
            Lang::Sah => "sah"@,
            Lang::Tyv => "tyv"@,
            Lang::Mon => "mon"@,
            Lang::Oss => "oss"@,
            Lang::Che => "che"@,
            Lang::Udm => "udm"@,
            Lang::Mhr => "mhr"@,
            Lang::Kpv => "kpv"@,
            Lang::Eng => "eng"@,
            Lang::Spa => "spa"@,
            Lang::Fra => "fra"@,
            Lang::Por => "por"@,
            Lang::Deu => "deu"@,
            Lang::Cmn => "cmn"@,
            Lang::Jpn => "jpn"@,
            Lang::Hin => "hin"@,
            Lang::Ara => "ara"@,
        }
    }

    /// ISO 639-3 code.
    pub fn code(self) -> (r: &'static str)
        ensures
            r@ == self.spec_code(),
    {
        match self {
            Lang::Rus => "rus",
            Lang::Ukr => "ukr",
            Lang::Bel => "bel",
            Lang::Bul => "bul",
            Lang::Mkd => "mkd",
            Lang::Srp => "srp",
            Lang::Kaz => "kaz",
            Lang::Kir => "kir",
            Lang::Tgk => "tgk",
            Lang::Uzn => "uzn",
            Lang::Tat => "tat",
            Lang::Bak => "bak",
            Lang::Chv => "chv",
            Lang::Sah => "sah",
            Lang::Tyv => "tyv",
            Lang::Mon => "mon",
            Lang::Oss => "oss",
            Lang::Che => "che",
            Lang::Udm => "udm",
            Lang::Mhr => "mhr",
            Lang::Kpv => "kpv",
            Lang::Eng => "eng",
            Lang::Spa => "spa",
            Lang::Fra => "fra",
            Lang::Por => "por",
            Lang::Deu => "deu",
            Lang::Cmn => "cmn",
            Lang::Jpn => "jpn",
            Lang::Hin => "hin",
            Lang::Ara => "ara",
        }
    }

    /// ISO 639-3 code (alias of [`Lang::code`]).
    pub fn iso_639_3(self) -> (r: &'static str)
        ensures
            r@ == self.spec_code(),
    {
        self.code()
    }

    /// ISO 639-1 code, when the language has one.
    pub open spec fn spec_iso_639_1(self) -> Option<Seq<char>> {
        match self {
            Lang::Rus => Some("ru"@),
            Lang::Ukr => Some("uk"@),
            Lang::Bel => Some("be"@),
            Lang::Bul => Some("bg"@),
            Lang::Mkd => Some("mk"@),
            Lang::Srp => Some("sr"@),
            Lang::Kaz => Some("kk"@),
            Lang::Kir => Some("ky"@),
            Lang::Tgk => Some("tg"@),
            Lang::Uzn => Some("uz"@),
            Lang::Tat => Some("tt"@),
            Lang::Bak => Some("ba"@),
            Lang::Chv => Some("cv"@),
            Lang::Sah => None,
            Lang::Tyv => None,
            Lang::Mon => Some("mn"@),
            Lang::Oss => Some("os"@),
            Lang::Che => Some("ce"@),
            Lang::Udm => None,
            Lang::Mhr => None,
            Lang::Kpv => None,
            Lang::Eng => Some("en"@),
            Lang::Spa => Some("es"@),
            Lang::Fra => Some("fr"@),
            Lang::Por => Some("pt"@),
            Lang::Deu => Some("de"@),
            Lang::Cmn => Some("zh"@),
            Lang::Jpn => Some("ja"@),
            Lang::Hin => Some("hi"@),
            Lang::Ara => Some("ar"@),
        }
    }

    /// ISO 639-1 code, when the language has one.
    pub fn iso_639_1(self) -> (r: Option<&'static str>)
        ensures
            match r {
                Some(s) => self.spec_iso_639_1() == Some(s@),
                None => self.spec_iso_639_1() is None,
            },
    {
        match self {
            Lang::Rus => Some("ru"),
            Lang::Ukr => Some("uk"),
            Lang::Bel => Some("be"),
            Lang::Bul => Some("bg"),
            Lang::Mkd => Some("mk"),
            Lang::Srp => Some("sr"),
            Lang::Kaz => Some("kk"),
            Lang::Kir => Some("ky"),
            Lang::Tgk => Some("tg"),
            Lang::Uzn => Some("uz"),
            Lang::Tat => Some("tt"),
            Lang::Bak => Some("ba"),
            Lang::Chv => Some("cv"),
            Lang::Sah => None,
            Lang::Tyv => None,
            Lang::Mon => Some("mn"),
            Lang::Oss => Some("os"),
            Lang::Che => Some("ce"),
            Lang::Udm => None,
            Lang::Mhr => None,
            Lang::Kpv => None,
            Lang::Eng => Some("en"),
            Lang::Spa => Some("es"),
            Lang::Fra => Some("fr"),
            Lang::Por => Some("pt"),
            Lang::Deu => Some("de"),
            Lang::Cmn => Some("zh"),
            Lang::Jpn => Some("ja"),
            Lang::Hin => Some("hi"),
            Lang::Ara => Some("ar"),
        }
    }

    /// NLLB-200 / FLORES-200 code (a FLORES-style script-qualified code where
    /// NLLB does not cover the variety).
    pub open spec fn spec_nllb(self) -> Option<Seq<char>> {
        match self {
            Lang::Rus => Some("rus_Cyrl"@),
            Lang::Ukr => Some("ukr_Cyrl"@),
            Lang::Bel => Some("bel_Cyrl"@),
            Lang::Bul => Some("bul_Cyrl"@),
            Lang::Mkd => Some("mkd_Cyrl"@),
            Lang::Srp => Some("srp_Cyrl"@),
            Lang::Kaz => Some("kaz_Cyrl"@),
            Lang::Kir => Some("kir_Cyrl"@),
            Lang::Tgk => Some("tgk_Cyrl"@),
            Lang::Uzn => Some("uzn_Cyrl"@),
            Lang::Tat => Some("tat_Cyrl"@),
            Lang::Bak => Some("bak_Cyrl"@),
            Lang::Chv => Some("chv_Cyrl"@),
            Lang::Sah => Some("sah_Cyrl"@),
            Lang::Tyv => Some("tyv_Cyrl"@),
            Lang::Mon => Some("khk_Cyrl"@),
            Lang::Oss => Some("oss_Cyrl"@),
            Lang::Che => Some("che_Cyrl"@),
            Lang::Udm => Some("udm_Cyrl"@),
            Lang::Mhr => Some("mari_Cyrl"@),
            Lang::Kpv => Some("kpv_Cyrl"@),
            Lang::Eng => Some("eng_Latn"@),
            Lang::Spa => Some("spa_Latn"@),
            Lang::Fra => Some("fra_Latn"@),
            Lang::Por => Some("por_Latn"@),
            Lang::Deu => Some("deu_Latn"@),
            Lang::Cmn => Some("cmn_Hans"@),
            Lang::Jpn => Some("jpn_Jpan"@),
            Lang::Hin => Some("hin_Deva"@),
            Lang::Ara => Some("ara_Arab"@),
        }
    }

    /// NLLB-200 / FLORES-200 code (a FLORES-style script-qualified code where
    /// NLLB does not cover the variety).
    pub fn nllb(self) -> (r: Option<&'static str>)
        ensures
            match r {
                Some(s) => self.spec_nllb() == Some(s@),
                None => self.spec_nllb() is None,
            },
    {
        match self {
            Lang::Rus => Some("rus_Cyrl"),
            Lang::Ukr => Some("ukr_Cyrl"),
            Lang::Bel => Some("bel_Cyrl"),
            Lang::Bul => Some("bul_Cyrl"),
            Lang::Mkd => Some("mkd_Cyrl"),
            Lang::Srp => Some("srp_Cyrl"),
            Lang::Kaz => Some("kaz_Cyrl"),
            Lang::Kir => Some("kir_Cyrl"),
            Lang::Tgk => Some("tgk_Cyrl"),
            Lang::Uzn => Some("uzn_Cyrl"),
            Lang::Tat => Some("tat_Cyrl"),
            Lang::Bak => Some("bak_Cyrl"),
            Lang::Chv => Some("chv_Cyrl"),
            Lang::Sah => Some("sah_Cyrl"),
            Lang::Tyv => Some("tyv_Cyrl"),
            Lang::Mon => Some("khk_Cyrl"),
            Lang::Oss => Some("oss_Cyrl"),
            Lang::Che => Some("che_Cyrl"),
            Lang::Udm => Some("udm_Cyrl"),
            Lang::Mhr => Some("mari_Cyrl"),
            Lang::Kpv => Some("kpv_Cyrl"),
            Lang::Eng => Some("eng_Latn"),
            Lang::Spa => Some("spa_Latn"),
            Lang::Fra => Some("fra_Latn"),
            Lang::Por => Some("por_Latn"),
            Lang::Deu => Some("deu_Latn"),
            Lang::Cmn => Some("cmn_Hans"),
            Lang::Jpn => Some("jpn_Jpan"),
            Lang::Hin => Some("hin_Deva"),
            Lang::Ara => Some("ara_Arab"),
        }
    }

    /// Whisper language token, when Whisper supports the language.
    pub open spec fn spec_whisper(self) -> Option<Seq<char>> {
        match self {
            Lang::Rus => Some("russian"@),
            Lang::Ukr => Some("ukrainian"@),
            Lang::Bel => Some("belarusian"@),
            Lang::Bul => Some("bulgarian"@),
            Lang::Mkd => Some("macedonian"@),
            Lang::Srp => Some("serbian"@),
            Lang::Kaz => Some("kazakh"@),
            Lang::Kir => None,
            Lang::Tgk => Some("tajik"@),
            Lang::Uzn => Some("uzbek"@),
            Lang::Tat => Some("tatar"@),
            Lang::Bak => Some("bashkir"@),
            Lang::Chv => None,
            Lang::Sah => None,
            Lang::Tyv => None,
            Lang::Mon => Some("mongolian"@),
            Lang::Oss => None,
            Lang::Che => None,
            Lang::Udm => None,
            Lang::Mhr => None,
            Lang::Kpv => None,
            Lang::Eng => Some("english"@),
            Lang::Spa => Some("spanish"@),
            Lang::Fra => Some("french"@),
            Lang::Por => Some("portuguese"@),
            Lang::Deu => Some("german"@),
            Lang::Cmn => Some("chinese"@),
            Lang::Jpn => Some("japanese"@),
            Lang::Hin => Some("hindi"@),
            Lang::Ara => Some("arabic"@),
        }
    }

    /// Whisper language token, when Whisper supports the language.
    pub fn whisper(self) -> (r: Option<&'static str>)
        ensures
            match r {
                Some(s) => self.spec_whisper() == Some(s@),
                None => self.spec_whisper() is None,
            },
    {
        match self {
            Lang::Rus => Some("russian"),
            Lang::Ukr => Some("ukrainian"),
            Lang::Bel => Some("belarusian"),
            Lang::Bul => Some("bulgarian"),
            Lang::Mkd => Some("macedonian"),
            Lang::Srp => Some("serbian"),
            Lang::Kaz => Some("kazakh"),
            Lang::Kir => None,
            Lang::Tgk => Some("tajik"),
            Lang::Uzn => Some("uzbek"),
            Lang::Tat => Some("tatar"),
            Lang::Bak => Some("bashkir"),
            Lang::Chv => None,
            Lang::Sah => None,
            Lang::Tyv => None,
            Lang::Mon => Some("mongolian"),
            Lang::Oss => None,
            Lang::Che => None,
            Lang::Udm => None,
            Lang::Mhr => None,
            Lang::Kpv => None,
            Lang::Eng => Some("english"),
            Lang::Spa => Some("spanish"),
            Lang::Fra => Some("french"),
            Lang::Por => Some("portuguese"),
            Lang::Deu => Some("german"),
            Lang::Cmn => Some("chinese"),
            Lang::Jpn => Some("japanese"),
            Lang::Hin => Some("hindi"),
            Lang::Ara => Some("arabic"),
        }
    }

    /// English name.
    pub open spec fn spec_name(self) -> Seq<char> {
        match self {
            Lang::Rus => "Russian"@,
            Lang::Ukr => "Ukrainian"@,
            Lang::Bel => "Belarusian"@,
            Lang::Bul => "Bulgarian"@,
            Lang::Mkd => "Macedonian"@,
            Lang::Srp => "Serbian"@,
            Lang::Kaz => "Kazakh"@,
            Lang::Kir => "Kyrgyz"@,
            Lang::Tgk => "Tajik"@,
            Lang::Uzn => "Uzbek"@,
            Lang::Tat => "Tatar"@,
            Lang::Bak => "Bashkir"@,
            Lang::Chv => "Chuvash"@,
            Lang::Sah => "Sakha"@,
            Lang::Tyv => "Tuvan"@,
            Lang::Mon => "Mongolian"@,
            Lang::Oss => "Ossetian"@,
            Lang::Che => "Chechen"@,
            Lang::Udm => "Udmurt"@,
            Lang::Mhr => "Mari"@,
            Lang::Kpv => "Komi"@,
            Lang::Eng => "English"@,
            Lang::Spa => "Spanish"@,
            Lang::Fra => "French"@,
            Lang::Por => "Portuguese"@,
            Lang::Deu => "German"@,
            Lang::Cmn => "Mandarin"@,
            Lang::Jpn => "Japanese"@,
            Lang::Hin => "Hindi"@,
            Lang::Ara => "Arabic"@,
        }
    }

    /// English name.
    pub fn name(self) -> (r: &'static str)
        ensures
            r@ == self.spec_name(),
    {
        match self {
            Lang::Rus => "Russian",
            Lang::Ukr => "Ukrainian",
            Lang::Bel => "Belarusian",
            Lang::Bul => "Bulgarian",
            Lang::Mkd => "Macedonian",
            Lang::Srp => "Serbian",
            Lang::Kaz => "Kazakh",
            Lang::Kir => "Kyrgyz",
            Lang::Tgk => "Tajik",
            Lang::Uzn => "Uzbek",
            Lang::Tat => "Tatar",
            Lang::Bak => "Bashkir",
            Lang::Chv => "Chuvash",
            Lang::Sah => "Sakha",
            Lang::Tyv => "Tuvan",
            Lang::Mon => "Mongolian",
            Lang::Oss => "Ossetian",
            Lang::Che => "Chechen",
            Lang::Udm => "Udmurt",
            Lang::Mhr => "Mari",
            Lang::Kpv => "Komi",
            Lang::Eng => "English",
            Lang::Spa => "Spanish",
            Lang::Fra => "French",
            Lang::Por => "Portuguese",
            Lang::Deu => "German",
            Lang::Cmn => "Mandarin",
            Lang::Jpn => "Japanese",
            Lang::Hin => "Hindi",
            Lang::Ara => "Arabic",
        }
    }

    /// Primary script of the language.
    pub open spec fn spec_script(self) -> Script {
        match self {
            Lang::Rus => Script::Cyrillic,
            Lang::Ukr => Script::Cyrillic,
            Lang::Bel => Script::Cyrillic,
            Lang::Bul => Script::Cyrillic,
            Lang::Mkd => Script::Cyrillic,
            Lang::Srp => Script::Cyrillic,
            Lang::Kaz => Script::Cyrillic,
            Lang::Kir => Script::Cyrillic,
            Lang::Tgk => Script::Cyrillic,
            Lang::Uzn => Script::Cyrillic,
            Lang::Tat => Script::Cyrillic,
            Lang::Bak => Script::Cyrillic,
            Lang::Chv => Script::Cyrillic,
            Lang::Sah => Script::Cyrillic,
            Lang::Tyv => Script::Cyrillic,
            Lang::Mon => Script::Cyrillic,
            Lang::Oss => Script::Cyrillic,
            Lang::Che => Script::Cyrillic,
            Lang::Udm => Script::Cyrillic,
            Lang::Mhr => Script::Cyrillic,
            Lang::Kpv => Script::Cyrillic,
            Lang::Eng => Script::Latin,
            Lang::Spa => Script::Latin,
            Lang::Fra => Script::Latin,
            Lang::Por => Script::Latin,
            Lang::Deu => Script::Latin,
            Lang::Cmn => Script::Han,
            Lang::Jpn => Script::Kana,
            Lang::Hin => Script::Devanagari,
            Lang::Ara => Script::Arabic,
        }
    }

    /// Primary script of the language.
    pub fn script(self) -> (r: Script)
        ensures
            r == self.spec_script(),
    {
        match self {
            Lang::Rus => Script::Cyrillic,
            Lang::Ukr => Script::Cyrillic,
            Lang::Bel => Script::Cyrillic,
            Lang::Bul => Script::Cyrillic,
            Lang::Mkd => Script::Cyrillic,
            Lang::Srp => Script::Cyrillic,
            Lang::Kaz => Script::Cyrillic,
            Lang::Kir => Script::Cyrillic,
            Lang::Tgk => Script::Cyrillic,
            Lang::Uzn => Script::Cyrillic,
            Lang::Tat => Script::Cyrillic,
            Lang::Bak => Script::Cyrillic,
            Lang::Chv => Script::Cyrillic,
            Lang::Sah => Script::Cyrillic,
            Lang::Tyv => Script::Cyrillic,
            Lang::Mon => Script::Cyrillic,
            Lang::Oss => Script::Cyrillic,
            Lang::Che => Script::Cyrillic,
            Lang::Udm => Script::Cyrillic,
            Lang::Mhr => Script::Cyrillic,
            Lang::Kpv => Script::Cyrillic,
            Lang::Eng => Script::Latin,
            Lang::Spa => Script::Latin,
            Lang::Fra => Script::Latin,
            Lang::Por => Script::Latin,
            Lang::Deu => Script::Latin,
            Lang::Cmn => Script::Han,
            Lang::Jpn => Script::Kana,
            Lang::Hin => Script::Devanagari,
            Lang::Ara => Script::Arabic,
        }
    }

    /// Flag emoji of the primary speaker country; republic languages within
    /// Russia conventionally take the Russian flag.
    pub open spec fn spec_flag(self) -> Seq<char> {
        match self {
            Lang::Rus => "🇷🇺"@,
            Lang::Ukr => "🇺🇦"@,
            Lang::Bel => "🇧🇾"@,
            Lang::Bul => "🇧🇬"@,
            Lang::Mkd => "🇲🇰"@,
            Lang::Srp => "🇷🇸"@,
            Lang::Kaz => "🇰🇿"@,
            Lang::Kir => "🇰🇬"@,
            Lang::Tgk => "🇹🇯"@,
            Lang::Uzn => "🇺🇿"@,
            Lang::Tat => "🇷🇺"@,
            Lang::Bak => "🇷🇺"@,
            Lang::Chv => "🇷🇺"@,
            Lang::Sah => "🇷🇺"@,
            Lang::Tyv => "🇷🇺"@,
            Lang::Mon => "🇲🇳"@,
            Lang::Oss => "🇷🇺"@,
            Lang::Che => "🇷🇺"@,
            Lang::Udm => "🇷🇺"@,
            Lang::Mhr => "🇷🇺"@,
            Lang::Kpv => "🇷🇺"@,
            Lang::Eng => "🇬🇧"@,
            Lang::Spa => "🇪🇸"@,
            Lang::Fra => "🇫🇷"@,
            Lang::Por => "🇵🇹"@,
            Lang::Deu => "🇩🇪"@,
            Lang::Cmn => "🇨🇳"@,
            Lang::Jpn => "🇯🇵"@,
            Lang::Hin => "🇮🇳"@,
            Lang::Ara => "🇦🇪"@,
        }
    }

    /// Flag emoji of the primary speaker country; republic languages within
    /// Russia conventionally take the Russian flag.
    pub fn flag(self) -> (r: &'static str)
        ensures
            r@ == self.spec_flag(),
    {
        match self {
            Lang::Rus => "🇷🇺",
            Lang::Ukr => "🇺🇦",
            Lang::Bel => "🇧🇾",
            Lang::Bul => "🇧🇬",
            Lang::Mkd => "🇲🇰",
            Lang::Srp => "🇷🇸",
            Lang::Kaz => "🇰🇿",
            Lang::Kir => "🇰🇬",
            Lang::Tgk => "🇹🇯",
            Lang::Uzn => "🇺🇿",
            Lang::Tat => "🇷🇺",
            Lang::Bak => "🇷🇺",
            Lang::Chv => "🇷🇺",
            Lang::Sah => "🇷🇺",
            Lang::Tyv => "🇷🇺",
            Lang::Mon => "🇲🇳",
            Lang::Oss => "🇷🇺",
            Lang::Che => "🇷🇺",
            Lang::Udm => "🇷🇺",
            Lang::Mhr => "🇷🇺",
            Lang::Kpv => "🇷🇺",
            Lang::Eng => "🇬🇧",
            Lang::Spa => "🇪🇸",
            Lang::Fra => "🇫🇷",
            Lang::Por => "🇵🇹",
            Lang::Deu => "🇩🇪",
            Lang::Cmn => "🇨🇳",
            Lang::Jpn => "🇯🇵",
            Lang::Hin => "🇮🇳",
            Lang::Ara => "🇦🇪",
        }
    }

    /// Name in Russian.
    pub open spec fn spec_russian_name(self) -> Seq<char> {
        match self {
            Lang::Rus => "Русский"@,
            Lang::Ukr => "Украинский"@,
            Lang::Bel => "Белорусский"@,
            Lang::Bul => "Болгарский"@,
            Lang::Mkd => "Македонский"@,
            Lang::Srp => "Сербский"@,
            Lang::Kaz => "Казахский"@,
            Lang::Kir => "Киргизский"@,
            Lang::Tgk => "Таджикский"@,
            Lang::Uzn => "Узбекский"@,
            Lang::Tat => "Татарский"@,
            Lang::Bak => "Башкирский"@,
            Lang::Chv => "Чувашский"@,
            Lang::Sah => "Якутский"@,
            Lang::Tyv => "Тувинский"@,
            Lang::Mon => "Монгольский"@,
            Lang::Oss => "Осетинский"@,
            Lang::Che => "Чеченский"@,
            Lang::Udm => "Удмуртский"@,
            Lang::Mhr => "Марийский"@,
            Lang::Kpv => "Коми"@,
            Lang::Eng => "Английский"@,
            Lang::Spa => "Испанский"@,
            Lang::Fra => "Французский"@,
            Lang::Por => "Португальский"@,
            Lang::Deu => "Немецкий"@,
            Lang::Cmn => "Китайский"@,
            Lang::Jpn => "Японский"@,
            Lang::Hin => "Хинди"@,
            Lang::Ara => "Арабский"@,
        }
    }

    /// Localized name for a display language: the recorded localization
    /// (Russian), falling back to the English name for any other display
    /// language.
    pub open spec fn spec_name_in(self, display: Lang) -> Seq<char> {
        if display == Lang::Rus {
            self.spec_russian_name()
        } else {
            self.spec_name()
        }
    }

    /// Localized name for a display language, falling back to the English
    /// name when no localization is recorded.
    pub fn name_in(self, display: Lang) -> (r: &'static str)
        ensures
            r@ == self.spec_name_in(display),
    {
        match display {
            Lang::Rus => match self {
                Lang::Rus => "Русский",
                Lang::Ukr => "Украинский",
                Lang::Bel => "Белорусский",
                Lang::Bul => "Болгарский",
                Lang::Mkd => "Македонский",
                Lang::Srp => "Сербский",
                Lang::Kaz => "Казахский",
                Lang::Kir => "Киргизский",
                Lang::Tgk => "Таджикский",
                Lang::Uzn => "Узбекский",
                Lang::Tat => "Татарский",
                Lang::Bak => "Башкирский",
                Lang::Chv => "Чувашский",
                Lang::Sah => "Якутский",
                Lang::Tyv => "Тувинский",
                Lang::Mon => "Монгольский",
                Lang::Oss => "Осетинский",
                Lang::Che => "Чеченский",
                Lang::Udm => "Удмуртский",
                Lang::Mhr => "Марийский",
                Lang::Kpv => "Коми",
                Lang::Eng => "Английский",
                Lang::Spa => "Испанский",
                Lang::Fra => "Французский",
                Lang::Por => "Португальский",
                Lang::Deu => "Немецкий",
                Lang::Cmn => "Китайский",
                Lang::Jpn => "Японский",
                Lang::Hin => "Хинди",
                Lang::Ara => "Арабский",
            },
            _ => self.name(),
        }
    }

    /// The ISO 639-3 code as an owned string (what `Display` prints).
    pub fn to_string(self) -> (r: String)
        ensures
            r@ == self.spec_code(),
    {
        String::from_str(self.code())
    }

    /// Parse an ISO 639-3 code, ASCII-case-insensitively; the first
    /// language of [`Lang::ALL`] whose code matches wins.
    pub fn from_code(s: &str) -> (r: Result<Lang, UnknownLang>)
        ensures
            match r {
                Ok(lang) => spec_from_code(s@) == Some(lang),
                Err(e) => spec_from_code(s@) is None && e.0@ == s@,
            },
    {
        proof {
            lemma_all_is_indexed();
        }
        let target = str_chars(s);
        let mut i: usize = 0;
        while i < NUM_LANGS
            invariant
                i <= NUM_LANGS,
                target@ == s@,
                forall|k: int| 0 <= k < NUM_LANGS ==> (#[trigger] Lang::ALL@[k]).spec_index() == k,
                forall|j: int|
                    0 <= j < i ==> !eq_ignore_ascii_case(#[trigger] Lang::ALL@[j].spec_code(), s@),
            decreases NUM_LANGS - i,
        {
            let lang = Lang::ALL[i];
            let code = str_chars(lang.code());
            if chars_eq_ignore_ascii_case(code.as_slice(), target.as_slice()) {
                proof {
                    lemma_codes_distinct();
                    let c = choose|l: Lang| eq_ignore_ascii_case(#[trigger] l.spec_code(), s@);
                    assert(eq_ignore_ascii_case(c.spec_code(), lang.spec_code()));
                }
                return Ok(lang);
            }
            i = i + 1;
        }
        proof {
            assert forall|l: Lang| !eq_ignore_ascii_case(#[trigger] l.spec_code(), s@) by {
                assert(Lang::ALL@[l.spec_index() as int] == l);
            }
        }
        Err(UnknownLang(s.to_owned()))
    }
}

/// [`Lang::ALL`] lists each language at its own column index.
pub proof fn lemma_all_is_indexed()
    ensures
        forall|k: int| 0 <= k < NUM_LANGS ==> (#[trigger] Lang::ALL@[k]).spec_index() == k,
        forall|l: Lang| #[trigger] Lang::ALL@[l.spec_index() as int] == l,
{
    assert(forall|k: int| 0 <= k < NUM_LANGS ==> (#[trigger] Lang::ALL@[k]).spec_index() == k);
}

/// The language whose code matches `s` up to ASCII case, if any (codes are
/// pairwise distinct under case folding, see [`lemma_codes_distinct`]).
pub open spec fn spec_from_code(s: Seq<char>) -> Option<Lang> {
    if exists|l: Lang| eq_ignore_ascii_case(#[trigger] l.spec_code(), s) {
        Some(choose|l: Lang| eq_ignore_ascii_case(#[trigger] l.spec_code(), s))
    } else {
        None
    }
}

/// No two languages share a code, even up to ASCII case.
pub proof fn lemma_codes_distinct()
    ensures
        forall|a: Lang, b: Lang|
            #[trigger] eq_ignore_ascii_case(a.spec_code(), b.spec_code()) ==> a == b,
{
        reveal_strlit("rus");
        reveal_strlit("ukr");
        reveal_strlit("bel");
        reveal_strlit("bul");
        reveal_strlit("mkd");
        reveal_strlit("srp");
        reveal_strlit("kaz");
        reveal_strlit("kir");
        reveal_strlit("tgk");
        reveal_strlit("uzn");
        reveal_strlit("tat");
        reveal_strlit("bak");
        reveal_strlit("chv");
        reveal_strlit("sah");
        reveal_strlit("tyv");
        reveal_strlit("mon");
        reveal_strlit("oss");
        reveal_strlit("che");
        reveal_strlit("udm");
        reveal_strlit("mhr");
        reveal_strlit("kpv");
        reveal_strlit("eng");
        reveal_strlit("spa");
        reveal_strlit("fra");
        reveal_strlit("por");
        reveal_strlit("deu");
        reveal_strlit("cmn");
        reveal_strlit("jpn");
        reveal_strlit("hin");
        reveal_strlit("ara");
    assert forall|a: Lang, b: Lang|
        #[trigger] eq_ignore_ascii_case(a.spec_code(), b.spec_code()) implies a == b by {
        let x = a.spec_code();
        let y = b.spec_code();
        assert(ascii_fold(x[0]) == ascii_fold(y[0]));
        assert(ascii_fold(x[1]) == ascii_fold(y[1]));
        assert(ascii_fold(x[2]) == ascii_fold(y[2]));
    }
}

/// Parsing a language's own code gives the language back (codes round-trip
/// through `code` / `from_code` for every language of the inventory).
pub proof fn lemma_code_round_trip(l: Lang)
    ensures
        spec_from_code(l.spec_code()) == Some(l),
{
    lemma_codes_distinct();
    assert(eq_ignore_ascii_case(l.spec_code(), l.spec_code()));
}

impl std::str::FromStr for Lang {
    type Err = UnknownLang;

    fn from_str(s: &str) -> (r: Result<Self, Self::Err>)
        ensures
            match r {
                Ok(lang) => spec_from_code(s@) == Some(lang),
                Err(e) => spec_from_code(s@) is None && e.0@ == s@,
            },
    {
        Lang::from_code(s)
    }
}

} // verus!
