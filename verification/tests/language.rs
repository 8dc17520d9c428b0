use spellman::{char_script, Lang, Script, UnknownLang, NUM_LANGS};

#[test]
fn codes_round_trip() {
    for lang in Lang::ALL {
        let parsed: Lang = lang.code().parse().unwrap();
        assert_eq!(parsed, lang);
        assert_eq!(lang.to_string(), lang.code());
    }
    assert_eq!(NUM_LANGS, Lang::ALL.len());
    assert_eq!(Lang::Rus.index(), 0);
    assert_eq!(Lang::Eng.index(), 21);
    assert_eq!(Lang::Ara.index(), 29);
}

#[test]
fn code_tables() {
    assert_eq!(Lang::Rus.iso_639_1(), Some("ru"));
    assert_eq!(Lang::Kaz.iso_639_1(), Some("kk"));
    // Languages without an ISO 639-1 code carry None, not a 639-3 echo.
    for lang in [Lang::Sah, Lang::Tyv, Lang::Udm, Lang::Mhr, Lang::Kpv] {
        assert_eq!(lang.iso_639_1(), None, "{}", lang.code());
    }
    assert_eq!(Lang::Rus.nllb(), Some("rus_Cyrl"));
    assert_eq!(Lang::Mon.nllb(), Some("khk_Cyrl"));
    assert_eq!(Lang::Mhr.nllb(), Some("mari_Cyrl"));
    assert_eq!(Lang::Cmn.nllb(), Some("cmn_Hans"));
    // Whisper covers the big Turkic languages — Kyrgyz excepted —
    // and none of the smaller ones.
    assert_eq!(Lang::Bak.whisper(), Some("bashkir"));
    assert_eq!(Lang::Tgk.whisper(), Some("tajik"));
    assert_eq!(Lang::Kir.whisper(), None);
    assert_eq!(Lang::Chv.whisper(), None);
    assert_eq!(Lang::Sah.whisper(), None);
}

#[test]
fn flags_follow_the_primary_country() {
    assert_eq!(Lang::Rus.flag(), "🇷🇺");
    assert_eq!(Lang::Ukr.flag(), "🇺🇦");
    assert_eq!(Lang::Uzn.flag(), "🇺🇿");
    assert_eq!(Lang::Cmn.flag(), "🇨🇳");
    // Republic languages within Russia take the Russian flag.
    assert_eq!(Lang::Tat.flag(), "🇷🇺");
    assert_eq!(Lang::Oss.flag(), "🇷🇺");
    // Every flag is exactly one regional-indicator pair.
    for lang in Lang::ALL {
        assert_eq!(lang.flag().chars().count(), 2, "{}", lang.code());
    }
}

#[test]
fn localized_names_fall_back_to_english() {
    assert_eq!(Lang::Kaz.name_in(Lang::Rus), "Казахский");
    assert_eq!(Lang::Kaz.name_in(Lang::Eng), "Kazakh");
    // Any unrecorded display language falls back to the English name.
    assert_eq!(Lang::Rus.name_in(Lang::Srp), "Russian");
    assert_eq!(Lang::Rus.name_in(Lang::Rus), "Русский");
}

#[test]
fn scripts_partition_the_inventory() {
    for lang in Lang::ALL[..21].iter() {
        assert_eq!(lang.script(), Script::Cyrillic, "{}", lang.code());
    }
    for lang in Lang::ALL[21..26].iter() {
        assert_eq!(lang.script(), Script::Latin, "{}", lang.code());
    }
    assert_eq!(Lang::Cmn.script(), Script::Han);
    assert_eq!(Lang::Jpn.script(), Script::Kana);
    assert_eq!(Lang::Hin.script(), Script::Devanagari);
    assert_eq!(Lang::Ara.script(), Script::Arabic);
}

#[test]
fn char_script_ranges() {
    assert_eq!(char_script('а'), Some(Script::Cyrillic));
    assert_eq!(char_script('ѣ'), Some(Script::Cyrillic)); // 0x0463
    assert_eq!(char_script('z'), Some(Script::Latin));
    assert_eq!(char_script('ö'), Some(Script::Latin));
    assert_eq!(char_script('ひ'), Some(Script::Kana));
    assert_eq!(char_script('ア'), Some(Script::Kana));
    assert_eq!(char_script('北'), Some(Script::Han));
    assert_eq!(char_script('क'), Some(Script::Devanagari));
    assert_eq!(char_script('م'), Some(Script::Arabic));
    assert_eq!(char_script('7'), None);
    assert_eq!(char_script('!'), None);
}

#[test]
fn language_inventory_reexports_are_complete() {
    let lang: Lang = "kaz".parse().unwrap();
    assert_eq!(lang.name_in(Lang::Rus), "Казахский");
    assert_eq!(lang.script(), Script::Cyrillic);
    assert_eq!(char_script('қ'), Some(Script::Cyrillic));
    assert_eq!(Lang::ALL.len(), NUM_LANGS);
    let Err(err) = "nope".parse::<Lang>() else {
        panic!("unknown code parsed")
    };
    assert!(matches!(err, UnknownLang(_)));
}

#[test]
fn code_parsing_ignores_ascii_case_and_reports_input() {
    assert_eq!(Lang::from_code("KAZ"), Ok(Lang::Kaz));
    assert_eq!(Lang::from_code("Rus"), Ok(Lang::Rus));
    let err = Lang::from_code("xx").unwrap_err();
    assert_eq!(err, UnknownLang("xx".to_string()));
    assert_eq!(err.message(), "unknown language code: xx");
    assert!("".parse::<Lang>().is_err());
}

#[test]
fn math_signs_inside_latin_block_have_no_script() {
    assert_eq!(char_script('×'), None);
    assert_eq!(char_script('÷'), None);
    assert_eq!(char_script('Ö'), Some(Script::Latin)); // 0xD6
    assert_eq!(char_script('ø'), Some(Script::Latin)); // 0xF8
}
