use spellman::route::{group_of, route};
use spellman::{Lang, Route, ScriptGroup, NUM_LANGS};

#[test]
fn routes_by_script() {
    assert_eq!(route("Привет, как дела?"), Route::Group(ScriptGroup::Cyrillic));
    assert_eq!(route("Hello world"), Route::Group(ScriptGroup::Latin));
    assert_eq!(route("¿Dónde está el baño?"), Route::Group(ScriptGroup::Latin));
    assert_eq!(route("Привіт hello мир"), Route::Group(ScriptGroup::Cyrillic));
    assert_eq!(route("こんにちは世界"), Route::Direct(Lang::Jpn));
    assert_eq!(route("北京是中国的首都"), Route::Direct(Lang::Cmn));
    assert_eq!(route("नमस्ते दुनिया"), Route::Direct(Lang::Hin));
    assert_eq!(route("مرحبا بالعالم"), Route::Direct(Lang::Ara));
    assert_eq!(route("12345 !!!"), Route::Unknown);
}

#[test]
fn kana_beats_kanji_count() {
    // Mostly kanji with a single kana char: still Japanese.
    assert_eq!(route("東京駅へ行くのが好きですか"), Route::Direct(Lang::Jpn));
}

#[test]
fn groups_are_contiguous_and_script_derived() {
    assert_eq!(ScriptGroup::Cyrillic.languages().len(), 21);
    assert_eq!(ScriptGroup::Latin.languages().len(), 5);
    assert_eq!(ScriptGroup::Direct.languages().len(), 4);
    assert_eq!(Lang::ALL.len(), NUM_LANGS);
    // Every language sits in the group its script implies, and each
    // group's languages are contiguous in Lang::ALL.
    for (i, lang) in Lang::ALL.iter().enumerate() {
        let group = group_of(*lang);
        assert!(group.languages().contains(lang), "{} misplaced", lang.code());
        assert!(group.column_range().contains(&i), "{} column {}", lang.code(), i);
    }
}
