use spellman::compare::{lingua_answer, lingua_lang, lingua_predictions, whichlang_predictions};
use spellman::Lang;
use spellman::eval::{score, Inventory};

#[test]
fn whichlang_answers_every_row_with_a_code() {
    let texts: Vec<String> = vec![
        "Hello, happy tax payer".into(),
        "Bonjour joyeux contribuable".into(),
        "Ciao, felice contribuente!".into(),
        "".into(),
    ];
    let preds = whichlang_predictions(&texts);
    assert_eq!(
        preds,
        vec![
            Some("eng".to_string()),
            Some("fra".to_string()),
            Some("ita".to_string()),
            Some("eng".to_string()),
        ]
    );
    // Italian is outside our inventory: that row can never count as correct.
    let golds = ["eng", "fra", "rus", "ukr"];
    assert_eq!(score(&preds, &golds, Inventory::Whichlang), (3, 2, 2));
    assert!(whichlang_predictions(&[]).is_empty());
}

#[test]
fn lingua_codes_map_into_our_inventory() {
    assert_eq!(lingua_lang("zho"), Some(Lang::Cmn));
    assert_eq!(lingua_lang("ukr"), Some(Lang::Ukr));
    assert_eq!(lingua_lang("srp"), Some(Lang::Srp));
    assert_eq!(lingua_lang("cmn"), Some(Lang::Cmn));
    assert_eq!(lingua_lang("tat"), None); // ours, but lingua cannot name it
    assert_eq!(lingua_lang("ita"), None); // lingua's, not ours
}

#[test]
fn lingua_answers_with_our_codes() {
    let detector = lingua::LanguageDetectorBuilder::from_languages(&[
        lingua::Language::English,
        lingua::Language::Russian,
        lingua::Language::Chinese,
    ])
    .build();
    let texts: Vec<String> = vec![
        "This is clearly a sentence written in English.".into(),
        "Это совершенно точно предложение на русском языке.".into(),
        "我们今天去公园散步吧".into(),
    ];
    assert_eq!(
        lingua_predictions(&detector, &texts),
        vec![
            Some("eng".to_string()),
            Some("rus".to_string()),
            Some("cmn".to_string()),
        ]
    );
}

#[test]
fn lingua_raw_answers_become_our_codes() {
    assert_eq!(lingua_answer(Some("zho".to_string())), Some("cmn".to_string()));
    assert_eq!(lingua_answer(Some("deu".to_string())), Some("deu".to_string()));
    assert_eq!(lingua_answer(Some("ita".to_string())), None);
    assert_eq!(lingua_answer(Some("tat".to_string())), None);
    assert_eq!(lingua_answer(None), None);
}
