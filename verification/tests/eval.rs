use spellman::eval::{
    fragments, len_bucket, parse_eval_line, sample_rows, score, shuffle, simple_rng,
    supports_all, supports_lingua, supports_whichlang, warmup_rows, word_tokens, Confusion,
    Inventory, Tally,
};
use spellman::{Lang, UnknownLang, NUM_LANGS};

#[test]
fn length_buckets_match_assess() {
    assert_eq!(len_bucket(""), 0);
    assert_eq!(len_bucket(&"я".repeat(20)), 0);
    assert_eq!(len_bucket(&"я".repeat(21)), 1);
    assert_eq!(len_bucket(&"a".repeat(100)), 1);
    assert_eq!(len_bucket(&"ж".repeat(101)), 2);
}

#[test]
fn eval_lines_split_at_the_first_tab() {
    assert_eq!(
        parse_eval_line("rus\tПривет\tмир"),
        Some(Ok((Lang::Rus, "Привет\tмир")))
    );
    assert_eq!(parse_eval_line(" KAZ \tСәлем"), Some(Ok((Lang::Kaz, "Сәлем"))));
    assert_eq!(parse_eval_line("eng\t"), Some(Ok((Lang::Eng, ""))));
    assert_eq!(parse_eval_line("no tab here"), None);
    assert_eq!(
        parse_eval_line(" xx \ttext"),
        Some(Err(UnknownLang("xx".to_string())))
    );
}

#[test]
fn word_tokens_keep_letter_bearing_words() {
    assert_eq!(
        word_tokens("  Привет, 2024 мир! -- ok42 "),
        vec!["Привет,", "мир!", "ok42"]
    );
    assert!(word_tokens("123 ... ---").is_empty());
    assert!(word_tokens("").is_empty());
}

#[test]
fn fragments_are_joined_word_windows() {
    let rows = vec![
        (Lang::Rus, "один два 3 три".to_string()),
        (Lang::Eng, "solo".to_string()),
    ];
    assert_eq!(
        fragments(&rows, 1),
        vec![
            (Lang::Rus, "один".to_string()),
            (Lang::Rus, "два".to_string()),
            (Lang::Rus, "три".to_string()),
            (Lang::Eng, "solo".to_string()),
        ]
    );
    assert_eq!(
        fragments(&rows, 2),
        vec![
            (Lang::Rus, "один два".to_string()),
            (Lang::Rus, "два три".to_string()),
        ]
    );
    assert_eq!(
        fragments(&rows, 3),
        vec![(Lang::Rus, "один два три".to_string())]
    );
    assert!(fragments(&rows, 4).is_empty());
}

#[test]
fn tally_overall_is_the_sum_of_languages() {
    let mut t = Tally::new();
    t.record(Lang::Rus, true);
    t.record(Lang::Rus, false);
    t.record(Lang::Ukr, true);
    assert_eq!(t.overall, (2, 3));
    assert_eq!(t.per_lang[Lang::Rus.index()], (1, 2));
    assert_eq!(t.per_lang[Lang::Ukr.index()], (1, 1));
    assert_eq!(t.per_lang[Lang::Bel.index()], (0, 0));
    let (c, n) = t
        .per_lang
        .iter()
        .fold((0, 0), |(c, n), &(a, b)| (c + a, n + b));
    assert_eq!((c, n), t.overall);
}

#[test]
fn confusion_rows_and_columns() {
    let mut m = Confusion::new();
    m.record(Lang::Rus, Lang::Rus);
    m.record(Lang::Rus, Lang::Ukr);
    m.record(Lang::Ukr, Lang::Ukr);
    m.record(Lang::Bel, Lang::Ukr);
    assert_eq!(m.count(Lang::Rus, Lang::Ukr), 1);
    assert_eq!(m.count(Lang::Ukr, Lang::Rus), 0);
    assert_eq!(m.gold_total(Lang::Rus), 2);
    assert_eq!(m.pred_total(Lang::Ukr), 3);
    assert_eq!(m.pred_total(Lang::Bel), 0);
    assert_eq!(m.counts.len(), NUM_LANGS * NUM_LANGS);
}

#[test]
fn tool_inventories() {
    assert!(supports_all("bel"));
    assert!(supports_whichlang("rus"));
    assert!(!supports_whichlang("ukr"));
    assert!(supports_lingua("ukr"));
    assert!(!supports_lingua("tat"));
    let n_which = Lang::ALL.iter().filter(|l| supports_whichlang(l.code())).count();
    let n_lingua = Lang::ALL.iter().filter(|l| supports_lingua(l.code())).count();
    assert_eq!((n_which, n_lingua), (10, 17));
}

#[test]
fn scores_count_supported_rows() {
    let preds = vec![
        Some("rus".to_string()),
        Some("rus".to_string()),
        None,
        Some("eng".to_string()),
    ];
    let golds = ["rus", "ukr", "bel", "eng"];
    assert_eq!(score(&preds, &golds, Inventory::All), (4, 2, 2));
    assert_eq!(score(&preds, &golds, Inventory::Whichlang), (2, 2, 2));
    assert_eq!(score(&preds, &golds, Inventory::Lingua), (4, 2, 2));
    // Only the rows both sides hold are scored.
    assert_eq!(score(&preds[..1], &golds, Inventory::All), (1, 1, 1));
}

#[test]
fn warmup_takes_first_row_per_supported_gold() {
    let golds = ["ukr", "rus", "ukr", "eng", "rus", "bel"];
    assert_eq!(warmup_rows(&golds, Inventory::All), vec![0, 1, 3, 5]);
    assert_eq!(warmup_rows(&golds, Inventory::Whichlang), vec![1, 3]);
}

#[test]
fn shuffle_is_a_seeded_permutation() {
    assert_eq!(simple_rng(0), 1);
    assert_eq!(simple_rng(1), 0x9E37_79B9_7F4A_7C15);
    let mut a: Vec<u32> = (0..50).collect();
    let mut b = a.clone();
    let mut ra = simple_rng(42);
    let mut rb = simple_rng(42);
    shuffle(&mut a, &mut ra);
    shuffle(&mut b, &mut rb);
    assert_eq!(a, b);
    assert_eq!(ra, rb);
    assert_ne!(a, (0..50).collect::<Vec<u32>>());
    let mut sorted = a.clone();
    sorted.sort();
    assert_eq!(sorted, (0..50).collect::<Vec<u32>>());
    // A single item and an empty slice leave the generator alone.
    let mut one = [7];
    let mut r = 5u64;
    shuffle(&mut one, &mut r);
    assert_eq!((one, r), ([7], 5));
}

#[test]
fn sample_is_balanced_and_deterministic() {
    let mut by_lang: Vec<Vec<String>> = vec![Vec::new(); NUM_LANGS];
    by_lang[Lang::Rus.index()] = (0..10).map(|i| format!("rus {i}")).collect();
    by_lang[Lang::Eng.index()] = (0..3).map(|i| format!("eng {i}")).collect();
    let a = sample_rows(&by_lang, 5, 42);
    let b = sample_rows(&by_lang, 5, 42);
    assert_eq!(a, b);
    assert_eq!(a.iter().filter(|(l, _)| *l == Lang::Rus).count(), 5);
    assert_eq!(a.iter().filter(|(l, _)| *l == Lang::Eng).count(), 3);
    for (lang, text) in &a {
        assert!(text.starts_with(lang.code()));
    }
    let all = sample_rows(&by_lang, 0, 7);
    assert_eq!(all.len(), 13);
}

#[test]
fn text_tally_counts_unanswered_rows_as_wrong() {
    let mut m = Confusion::new();
    m.record(Lang::Rus, Lang::Rus);
    m.record(Lang::Rus, Lang::Rus);
    m.record(Lang::Rus, Lang::Ukr);
    m.record(Lang::Ukr, Lang::Ukr);
    m.record(Lang::Eng, Lang::Deu);
    // Six rows, one of them without an answer.
    let t = m.text_tally(6);
    assert_eq!(t.overall, (3, 6));
    assert_eq!(t.per_lang[Lang::Rus.index()], (2, 3));
    assert_eq!(t.per_lang[Lang::Ukr.index()], (1, 1));
    assert_eq!(t.per_lang[Lang::Eng.index()], (0, 1));
    assert_eq!(t.per_lang[Lang::Deu.index()], (0, 0));
    assert_eq!(t.per_lang.len(), NUM_LANGS);
}

#[test]
fn confusions_rank_by_count_then_cell() {
    let mut m = Confusion::new();
    m.record(Lang::Rus, Lang::Rus);
    m.record(Lang::Bel, Lang::Ukr);
    m.record(Lang::Rus, Lang::Ukr);
    m.record(Lang::Eng, Lang::Deu);
    m.record(Lang::Eng, Lang::Deu);
    m.record(Lang::Ukr, Lang::Rus);
    assert_eq!(
        m.ranked_confusions(),
        vec![
            (Lang::Eng, Lang::Deu, 2),
            (Lang::Rus, Lang::Ukr, 1),
            (Lang::Ukr, Lang::Rus, 1),
            (Lang::Bel, Lang::Ukr, 1),
        ]
    );
    assert!(Confusion::new().ranked_confusions().is_empty());
}
