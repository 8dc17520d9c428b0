use spellman::features::{
    bucket_tokens, classify_word, orders_fit, pack_ngram, token_keys, FeatureConfig, WordClass,
    BOW, EOW, N_TAG,
};
use spellman::hash::FeatureHasher;

#[test]
fn packing_is_injective_for_short_ngrams() {
    let a = pack_ngram(&['а', 'б']);
    let b = pack_ngram(&['б', 'а']);
    assert_ne!(a, b);
    // Codepoints below 2^21 pack without collision for n <= 3.
    let c = pack_ngram(&['x', 'y', 'z']);
    assert_eq!(c, (('x' as u64) << 42) | (('y' as u64) << 21) | 'z' as u64);
}

#[test]
fn single_word_ngrams_position_major() {
    let cfg = FeatureConfig { n_min: 1, n_max: 3 };
    let keys = token_keys("ab", &cfg);
    // seq = [BOW, a, b, EOW]; rolling packer emits, per position, all
    // n-grams ENDING there: 1 + 2 + 3 + 3 = 9 keys.
    assert_eq!(keys.len(), 9);
    assert_eq!(keys[0], BOW as u64 ^ N_TAG[1]);
    assert_eq!(keys[1], 'a' as u64 ^ N_TAG[1]);
    assert_eq!(keys[2], pack_ngram(&[BOW, 'a']) ^ N_TAG[2]);
    assert_eq!(keys[3], 'b' as u64 ^ N_TAG[1]);
    assert_eq!(keys[4], pack_ngram(&['a', 'b']) ^ N_TAG[2]);
    assert_eq!(keys[5], pack_ngram(&[BOW, 'a', 'b']) ^ N_TAG[3]);
    assert_eq!(keys[6], EOW as u64 ^ N_TAG[1]);
    assert_eq!(keys[7], pack_ngram(&['b', EOW]) ^ N_TAG[2]);
    assert_eq!(keys[8], pack_ngram(&['a', 'b', EOW]) ^ N_TAG[3]);
}

#[test]
fn rolling_matches_reference_multiset() {
    // The rolling packer must produce exactly the multiset of the
    // reference per-window packing (order differs, values must not).
    let cfg = FeatureConfig { n_min: 1, n_max: 5 };
    for text in ["ab", "abc", "привет мир", "Съешь ещё этих", "гнійеже ґава їжак"] {
        let rolling = token_keys(text, &cfg);
        let mut reference = Vec::new();
        for word in text.to_lowercase().split_whitespace() {
            let seq: Vec<char> = std::iter::once(BOW)
                .chain(word.chars())
                .chain(std::iter::once(EOW))
                .collect();
            for n in cfg.n_min as usize..=cfg.n_max as usize {
                if n > seq.len() {
                    break;
                }
                for start in 0..=seq.len() - n {
                    reference.push(pack_ngram(&seq[start..start + n]) ^ N_TAG[n]);
                }
            }
        }
        let mut a = rolling.clone();
        let mut b = reference;
        a.sort_unstable();
        b.sort_unstable();
        assert_eq!(a, b, "multiset mismatch for {text:?}");
    }
}

#[test]
fn words_are_isolated_by_whitespace() {
    let cfg = FeatureConfig { n_min: 2, n_max: 2 };
    let keys = token_keys("a b", &cfg);
    assert_eq!(keys.len(), 4);
    assert_eq!(keys[0], pack_ngram(&[BOW, 'a']) ^ N_TAG[2]);
    assert_eq!(keys[1], pack_ngram(&['a', EOW]) ^ N_TAG[2]);
    assert_eq!(keys[2], pack_ngram(&[BOW, 'b']) ^ N_TAG[2]);
    assert_eq!(keys[3], pack_ngram(&['b', EOW]) ^ N_TAG[2]);
}

#[test]
fn lowercases_before_packing() {
    let cfg = FeatureConfig { n_min: 1, n_max: 1 };
    let upper = token_keys("AБ", &cfg);
    let lower = token_keys("aб", &cfg);
    assert_eq!(upper, lower);
}

#[test]
fn n_max_capped_by_word_length() {
    let cfg = FeatureConfig { n_min: 1, n_max: 5 };
    // Word "ab" wrapped is 4 chars: 4+3+2+1 = 10 n-grams, no 5-grams.
    assert_eq!(token_keys("ab", &cfg).len(), 10);
    // Word "abc" wrapped is 5 chars: 5+4+3+2+1 = 15.
    assert_eq!(token_keys("abc", &cfg).len(), 15);
}

#[test]
fn empty_text_yields_nothing() {
    assert!(token_keys("", &FeatureConfig::default()).is_empty());
    assert!(token_keys("   \n\t ", &FeatureConfig::default()).is_empty());
}

#[test]
fn bucket_tokens_cover_full_range() {
    let cfg = FeatureConfig::default();
    let hasher = FeatureHasher::default();
    let toks = bucket_tokens("Привет, hello мир!", &cfg, &hasher, 17);
    assert!(!toks.is_empty());
    for t in &toks {
        assert!(t.bucket < (1 << 17));
    }
}

#[test]
fn word_classification() {
    // URLs: schemes, www, bare ASCII domains.
    assert_eq!(classify_word("https://t.co/3Kr7yzeYLC"), WordClass::Url);
    assert_eq!(classify_word("HTTP://EXAMPLE.COM/PATH"), WordClass::Url);
    assert_eq!(classify_word("www.grozny-inform.ru"), WordClass::Url);
    assert_eq!(classify_word("t.co"), WordClass::Url);
    assert_eq!(classify_word("example.com"), WordClass::Url);
    // Emails.
    assert_eq!(classify_word("test@mail.ru"), WordClass::Email);
    assert_eq!(classify_word("a.b+c%tag@sub.domain.org"), WordClass::Email);
    assert_eq!(classify_word("a@b"), WordClass::Word); // no dot in domain
    // Mentions.
    assert_eq!(classify_word("@daria_karapet"), WordClass::Mention);
    assert_eq!(classify_word("@"), WordClass::Word); // bare @ is not a mention
    // Digit-bearing ASCII.
    assert_eq!(classify_word("2020"), WordClass::Num);
    assert_eq!(classify_word("3.5.2"), WordClass::Num);
    assert_eq!(classify_word("100px"), WordClass::Num);
    assert_eq!(classify_word("COVID19"), WordClass::Num);
    // Cyrillic immunity: dotted abbreviations and digit-bearing words
    // stay real words.
    assert_eq!(classify_word("т.е."), WordClass::Word);
    assert_eq!(classify_word("т.д."), WordClass::Word);
    assert_eq!(classify_word("миллион2020"), WordClass::Word);
    assert_eq!(classify_word("U.S.A."), WordClass::Word); // single-letter TLD
    assert_eq!(classify_word("Привет"), WordClass::Word);
}

#[test]
fn canonicalized_words_pack_as_sentinels() {
    let cfg = FeatureConfig::default();
    // A whole URL canonicalizes to [BOW, SENTINEL_URL, EOW] — 6 keys,
    // identical for every URL regardless of tail.
    let a = token_keys("https://t.co/3Kr7yzeYLC", &cfg);
    let b = token_keys("https://example.com/other/tail", &cfg);
    assert_eq!(a, b);
    assert_eq!(a.len(), 6);

    // Distinct per class.
    let url = token_keys("https://x.io", &cfg);
    let email = token_keys("a@b.co", &cfg);
    let mention = token_keys("@nick", &cfg);
    let num = token_keys("2020", &cfg);
    assert_ne!(url, email);
    assert_ne!(url, mention);
    assert_ne!(url, num);

    // Hashtags keep their word (real language evidence).
    let cfg1 = FeatureConfig { n_min: 1, n_max: 1 };
    assert_eq!(token_keys("#красноярск", &cfg1), token_keys("красноярск", &cfg1));
    // ...but a digit-bearing hashtag canonicalizes.
    assert_eq!(token_keys("#2020", &cfg1), token_keys("2020", &cfg1));

    // Mixed text: sentinels interleave with real words in encounter order.
    let mixed = token_keys("Привет @nick пока", &cfg1);
    let plain = token_keys("Привет @x пока", &cfg1);
    assert_eq!(mixed, plain);
}

#[test]
fn bare_hashtag_marker_yields_nothing() {
    let cfg = FeatureConfig::default();
    assert!(token_keys("#", &cfg).is_empty());
    assert!(token_keys("# #", &cfg).is_empty());
}

#[test]
fn hashtag_keeps_its_word() {
    let cfg = FeatureConfig { n_min: 1, n_max: 4 };
    assert_eq!(token_keys("#привет", &cfg), token_keys("привет", &cfg));
    assert_eq!(token_keys("#rust", &cfg), token_keys("rust", &cfg));
}

#[test]
fn same_class_words_share_keys() {
    let cfg = FeatureConfig::default();
    assert_eq!(
        token_keys("https://example.com/a", &cfg),
        token_keys("http://другой.рф/путь", &cfg)
    );
    assert_eq!(token_keys("a@b.ru", &cfg), token_keys("someone@mail.example", &cfg));
    assert_ne!(token_keys("кот", &cfg), token_keys("пёс", &cfg));
}

#[test]
fn blank_text_has_no_keys() {
    let cfg = FeatureConfig::default();
    assert!(token_keys("", &cfg).is_empty());
    assert!(token_keys(" \t\n\u{3000} ", &cfg).is_empty());
}

#[test]
fn orders_fit_bounds_the_window_by_five_units() {
    assert!(orders_fit("слово", &FeatureConfig { n_min: 1, n_max: 5 }));
    // An empty window never packs anything.
    assert!(orders_fit("слово", &FeatureConfig { n_min: 3, n_max: 2 }));
    // Seven units (BOW + 5 letters + EOW) would need a 6-gram.
    assert!(!orders_fit("слово", &FeatureConfig { n_min: 1, n_max: 6 }));
    // A short word never reaches order 6.
    assert!(orders_fit("да", &FeatureConfig { n_min: 1, n_max: 6 }));
}

#[test]
fn non_ascii_words_stay_words() {
    for w in ["т.е.", "миллион2020", "Ёлка", "ўзбек@mail.ru", "é.com"] {
        assert_eq!(classify_word(w), WordClass::Word, "{w}");
    }
}

#[test]
fn order_tags_keep_four_and_five_grams_apart() {
    let cfg = FeatureConfig { n_min: 4, n_max: 5 };
    let keys = token_keys("абвгд", &cfg);
    // Units: BOW а б в г д EOW — positions 4..=7 emit a 4-gram, 5..=7 also a
    // 5-gram over the same (wrapped) register.
    assert_eq!(keys.len(), 4 + 3);
    for pair in keys.windows(2) {
        assert_ne!(pair[0], pair[1]);
    }
}

#[test]
fn short_ngrams_pack_as_base_2_21_digits() {
    let (a, b, c) = ('а' as u64, 'б' as u64, 'в' as u64);
    assert_eq!(pack_ngram(&['а', 'б', 'в']), (a << 42) | (b << 21) | c);
    assert_eq!(pack_ngram(&['а', 'б', 'в']), a * (1 << 42) + b * (1 << 21) + c);
    assert_eq!(pack_ngram(&['z']), 'z' as u64);
}

#[test]
fn words_are_isolated_for_any_whitespace() {
    let cfg = FeatureConfig::default();
    for sep in [" ", "\t", "\u{3000}"] {
        let joined = format!("привет{sep}мир");
        let mut expected = token_keys("привет", &cfg);
        expected.extend(token_keys("мир", &cfg));
        assert_eq!(token_keys(&joined, &cfg), expected);
    }
}

#[test]
fn keys_ignore_letter_case() {
    let cfg = FeatureConfig::default();
    assert_eq!(
        token_keys("Привет МИР Ёлка ЂАК HTTP://EXAMPLE.COM User@Mail.RU", &cfg),
        token_keys("привет мир ёлка ђак http://example.com user@mail.ru", &cfg)
    );
}
