use spellman::sent::{glue_short, split_line, sweep_sentences};

fn parts(line: &str) -> Vec<String> {
    split_line(line).iter().map(|s| s.to_string()).collect()
}

#[test]
fn sent_plain_sentences() {
    assert_eq!(
        parts("Однажды в студёную зимнюю пору. Я из лесу вышел."),
        ["Однажды в студёную зимнюю пору.", "Я из лесу вышел."]
    );
}

#[test]
fn sent_dialogue_attribution_stays_whole() {
    // comma + dash mid-sentence is attribution, not a turn
    assert_eq!(
        parts("— Моя жена, — продолжал князь Андрей, — прекрасная женщина."),
        ["— Моя жена, — продолжал князь Андрей, — прекрасная женщина."]
    );
    // terminator before a dash = new dialogue turn
    assert_eq!(parts("— Нет, — сказал он. — Да."), ["— Нет, — сказал он.", "— Да."]);
    // question + closing quote + dash attribution: two pieces
    assert_eq!(
        parts("«Эй, кто там?» — крикнул вахтёр"),
        ["«Эй, кто там?»", "— крикнул вахтёр"]
    );
}

#[test]
fn sent_initials_never_split() {
    assert_eq!(
        parts("Л. Н. Толстой родился в 1828 г. и умер в 1910 г."),
        ["Л. Н. Толстой родился в 1828 г. и умер в 1910 г."]
    );
    // a real sentence may end right after a full word
    assert_eq!(parts("Роман написан Толстым."), ["Роман написан Толстым."]);
}

#[test]
fn sent_decimals_and_hosts_stay_whole() {
    assert_eq!(parts("Цена 3.5 рубля. Дорого!"), ["Цена 3.5 рубля.", "Дорого!"]);
    // no whitespace after the dot: never a boundary (hosts, paths)
    assert_eq!(
        parts("Сайт example.com/abc открыт. Позже."),
        ["Сайт example.com/abc открыт.", "Позже."]
    );
}

#[test]
fn sent_terminator_runs_and_closers() {
    assert_eq!(parts("Что?.. О!"), ["Что?..", "О!"]);
    assert_eq!(parts("«Да!» — сказал он."), ["«Да!»", "— сказал он."]);
    assert_eq!(parts("(Приказ № 5.) Всё."), ["(Приказ № 5.)", "Всё."]);
    assert_eq!(parts("Правда?! Как же!"), ["Правда?!", "Как же!"]);
}

#[test]
fn sent_no_terminator_is_one_piece() {
    assert_eq!(parts("Просто строка без конца"), ["Просто строка без конца"]);
    assert!(split_line("   ").is_empty());
    assert!(split_line("").is_empty());
}

#[test]
fn sent_split_plain_sentences() {
    assert_eq!(
        parts("Однажды в студёную зимнюю пору. Я из лесу вышел."),
        ["Однажды в студёную зимнюю пору.", "Я из лесу вышел."]
    );
}

#[test]
fn sent_split_dialogue_attribution_stays_whole() {
    assert_eq!(
        parts("— Моя жена, — продолжал князь Андрей, — прекрасная женщина."),
        ["— Моя жена, — продолжал князь Андрей, — прекрасная женщина."]
    );
    assert_eq!(parts("— Нет, — сказал он. — Да."), ["— Нет, — сказал он.", "— Да."]);
    assert_eq!(
        parts("«Эй, кто там?» — крикнул вахтёр"),
        ["«Эй, кто там?»", "— крикнул вахтёр"]
    );
}

#[test]
fn sent_split_initials_never_split() {
    assert_eq!(
        parts("Л. Н. Толстой родился в 1828 г. и умер в 1910 г."),
        ["Л. Н. Толстой родился в 1828 г. и умер в 1910 г."]
    );
    assert_eq!(parts("Роман написан Толстым."), ["Роман написан Толстым."]);
}

#[test]
fn sent_split_decimals_and_hosts_stay_whole() {
    assert_eq!(parts("Цена 3.5 рубля. Дорого!"), ["Цена 3.5 рубля.", "Дорого!"]);
    assert_eq!(
        parts("Сайт example.com/abc открыт. Позже."),
        ["Сайт example.com/abc открыт.", "Позже."]
    );
}

#[test]
fn sent_split_terminator_runs_and_closers() {
    assert_eq!(parts("Что?.. О!"), ["Что?..", "О!"]);
    assert_eq!(parts("«Да!» — сказал он."), ["«Да!»", "— сказал он."]);
    assert_eq!(parts("(Приказ № 5.) Всё."), ["(Приказ № 5.)", "Всё."]);
    assert_eq!(parts("Правда?! Как же!"), ["Правда?!", "Как же!"]);
}

#[test]
fn sent_split_no_terminator_is_one_piece() {
    assert_eq!(parts("Просто строка без конца"), ["Просто строка без конца"]);
    assert!(split_line("   ").is_empty());
    assert!(split_line("").is_empty());
}

#[test]
fn glue_joins_attribution_tails() {
    // the classic: quote + tail recombine into one evidential unit
    let pieces = parts("«Да!» — сказал он.");
    assert_eq!(glue_short(pieces, 20), ["«Да!» — сказал он."]);
    // question + closer + attribution works the same
    let pieces = parts("«Эй, кто там?» — крикнул вахтёр");
    assert_eq!(glue_short(pieces, 20), ["«Эй, кто там?» — крикнул вахтёр"]);
}

#[test]
fn glue_leaves_rapid_dialogue_alone() {
    // three speakers, no closers: NOT one sentence
    let pieces = vec!["— Нет.".to_string(), "— Да.".to_string(), "— Отвяжись.".to_string()];
    assert_eq!(glue_short(pieces.clone(), 20), pieces);
}

#[test]
fn glue_ignores_short_without_closer_before_it() {
    // dash fragment whose predecessor ends in a plain terminator: a new
    // dialogue turn, not an attribution
    let pieces = parts("Он замолчал. — Ну и что.");
    assert_eq!(glue_short(pieces.clone(), 20), pieces);
}

#[test]
fn glue_isolated_short_is_kept_for_the_filter() {
    // no neighbor: nothing to glue to, the caller's min-chars filter drops it
    assert_eq!(glue_short(vec!["— Нет.".to_string()], 20), ["— Нет."]);
}

#[test]
fn split_pieces_are_trimmed_and_nonempty() {
    for line in [
        "  Он пришёл.   Она ушла!  ",
        "Hi... there?! Yes.",
        "   ",
        "",
        "Без точки в конце",
    ] {
        for piece in split_line(line) {
            assert_eq!(piece, piece.trim());
            assert!(!piece.is_empty());
        }
    }
    assert!(split_line("   ").is_empty());
}

#[test]
fn glue_without_dash_changes_nothing() {
    let parts: Vec<String> = vec!["Первое предложение.".into(), "Да.".into(), "Ещё одно.".into()];
    assert_eq!(glue_short(parts.clone(), 20), parts);
}

#[test]
fn sweep_skips_headings_and_short_sentences() {
    let md = "# Глава первая\n\n  Он долго молчал, глядя в окно. Потом встал.  \r\n## Часть 2\n«Куда ты идёшь?» — спросила она.\n12345 67890 12345 67890.\nЕщё одна строка без точки в конце";
    assert_eq!(
        sweep_sentences(md, 20),
        vec![
            "Он долго молчал, глядя в окно.".to_string(),
            "«Куда ты идёшь?» — спросила она.".to_string(),
            "Ещё одна строка без точки в конце".to_string(),
        ]
    );
    // With no length floor every sentence with a letter stays.
    assert_eq!(
        sweep_sentences("Да. Нет!\n#тег\n", 0),
        vec!["Да.".to_string(), "Нет!".to_string()]
    );
    assert!(sweep_sentences("", 20).is_empty());
}

#[test]
fn only_a_dot_makes_an_initial() {
    assert_eq!(parts("А? Что?"), vec!["А?", "Что?"]);
    assert_eq!(parts("Я! Ты."), vec!["Я!", "Ты."]);
    assert_eq!(parts("Л. Н. Толстой."), vec!["Л. Н. Толстой."]);
}

#[test]
fn pieces_split_into_themselves() {
    for line in [
        "Он пришёл. Она ушла!  Л. Н. Толстой писал.",
        "Цена 3.5 рубля? Да… «Правда?» — спросил он.",
        "А? Что?! Ну... ладно.",
        "   ",
    ] {
        for piece in split_line(line) {
            assert_eq!(split_line(piece), vec![piece], "{piece}");
        }
    }
}

#[test]
fn pieces_keep_the_text_and_end_at_boundaries() {
    for line in [
        "Он пришёл. Она ушла!  Л. Н. Толстой писал.",
        "Цена 3.5 рубля? Да… «Правда?» — спросил он",
        " А? Что?! Ну... ладно. ",
    ] {
        let pieces = split_line(line);
        let joined: String = pieces.concat().chars().filter(|c| !c.is_whitespace()).collect();
        let original: String = line.chars().filter(|c| !c.is_whitespace()).collect();
        assert_eq!(joined, original, "{line}");
        for piece in &pieces[..pieces.len() - 1] {
            let last = piece.chars().last().unwrap();
            assert!(".!?…»\"”')]".contains(last), "{piece}");
        }
    }
}
