//! Script routing: which model (if any) scores a document.
//!
//! Scripts with exactly one supported language (kana→jpn, Han→cmn,
//! Devanagari→hin, Arabic→ara) resolve directly and never touch a model;
//! Latin and Cyrillic text goes to the corresponding script-group columns
//! of the folded score table.
use vstd::prelude::*;

use crate::language::{char_script, spec_char_script, Lang, Script, NUM_LANGS};
use crate::text::str_chars;

verus! {

/// Which model columns score a script's text.
#[derive(Copy, Clone, Debug, PartialEq, Eq, Hash, Structural)]
pub enum ScriptGroup {
    Cyrillic,
    Latin,
    /// Scripts with exactly one supported language; never reaches a model.
    Direct,
}

impl ScriptGroup {
    /// First model column of the group.
    pub open spec fn spec_start(self) -> nat {
        match self {
            ScriptGroup::Cyrillic => 0,
            ScriptGroup::Latin => 21,
            ScriptGroup::Direct => 26,
        }
    }

    /// One past the last model column of the group.
    pub open spec fn spec_end(self) -> nat {
        match self {
            ScriptGroup::Cyrillic => 21,
            ScriptGroup::Latin => 26,
            ScriptGroup::Direct => NUM_LANGS as nat,
        }
    }

    /// Languages whose columns the group model owns, in column order.
    pub fn languages(self) -> (r: &'static [Lang])
        ensures
            r@ == Lang::ALL@.subrange(self.spec_start() as int, self.spec_end() as int),
    {
        match self {
            ScriptGroup::Cyrillic => &Lang::ALL[0..21],
            ScriptGroup::Latin => &Lang::ALL[21..26],
            ScriptGroup::Direct => &Lang::ALL[26..NUM_LANGS],
        }
    }

    /// Contiguous model-column range owned by this group.
    pub fn column_range(self) -> (r: std::ops::Range<usize>)
        ensures
            r.start == self.spec_start(),
            r.end == self.spec_end(),
    {
        match self {
            ScriptGroup::Cyrillic => 0..21,
            ScriptGroup::Latin => 21..26,
            ScriptGroup::Direct => 26..NUM_LANGS,
        }
    }
}

/// Group owning a language's model columns, derived from its script.
pub open spec fn spec_group_of(lang: Lang) -> ScriptGroup {
    match lang.spec_script() {
        Script::Cyrillic => ScriptGroup::Cyrillic,
        Script::Latin => ScriptGroup::Latin,
        _ => ScriptGroup::Direct,
    }
}

/// Group owning a language's model columns, derived from its script.
pub fn group_of(lang: Lang) -> (r: ScriptGroup)
    ensures
        r == spec_group_of(lang),
{
    match lang.script() {
        Script::Cyrillic => ScriptGroup::Cyrillic,
        Script::Latin => ScriptGroup::Latin,
        _ => ScriptGroup::Direct,
    }
}

/// Where the router sends a piece of text.
#[derive(Copy, Clone, Debug, PartialEq, Eq, Structural)]
pub enum Route {
    /// Run the script-group model.
    Group(ScriptGroup),
    /// Script uniquely identifies the language.
    Direct(Lang),
    /// No letters from a supported script were found.
    Unknown,
}

/// Number of chars of `t` in script `s`.
pub open spec fn script_count(t: Seq<char>, s: Script) -> nat
    decreases t.len(),
{
    if t.len() == 0 {
        0
    } else {
        script_count(t.drop_last(), s) + if spec_char_script(t.last()) == Some(s) {
            1nat
        } else {
            0nat
        }
    }
}

/// Route text by dominant script: kana anywhere means Japanese; otherwise
/// the most frequent of Latin/Cyrillic/Han wins, ties going to the later of
/// Latin < Cyrillic < Han; then Devanagari, then Arabic; else unknown.
pub open spec fn spec_route(t: Seq<char>) -> Route {
    let latin = script_count(t, Script::Latin);
    let cyrillic = script_count(t, Script::Cyrillic);
    let han = script_count(t, Script::Han);
    if script_count(t, Script::Kana) > 0 {
        Route::Direct(Lang::Jpn)
    } else if latin > 0 || cyrillic > 0 || han > 0 {
        if han >= cyrillic && han >= latin {
            Route::Direct(Lang::Cmn)
        } else if cyrillic >= latin {
            Route::Group(ScriptGroup::Cyrillic)
        } else {
            Route::Group(ScriptGroup::Latin)
        }
    } else if script_count(t, Script::Devanagari) > 0 {
        Route::Direct(Lang::Hin)
    } else if script_count(t, Script::Arabic) > 0 {
        Route::Direct(Lang::Ara)
    } else {
        Route::Unknown
    }
}

/// Route text by dominant script. Kana is decisive for Japanese even when
/// kanji dominates the letter count; otherwise the script with the most
/// letters wins. Mixed-script ties go to the later candidate in declaration
/// order (Han > Cyrillic > Latin).
pub fn route(text: &str) -> (r: Route)
    ensures
        r == spec_route(text@),
{
    let chars = str_chars(text);
    let n = chars.len();
    let mut latin: usize = 0;
    let mut cyrillic: usize = 0;
    let mut devanagari: usize = 0;
    let mut arabic: usize = 0;
    let mut kana: usize = 0;
    let mut han: usize = 0;
    let mut i: usize = 0;
    while i < n
        invariant
            n == chars@.len(),
            i <= n,
            latin == script_count(chars@.take(i as int), Script::Latin),
            cyrillic == script_count(chars@.take(i as int), Script::Cyrillic),
            devanagari == script_count(chars@.take(i as int), Script::Devanagari),
            arabic == script_count(chars@.take(i as int), Script::Arabic),
            kana == script_count(chars@.take(i as int), Script::Kana),
            han == script_count(chars@.take(i as int), Script::Han),
            latin + cyrillic + devanagari + arabic + kana + han <= i,
        decreases n - i,
    {
        assert(chars@.take(i + 1).drop_last() == chars@.take(i as int));
        assert(chars@.take(i + 1).last() == chars@[i as int]);
        match char_script(chars[i]) {
            Some(Script::Latin) => latin = latin + 1,
            Some(Script::Cyrillic) => cyrillic = cyrillic + 1,
            Some(Script::Devanagari) => devanagari = devanagari + 1,
            Some(Script::Arabic) => arabic = arabic + 1,
            Some(Script::Kana) => kana = kana + 1,
            Some(Script::Han) => han = han + 1,
            None => {},
        }
        i = i + 1;
    }
    assert(chars@.take(n as int) == text@);
    if kana > 0 {
        return Route::Direct(Lang::Jpn);
    }
    if latin > 0 || cyrillic > 0 || han > 0 {
        if han >= cyrillic && han >= latin {
            return Route::Direct(Lang::Cmn);
        } else if cyrillic >= latin {
            return Route::Group(ScriptGroup::Cyrillic);
        } else {
            return Route::Group(ScriptGroup::Latin);
        }
    }
    if devanagari > 0 {
        return Route::Direct(Lang::Hin);
    }
    if arabic > 0 {
        return Route::Direct(Lang::Ara);
    }
    Route::Unknown
}

/// Every language sits in the group its script implies, and each group's
/// languages are exactly a contiguous block of model columns
/// (Cyrillic 0..21, Latin 21..26, script-unique 26..30).
pub proof fn lemma_groups_are_contiguous_and_script_derived(lang: Lang)
    ensures
        spec_group_of(lang).spec_start() <= lang.spec_index() < spec_group_of(lang).spec_end(),
        Lang::ALL@.subrange(
            spec_group_of(lang).spec_start() as int,
            spec_group_of(lang).spec_end() as int,
        ).contains(lang),
{
    crate::language::lemma_all_is_indexed();
    let g = spec_group_of(lang);
    let sub = Lang::ALL@.subrange(g.spec_start() as int, g.spec_end() as int);
    assert(sub[lang.spec_index() - g.spec_start()] == lang);
}

/// Routing never sends text to the script-unique column block: a group
/// route is always Latin or Cyrillic, and script-unique languages are
/// answered directly.
pub proof fn lemma_group_routes_are_model_groups(t: Seq<char>)
    ensures
        spec_route(t) is Group ==> spec_route(t)->Group_0 != ScriptGroup::Direct,
        spec_route(t) is Direct ==> spec_group_of(spec_route(t)->Direct_0) == ScriptGroup::Direct,
{
}

/// `t` holds a char of script `s`.
pub open spec fn has_script(t: Seq<char>, s: Script) -> bool {
    exists|i: int| 0 <= i < t.len() && spec_char_script(#[trigger] t[i]) == Some(s)
}

/// A script's count is positive exactly when the text holds a char of it.
proof fn lemma_count_positive_iff_present(t: Seq<char>, s: Script)
    ensures
        script_count(t, s) > 0 <==> has_script(t, s),
    decreases t.len(),
{
    if t.len() > 0 {
        let u = t.drop_last();
        lemma_count_positive_iff_present(u, s);
        if has_script(u, s) {
            let i = choose|i: int| 0 <= i < u.len() && spec_char_script(#[trigger] u[i]) == Some(s);
            assert(t[i] == u[i]);
        }
        if has_script(t, s) && !has_script(u, s) {
            let i = choose|i: int| 0 <= i < t.len() && spec_char_script(#[trigger] t[i]) == Some(s);
            if i < t.len() - 1 {
                assert(u[i] == t[i]);
            }
        }
        if spec_char_script(t.last()) == Some(s) {
            assert(t[t.len() - 1] == t.last());
        }
    }
}

/// Kana is decisive: a text with any hiragana or katakana char routes to
/// Japanese, however many Han, Latin or Cyrillic letters it also holds.
pub proof fn lemma_kana_is_decisive(t: Seq<char>)
    requires
        has_script(t, Script::Kana),
    ensures
        spec_route(t) == Route::Direct(Lang::Jpn),
{
    lemma_count_positive_iff_present(t, Script::Kana);
}

/// A text written in one script routes by that script alone: Latin and
/// Cyrillic to their group models, Han to Chinese, kana to Japanese,
/// Devanagari to Hindi, Arabic to Arabic; a text with no char of any
/// supported script is unknown.
pub proof fn lemma_single_script_routes(t: Seq<char>, s: Script)
    requires
        has_script(t, s),
        forall|i: int| 0 <= i < t.len() ==> #[trigger] spec_char_script(t[i]) is None
            || spec_char_script(t[i]) == Some(s),
    ensures
        spec_route(t) == match s {
            Script::Latin => Route::Group(ScriptGroup::Latin),
            Script::Cyrillic => Route::Group(ScriptGroup::Cyrillic),
            Script::Han => Route::Direct(Lang::Cmn),
            Script::Kana => Route::Direct(Lang::Jpn),
            Script::Devanagari => Route::Direct(Lang::Hin),
            Script::Arabic => Route::Direct(Lang::Ara),
        },
{
    lemma_count_positive_iff_present(t, s);
    lemma_count_positive_iff_present(t, Script::Latin);
    lemma_count_positive_iff_present(t, Script::Cyrillic);
    lemma_count_positive_iff_present(t, Script::Han);
    lemma_count_positive_iff_present(t, Script::Kana);
    lemma_count_positive_iff_present(t, Script::Devanagari);
    lemma_count_positive_iff_present(t, Script::Arabic);
}

/// A text with no char of a supported script is unknown.
pub proof fn lemma_no_script_is_unknown(t: Seq<char>)
    requires
        forall|i: int| 0 <= i < t.len() ==> #[trigger] spec_char_script(t[i]) is None,
    ensures
        spec_route(t) == Route::Unknown,
{
    lemma_count_positive_iff_present(t, Script::Latin);
    lemma_count_positive_iff_present(t, Script::Cyrillic);
    lemma_count_positive_iff_present(t, Script::Han);
    lemma_count_positive_iff_present(t, Script::Kana);
    lemma_count_positive_iff_present(t, Script::Devanagari);
    lemma_count_positive_iff_present(t, Script::Arabic);
}

/// More letters of the script that won keep the route: appending a Latin
/// letter to Latin-routed text, a Cyrillic one to Cyrillic-routed text or a
/// Han one to Chinese-routed text changes nothing, and Japanese-routed text
/// stays Japanese whatever is appended.
pub proof fn lemma_more_of_the_winner_keeps_the_route(t: Seq<char>, c: char)
    requires
        (spec_route(t) == Route::Group(ScriptGroup::Latin) && spec_char_script(c) == Some(
            Script::Latin,
        )) || (spec_route(t) == Route::Group(ScriptGroup::Cyrillic) && spec_char_script(c)
            == Some(Script::Cyrillic)) || (spec_route(t) == Route::Direct(Lang::Cmn)
            && spec_char_script(c) == Some(Script::Han)) || spec_route(t) == Route::Direct(
            Lang::Jpn,
        ),
    ensures
        spec_route(t.push(c)) == spec_route(t),
{
    assert(t.push(c).drop_last() == t);
    assert(t.push(c).last() == c);
}

} // verus!
