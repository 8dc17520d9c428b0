//! Answers of third-party detectors on the eval rows, as ISO 639-3 codes,
//! for side-by-side accuracy figures. Timing the runs happens outside this
//! library.
use vstd::prelude::*;

use crate::eval::{code_among, LINGUA_LANGS};
use crate::language::Lang;
use crate::model::str_is;

verus! {

/// The ISO 639-3 code of the language that whichlang detects in `text`.
pub uninterp spec fn whichlang_detected_code(text: Seq<char>) -> Seq<char>;

/// The longest text whichlang scores: it counts features (at most three
/// per char) in a `u32`, which a longer text overflows.
pub const WHICHLANG_MAX_CHARS: usize = 0x5555_5555;

/// `whichlang::detect_language`, its answer read as a code through
/// `whichlang::Lang::three_letter_code`. The contract names the code:
/// whichlang's fixed weights decide it from the text alone.
#[verifier::external_body]
fn whichlang_code(text: &str) -> (r: &'static str)
    requires
        text@.len() <= WHICHLANG_MAX_CHARS,
    ensures
        r@ == whichlang_detected_code(text@),
{
    whichlang::detect_language(text).three_letter_code()
}

/// whichlang's answer for every row; whichlang always answers. Rows must
/// stay within [`WHICHLANG_MAX_CHARS`] chars.
pub fn whichlang_predictions(texts: &[String]) -> (r: Vec<Option<String>>)
    requires
        forall|i: int| 0 <= i < texts@.len() ==> (#[trigger] texts@[i])@.len() <= WHICHLANG_MAX_CHARS,
    ensures
        r@.len() == texts@.len(),
        forall|i: int|
            0 <= i < texts@.len() ==> (#[trigger] r@[i] matches Some(code) && code@
                == whichlang_detected_code(texts@[i]@)),
{
    let mut out: Vec<Option<String>> = Vec::new();
    let mut i: usize = 0;
    while i < texts.len()
        invariant
            i <= texts@.len(),
            out@.len() == i,
            forall|j: int| 0 <= j < texts@.len() ==> (#[trigger] texts@[j])@.len() <= WHICHLANG_MAX_CHARS,
            forall|j: int|
                0 <= j < i ==> (#[trigger] out@[j] matches Some(code) && code@
                    == whichlang_detected_code(texts@[j]@)),
        decreases texts@.len() - i,
    {
        let code = whichlang_code(texts[i].as_str());
        out.push(Some(String::from_str(code)));
        i = i + 1;
    }
    out
}

/// lingua's detector, built outside this library from the languages it is
/// to choose among.
#[verifier::external_type_specification]
#[verifier::external_body]
pub struct ExLanguageDetector(lingua::LanguageDetector);

/// `answer` is an answer lingua's `detector` may give for `text`: an ISO
/// 639-3 code, or none.
pub uninterp spec fn lingua_may_answer(
    detector: lingua::LanguageDetector,
    text: Seq<char>,
    answer: Option<Seq<char>>,
) -> bool;

/// `lingua::LanguageDetector::detect_language_of`, its answer read as the
/// ISO 639-3 code lingua gives the language (`Language::iso_code_639_3`,
/// printed in lower case), `None` when lingua gives no answer. The contract
/// ties the answer to this detector and this text, as one lingua may give
/// for them; it does not say the answer is a function of the two: lingua
/// sums its n-gram log-probabilities in the iteration order of a `HashSet`
/// seeded per process (`create_ngrams`), so float rounding may decide a
/// near tie differently from one run to the next. Which answer lingua gives
/// is not stated.
#[verifier::external_body]
fn lingua_code(detector: &lingua::LanguageDetector, text: &str) -> (r: Option<String>)
    ensures
        lingua_may_answer(*detector, text@, code_view(r)),
{
    detector.detect_language_of(text).map(|l| l.iso_code_639_3().to_string())
}

/// Our language for an ISO 639-3 code that lingua answers with: a language
/// of [`LINGUA_LANGS`] whose code it is, or Chinese for lingua's `zho`
/// (ours is `cmn`); `None` for any other code.
pub fn lingua_lang(code: &str) -> (r: Option<Lang>)
    ensures
        code@ == "zho"@ ==> r == Some(Lang::Cmn),
        code@ != "zho"@ ==> (r is Some <==> code_among(LINGUA_LANGS@, code@)),
        r matches Some(l) ==> code_among(LINGUA_LANGS@, l.spec_code()) && (code@ == "zho"@
            || l.spec_code() == code@),
{
    proof {
        reveal_strlit("cmn");
    }
    if str_is(code, "zho") {
        assert(LINGUA_LANGS@[13] == Lang::Cmn);
        return Some(Lang::Cmn);
    }
    let mut i: usize = 0;
    while i < LINGUA_LANGS.len()
        invariant
            i <= 17,
            code@ != "zho"@,
            forall|j: int| 0 <= j < i ==> (#[trigger] LINGUA_LANGS@[j]).spec_code() != code@,
        decreases 17 - i,
    {
        let lang = LINGUA_LANGS[i];
        if str_is(code, lang.code()) {
            return Some(lang);
        }
        i = i + 1;
    }
    None
}

/// An optional code, each code taken by its chars.
pub open spec fn code_view(o: Option<String>) -> Option<Seq<char>> {
    match o {
        Some(s) => Some(s@),
        None => None,
    }
}

/// Our code for lingua's raw answer: `cmn` for lingua's `zho`, the code
/// itself where it names a language of [`LINGUA_LANGS`], else no answer.
pub open spec fn spec_lingua_answer(raw: Option<Seq<char>>) -> Option<Seq<char>> {
    match raw {
        Some(code) => if code == "zho"@ {
            Some("cmn"@)
        } else if code_among(LINGUA_LANGS@, code) {
            Some(code)
        } else {
            None
        },
        None => None,
    }
}

/// lingua's raw answer (an ISO 639-3 code, or none) as one of our codes.
pub fn lingua_answer(raw: Option<String>) -> (r: Option<String>)
    ensures
        code_view(r) == spec_lingua_answer(code_view(raw)),
{
    proof {
        reveal_strlit("cmn");
    }
    match raw {
        Some(code) => match lingua_lang(code.as_str()) {
            Some(lang) => Some(String::from_str(lang.code())),
            None => None,
        },
        None => None,
    }
}

/// `answer` is [`lingua_answer`] of an answer lingua's `detector` may give
/// for `text`.
pub open spec fn lingua_row(detector: lingua::LanguageDetector, text: Seq<char>, answer: Option<
    String,
>) -> bool {
    exists|raw: Option<Seq<char>>|
        #[trigger] lingua_may_answer(detector, text, raw) && code_view(answer)
            == spec_lingua_answer(raw)
}

/// lingua's answer for every row, as one of our codes: row `i` gets
/// [`lingua_answer`] of an answer lingua may give for `texts[i]`, so `None`
/// where lingua gives no answer or names a language outside our inventory.
pub fn lingua_predictions(detector: &lingua::LanguageDetector, texts: &[String]) -> (r: Vec<
    Option<String>,
>)
    ensures
        r@.len() == texts@.len(),
        forall|i: int| 0 <= i < texts@.len() ==> lingua_row(*detector, texts@[i]@, #[trigger] r@[i]),
{
    let mut out: Vec<Option<String>> = Vec::new();
    let mut i: usize = 0;
    while i < texts.len()
        invariant
            i <= texts@.len(),
            out@.len() == i,
            forall|j: int| 0 <= j < i ==> lingua_row(*detector, texts@[j]@, #[trigger] out@[j]),
        decreases texts@.len() - i,
    {
        let raw = lingua_code(detector, texts[i].as_str());
        let ghost raw_view = code_view(raw);
        let answer = lingua_answer(raw);
        out.push(answer);
        proof {
            assert(lingua_may_answer(*detector, texts@[i as int]@, raw_view));
            assert(lingua_row(*detector, texts@[i as int]@, out@[i as int]));
        }
        i = i + 1;
    }
    out
}

} // verus!
