//! Which stemming algorithm, if any, indexing uses.

use rust_stemmers::Algorithm as Snowball;
use crate::text::{push_str, str_eq};
use vstd::prelude::*;

verus! {

/// The stemming languages of the Snowball project.
#[derive(Debug, Clone, Copy, PartialEq, Eq, Structural)]
pub enum Algorithm {
    Arabic,
    Danish,
    Dutch,
    English,
    Finnish,
    French,
    German,
    Greek,
    Hungarian,
    Italian,
    Norwegian,
    Portuguese,
    Romanian,
    Russian,
    Spanish,
    Swedish,
    Tamil,
    Turkish,
}

/// Stemming in a language, or no stemming at all.
#[derive(Debug, Clone, Copy, PartialEq, Eq, Structural)]
pub enum StemmingConfig {
    Language(Algorithm),
    Disabled,
}

impl Default for StemmingConfig {
    fn default() -> (r: Self)
        ensures
            r == StemmingConfig::Language(Algorithm::English),
    {
        StemmingConfig::Language(Algorithm::English)
    }
}

/// The stem of `word` under the algorithm `alg`.
pub uninterp spec fn stem_of(alg: Algorithm, word: Seq<char>) -> Seq<char>;

/// The stem of a word.
///
/// Calls `rust_stemmers::Stemmer::create` for the algorithm of the same name
/// and then `Stemmer::stem`, which runs the Snowball stemmer on the word. The
/// stem depends on the algorithm and the word alone and is named by
/// `stem_of`; what the Snowball algorithms compute is not written out here.
#[verifier::external_body]
pub(crate) fn stem_word(alg: Algorithm, word: &str) -> (r: String)
    ensures
        r@ == stem_of(alg, word@),
{
    let a = match alg {
        Algorithm::Arabic => Snowball::Arabic, Algorithm::Danish => Snowball::Danish,
        Algorithm::Dutch => Snowball::Dutch, Algorithm::English => Snowball::English,
        Algorithm::Finnish => Snowball::Finnish, Algorithm::French => Snowball::French,
        Algorithm::German => Snowball::German, Algorithm::Greek => Snowball::Greek,
        Algorithm::Hungarian => Snowball::Hungarian, Algorithm::Italian => Snowball::Italian,
        Algorithm::Norwegian => Snowball::Norwegian, Algorithm::Portuguese => Snowball::Portuguese,
        Algorithm::Romanian => Snowball::Romanian, Algorithm::Russian => Snowball::Russian,
        Algorithm::Spanish => Snowball::Spanish, Algorithm::Swedish => Snowball::Swedish,
        Algorithm::Tamil => Snowball::Tamil, Algorithm::Turkish => Snowball::Turkish,
    };
    rust_stemmers::Stemmer::create(a).stem(word).to_string()
}

/// The name of a stemming language, as the Snowball project writes it.
pub open spec fn algorithm_name(a: Algorithm) -> Seq<char> {
    match a {
        Algorithm::Arabic => "Arabic"@,
        Algorithm::Danish => "Danish"@,
        Algorithm::Dutch => "Dutch"@,
        Algorithm::English => "English"@,
        Algorithm::Finnish => "Finnish"@,
        Algorithm::French => "French"@,
        Algorithm::German => "German"@,
        Algorithm::Greek => "Greek"@,
        Algorithm::Hungarian => "Hungarian"@,
        Algorithm::Italian => "Italian"@,
        Algorithm::Norwegian => "Norwegian"@,
        Algorithm::Portuguese => "Portuguese"@,
        Algorithm::Romanian => "Romanian"@,
        Algorithm::Russian => "Russian"@,
        Algorithm::Spanish => "Spanish"@,
        Algorithm::Swedish => "Swedish"@,
        Algorithm::Tamil => "Tamil"@,
        Algorithm::Turkish => "Turkish"@,
    }
}

/// The stemming language a name names, if any.
pub open spec fn algorithm_named(s: Seq<char>) -> Option<Algorithm> {
    if s == "Arabic"@ {
        Some(Algorithm::Arabic)
    } else if s == "Danish"@ {
        Some(Algorithm::Danish)
    } else if s == "Dutch"@ {
        Some(Algorithm::Dutch)
    } else if s == "English"@ {
        Some(Algorithm::English)
    } else if s == "Finnish"@ {
        Some(Algorithm::Finnish)
    } else if s == "French"@ {
        Some(Algorithm::French)
    } else if s == "German"@ {
        Some(Algorithm::German)
    } else if s == "Greek"@ {
        Some(Algorithm::Greek)
    } else if s == "Hungarian"@ {
        Some(Algorithm::Hungarian)
    } else if s == "Italian"@ {
        Some(Algorithm::Italian)
    } else if s == "Norwegian"@ {
        Some(Algorithm::Norwegian)
    } else if s == "Portuguese"@ {
        Some(Algorithm::Portuguese)
    } else if s == "Romanian"@ {
        Some(Algorithm::Romanian)
    } else if s == "Russian"@ {
        Some(Algorithm::Russian)
    } else if s == "Spanish"@ {
        Some(Algorithm::Spanish)
    } else if s == "Swedish"@ {
        Some(Algorithm::Swedish)
    } else if s == "Tamil"@ {
        Some(Algorithm::Tamil)
    } else if s == "Turkish"@ {
        Some(Algorithm::Turkish)
    } else {
        None
    }
}

/// The stemming setting a name names: `none` or `None` for no stemming,
/// else the language of that name.
pub open spec fn stemming_named(s: Seq<char>) -> Option<StemmingConfig> {
    if s == "none"@ || s == "None"@ {
        Some(StemmingConfig::Disabled)
    } else {
        match algorithm_named(s) {
            Some(a) => Some(StemmingConfig::Language(a)),
            None => None,
        }
    }
}

/// The name a stemming setting is written with.
pub open spec fn stemming_name(c: StemmingConfig) -> Seq<char> {
    match c {
        StemmingConfig::Language(a) => algorithm_name(a),
        StemmingConfig::Disabled => "none"@,
    }
}

/// The message for a stemming setting that names nothing known.
pub open spec fn stemming_error(s: Seq<char>) -> Seq<char> {
    "Unexpected value `"@ + s
        + "`, expected `none` or a language supported by https://snowballstem.org/, e.g. `Dutch`"@
}

impl Algorithm {
    /// The name of this language.
    pub fn name(&self) -> (r: String)
        ensures
            r@ == algorithm_name(*self),
    {
        match self {
            Algorithm::Arabic => "Arabic".to_owned(),
            Algorithm::Danish => "Danish".to_owned(),
            Algorithm::Dutch => "Dutch".to_owned(),
            Algorithm::English => "English".to_owned(),
            Algorithm::Finnish => "Finnish".to_owned(),
            Algorithm::French => "French".to_owned(),
            Algorithm::German => "German".to_owned(),
            Algorithm::Greek => "Greek".to_owned(),
            Algorithm::Hungarian => "Hungarian".to_owned(),
            Algorithm::Italian => "Italian".to_owned(),
            Algorithm::Norwegian => "Norwegian".to_owned(),
            Algorithm::Portuguese => "Portuguese".to_owned(),
            Algorithm::Romanian => "Romanian".to_owned(),
            Algorithm::Russian => "Russian".to_owned(),
            Algorithm::Spanish => "Spanish".to_owned(),
            Algorithm::Swedish => "Swedish".to_owned(),
            Algorithm::Tamil => "Tamil".to_owned(),
            Algorithm::Turkish => "Turkish".to_owned(),
        }
    }
}

/// The language of the Snowball algorithm of `rust_stemmers` whose variant
/// is named `s`, if any.
fn algorithm_of_variant_name(s: &str) -> (r: Option<Algorithm>)
    ensures
        r == algorithm_named(s@),
{
    if str_eq(s, "Arabic") {
        return Some(Algorithm::Arabic);
    }
    if str_eq(s, "Danish") {
        return Some(Algorithm::Danish);
    }
    if str_eq(s, "Dutch") {
        return Some(Algorithm::Dutch);
    }
    if str_eq(s, "English") {
        return Some(Algorithm::English);
    }
    if str_eq(s, "Finnish") {
        return Some(Algorithm::Finnish);
    }
    if str_eq(s, "French") {
        return Some(Algorithm::French);
    }
    if str_eq(s, "German") {
        return Some(Algorithm::German);
    }
    if str_eq(s, "Greek") {
        return Some(Algorithm::Greek);
    }
    if str_eq(s, "Hungarian") {
        return Some(Algorithm::Hungarian);
    }
    if str_eq(s, "Italian") {
        return Some(Algorithm::Italian);
    }
    if str_eq(s, "Norwegian") {
        return Some(Algorithm::Norwegian);
    }
    if str_eq(s, "Portuguese") {
        return Some(Algorithm::Portuguese);
    }
    if str_eq(s, "Romanian") {
        return Some(Algorithm::Romanian);
    }
    if str_eq(s, "Russian") {
        return Some(Algorithm::Russian);
    }
    if str_eq(s, "Spanish") {
        return Some(Algorithm::Spanish);
    }
    if str_eq(s, "Swedish") {
        return Some(Algorithm::Swedish);
    }
    if str_eq(s, "Tamil") {
        return Some(Algorithm::Tamil);
    }
    if str_eq(s, "Turkish") {
        return Some(Algorithm::Turkish);
    }
    None
}

/// The variant name of the `rust_stemmers::Algorithm` that the TOML setting
/// `lang = "name"` is read into, where it is read into one.
pub uninterp spec fn toml_language(name: Seq<char>) -> Option<Seq<char>>;

/// Reads a language's name as the value of a TOML setting.
///
/// Calls `toml::from_str` on the text `lang = "name"`, then
/// `toml::Value::get` for the key `lang` and `toml::Value::try_into` into a
/// `rust_stemmers::Algorithm`, whose `Deserialize` takes the exact name of
/// one of its variants; the variant comes back by its `Debug` name. The
/// result depends on the name alone and is named by `toml_language`; the
/// TOML string syntax (escapes, quotes) is not written out here. A name that
/// is already one of the variant names reads as itself.
#[verifier::external_body]
fn read_language_name(name: &str) -> (r: Option<String>)
    ensures
        match r {
            Some(n) => toml_language(name@) == Some(n@),
            None => toml_language(name@) is None,
        },
        (exists|a: Algorithm| #[trigger] algorithm_name(a) == name@) ==> r is Some && r.unwrap()@ == name@,
{
    match toml::from_str::<toml::Value>(&format!("lang = \"{}\"", name)) {
        Ok(table) => match table.get("lang").map(|v| v.clone().try_into::<Snowball>()) {
            Some(Ok(a)) => Some(format!("{:?}", a)),
            _ => None,
        },
        Err(_) => None,
    }
}

/// The stemming language a name reads as, where it reads as one.
pub open spec fn language_read(s: Seq<char>) -> Option<Algorithm> {
    match toml_language(s) {
        Some(n) => algorithm_named(n),
        None => None,
    }
}

/// The stemming language a name names, read as the value of a TOML setting
/// into one of the Snowball algorithms of `rust_stemmers`.
pub fn algorithm_from_name(s: &str) -> (r: Option<Algorithm>)
    ensures
        r == language_read(s@),
        forall|a: Algorithm| s@ == algorithm_name(a) ==> r == Some(a),
{
    proof {
        assert forall|a: Algorithm| s@ == algorithm_name(a) implies algorithm_named(s@) == Some(a) by {
            lemma_stemming_name_round_trip(StemmingConfig::Language(a));
        }
    }
    match read_language_name(s) {
        Some(n) => algorithm_of_variant_name(n.as_str()),
        None => None,
    }
}

/// The stemming setting a name reads as: `none` or `None` for no stemming,
/// else the language it reads as.
pub open spec fn stemming_read(s: Seq<char>) -> Option<StemmingConfig> {
    if s == "none"@ || s == "None"@ {
        Some(StemmingConfig::Disabled)
    } else {
        match language_read(s) {
            Some(a) => Some(StemmingConfig::Language(a)),
            None => None,
        }
    }
}

impl StemmingConfig {
    /// The name this setting is written with: the language's name, or
    /// `none`.
    pub fn to_string(&self) -> (r: String)
        ensures
            r@ == stemming_name(*self),
    {
        match self {
            StemmingConfig::Language(a) => a.name(),
            StemmingConfig::Disabled => "none".to_owned(),
        }
    }
}

/// Reads a stemming setting from its name: `none` or `None` turns stemming
/// off, a language's name turns it on in that language; anything else is
/// refused with a message.
pub fn parse_stemming_config(s: &str) -> (r: Result<StemmingConfig, String>)
    ensures
        match stemming_read(s@) {
            Some(c) => r == Ok::<StemmingConfig, String>(c),
            None => r matches Err(m) && m@ == stemming_error(s@),
        },
        forall|c: StemmingConfig| s@ == stemming_name(c) ==> r == Ok::<StemmingConfig, String>(c),
{
    proof {
        assert forall|c: StemmingConfig| s@ == stemming_name(c) implies (s@ == "none"@ || s@ == "None"@)
            == (c == StemmingConfig::Disabled) by {
            lemma_stemming_name_round_trip(c);
        }
    }
    if str_eq(s, "none") || str_eq(s, "None") {
        return Ok(StemmingConfig::Disabled);
    }
    match algorithm_from_name(s) {
        Some(a) => Ok(StemmingConfig::Language(a)),
        None => {
            let mut m = "Unexpected value `".to_owned();
            push_str(&mut m, s);
            push_str(&mut m, "`, expected `none` or a language supported by https://snowballstem.org/, e.g. `Dutch`");
            Err(m)
        },
    }
}

/// A stemming setting read back from the name it is written with is the
/// same setting.
pub proof fn lemma_stemming_name_round_trip(c: StemmingConfig)
    ensures
        stemming_named(stemming_name(c)) == Some(c),
{
    reveal_strlit("none");
    reveal_strlit("None");
    reveal_strlit("Arabic");
    reveal_strlit("Danish");
    reveal_strlit("Dutch");
    reveal_strlit("English");
    reveal_strlit("Finnish");
    reveal_strlit("French");
    reveal_strlit("German");
    reveal_strlit("Greek");
    reveal_strlit("Hungarian");
    reveal_strlit("Italian");
    reveal_strlit("Norwegian");
    reveal_strlit("Portuguese");
    reveal_strlit("Romanian");
    reveal_strlit("Russian");
    reveal_strlit("Spanish");
    reveal_strlit("Swedish");
    reveal_strlit("Tamil");
    reveal_strlit("Turkish");
    match c {
        StemmingConfig::Disabled => {
            assert(stemming_name(c) == "none"@);
            assert(stemming_named("none"@) == Some(StemmingConfig::Disabled));
        },
        StemmingConfig::Language(Algorithm::Arabic) => {
            assert("Arabic"@.len() != "none"@.len());
            assert("Arabic"@.len() != "None"@.len());
            assert(algorithm_named("Arabic"@) == Some(Algorithm::Arabic));
        },
        StemmingConfig::Language(Algorithm::Danish) => {
            assert("Danish"@[0] != "Arabic"@[0]);
            assert("Danish"@.len() != "none"@.len());
            assert("Danish"@.len() != "None"@.len());
            assert(algorithm_named("Danish"@) == Some(Algorithm::Danish));
        },
        StemmingConfig::Language(Algorithm::Dutch) => {
            assert("Dutch"@.len() != "Arabic"@.len());
            assert("Dutch"@.len() != "Danish"@.len());
            assert("Dutch"@.len() != "none"@.len());
            assert("Dutch"@.len() != "None"@.len());
            assert(algorithm_named("Dutch"@) == Some(Algorithm::Dutch));
        },
        StemmingConfig::Language(Algorithm::English) => {
            assert("English"@.len() != "Arabic"@.len());
            assert("English"@.len() != "Danish"@.len());
            assert("English"@.len() != "Dutch"@.len());
            assert("English"@.len() != "none"@.len());
            assert("English"@.len() != "None"@.len());
            assert(algorithm_named("English"@) == Some(Algorithm::English));
        },
        StemmingConfig::Language(Algorithm::Finnish) => {
            assert("Finnish"@.len() != "Arabic"@.len());
            assert("Finnish"@.len() != "Danish"@.len());
            assert("Finnish"@.len() != "Dutch"@.len());
            assert("Finnish"@[0] != "English"@[0]);
            assert("Finnish"@.len() != "none"@.len());
            assert("Finnish"@.len() != "None"@.len());
            assert(algorithm_named("Finnish"@) == Some(Algorithm::Finnish));
        },
        StemmingConfig::Language(Algorithm::French) => {
            assert("French"@[0] != "Arabic"@[0]);
            assert("French"@[0] != "Danish"@[0]);
            assert("French"@.len() != "Dutch"@.len());
            assert("French"@.len() != "English"@.len());
            assert("French"@.len() != "Finnish"@.len());
            assert("French"@.len() != "none"@.len());
            assert("French"@.len() != "None"@.len());
            assert(algorithm_named("French"@) == Some(Algorithm::French));
        },
        StemmingConfig::Language(Algorithm::German) => {
            assert("German"@[0] != "Arabic"@[0]);
            assert("German"@[0] != "Danish"@[0]);
            assert("German"@.len() != "Dutch"@.len());
            assert("German"@.len() != "English"@.len());
            assert("German"@.len() != "Finnish"@.len());
            assert("German"@[0] != "French"@[0]);
            assert("German"@.len() != "none"@.len());
            assert("German"@.len() != "None"@.len());
            assert(algorithm_named("German"@) == Some(Algorithm::German));
        },
        StemmingConfig::Language(Algorithm::Greek) => {
            assert("Greek"@.len() != "Arabic"@.len());
            assert("Greek"@.len() != "Danish"@.len());
            assert("Greek"@[0] != "Dutch"@[0]);
            assert("Greek"@.len() != "English"@.len());
            assert("Greek"@.len() != "Finnish"@.len());
            assert("Greek"@.len() != "French"@.len());
            assert("Greek"@.len() != "German"@.len());
            assert("Greek"@.len() != "none"@.len());
            assert("Greek"@.len() != "None"@.len());
            assert(algorithm_named("Greek"@) == Some(Algorithm::Greek));
        },
        StemmingConfig::Language(Algorithm::Hungarian) => {
            assert("Hungarian"@.len() != "Arabic"@.len());
            assert("Hungarian"@.len() != "Danish"@.len());
            assert("Hungarian"@.len() != "Dutch"@.len());
            assert("Hungarian"@.len() != "English"@.len());
            assert("Hungarian"@.len() != "Finnish"@.len());
            assert("Hungarian"@.len() != "French"@.len());
            assert("Hungarian"@.len() != "German"@.len());
            assert("Hungarian"@.len() != "Greek"@.len());
            assert("Hungarian"@.len() != "none"@.len());
            assert("Hungarian"@.len() != "None"@.len());
            assert(algorithm_named("Hungarian"@) == Some(Algorithm::Hungarian));
        },
        StemmingConfig::Language(Algorithm::Italian) => {
            assert("Italian"@.len() != "Arabic"@.len());
            assert("Italian"@.len() != "Danish"@.len());
            assert("Italian"@.len() != "Dutch"@.len());
            assert("Italian"@[0] != "English"@[0]);
            assert("Italian"@[0] != "Finnish"@[0]);
            assert("Italian"@.len() != "French"@.len());
            assert("Italian"@.len() != "German"@.len());
            assert("Italian"@.len() != "Greek"@.len());
            assert("Italian"@.len() != "Hungarian"@.len());
            assert("Italian"@.len() != "none"@.len());
            assert("Italian"@.len() != "None"@.len());
            assert(algorithm_named("Italian"@) == Some(Algorithm::Italian));
        },
        StemmingConfig::Language(Algorithm::Norwegian) => {
            assert("Norwegian"@.len() != "Arabic"@.len());
            assert("Norwegian"@.len() != "Danish"@.len());
            assert("Norwegian"@.len() != "Dutch"@.len());
            assert("Norwegian"@.len() != "English"@.len());
            assert("Norwegian"@.len() != "Finnish"@.len());
            assert("Norwegian"@.len() != "French"@.len());
            assert("Norwegian"@.len() != "German"@.len());
            assert("Norwegian"@.len() != "Greek"@.len());
            assert("Norwegian"@[0] != "Hungarian"@[0]);
            assert("Norwegian"@.len() != "Italian"@.len());
            assert("Norwegian"@.len() != "none"@.len());
            assert("Norwegian"@.len() != "None"@.len());
            assert(algorithm_named("Norwegian"@) == Some(Algorithm::Norwegian));
        },
        StemmingConfig::Language(Algorithm::Portuguese) => {
            assert("Portuguese"@.len() != "Arabic"@.len());
            assert("Portuguese"@.len() != "Danish"@.len());
            assert("Portuguese"@.len() != "Dutch"@.len());
            assert("Portuguese"@.len() != "English"@.len());
            assert("Portuguese"@.len() != "Finnish"@.len());
            assert("Portuguese"@.len() != "French"@.len());
            assert("Portuguese"@.len() != "German"@.len());
            assert("Portuguese"@.len() != "Greek"@.len());
            assert("Portuguese"@.len() != "Hungarian"@.len());
            assert("Portuguese"@.len() != "Italian"@.len());
            assert("Portuguese"@.len() != "Norwegian"@.len());
            assert("Portuguese"@.len() != "none"@.len());
            assert("Portuguese"@.len() != "None"@.len());
            assert(algorithm_named("Portuguese"@) == Some(Algorithm::Portuguese));
        },
        StemmingConfig::Language(Algorithm::Romanian) => {
            assert("Romanian"@.len() != "Arabic"@.len());
            assert("Romanian"@.len() != "Danish"@.len());
            assert("Romanian"@.len() != "Dutch"@.len());
            assert("Romanian"@.len() != "English"@.len());
            assert("Romanian"@.len() != "Finnish"@.len());
            assert("Romanian"@.len() != "French"@.len());
            assert("Romanian"@.len() != "German"@.len());
            assert("Romanian"@.len() != "Greek"@.len());
            assert("Romanian"@.len() != "Hungarian"@.len());
            assert("Romanian"@.len() != "Italian"@.len());
            assert("Romanian"@.len() != "Norwegian"@.len());
            assert("Romanian"@.len() != "Portuguese"@.len());
            assert("Romanian"@.len() != "none"@.len());
            assert("Romanian"@.len() != "None"@.len());
            assert(algorithm_named("Romanian"@) == Some(Algorithm::Romanian));
        },
        StemmingConfig::Language(Algorithm::Russian) => {
            assert("Russian"@.len() != "Arabic"@.len());
            assert("Russian"@.len() != "Danish"@.len());
            assert("Russian"@.len() != "Dutch"@.len());
            assert("Russian"@[0] != "English"@[0]);
            assert("Russian"@[0] != "Finnish"@[0]);
            assert("Russian"@.len() != "French"@.len());
            assert("Russian"@.len() != "German"@.len());
            assert("Russian"@.len() != "Greek"@.len());
            assert("Russian"@.len() != "Hungarian"@.len());
            assert("Russian"@[0] != "Italian"@[0]);
            assert("Russian"@.len() != "Norwegian"@.len());
            assert("Russian"@.len() != "Portuguese"@.len());
            assert("Russian"@.len() != "Romanian"@.len());
            assert("Russian"@.len() != "none"@.len());
            assert("Russian"@.len() != "None"@.len());
            assert(algorithm_named("Russian"@) == Some(Algorithm::Russian));
        },
        StemmingConfig::Language(Algorithm::Spanish) => {
            assert("Spanish"@.len() != "Arabic"@.len());
            assert("Spanish"@.len() != "Danish"@.len());
            assert("Spanish"@.len() != "Dutch"@.len());
            assert("Spanish"@[0] != "English"@[0]);
            assert("Spanish"@[0] != "Finnish"@[0]);
            assert("Spanish"@.len() != "French"@.len());
            assert("Spanish"@.len() != "German"@.len());
            assert("Spanish"@.len() != "Greek"@.len());
            assert("Spanish"@.len() != "Hungarian"@.len());
            assert("Spanish"@[0] != "Italian"@[0]);
            assert("Spanish"@.len() != "Norwegian"@.len());
            assert("Spanish"@.len() != "Portuguese"@.len());
            assert("Spanish"@.len() != "Romanian"@.len());
            assert("Spanish"@[0] != "Russian"@[0]);
            assert("Spanish"@.len() != "none"@.len());
            assert("Spanish"@.len() != "None"@.len());
            assert(algorithm_named("Spanish"@) == Some(Algorithm::Spanish));
        },
        StemmingConfig::Language(Algorithm::Swedish) => {
            assert("Swedish"@.len() != "Arabic"@.len());
            assert("Swedish"@.len() != "Danish"@.len());
            assert("Swedish"@.len() != "Dutch"@.len());
            assert("Swedish"@[0] != "English"@[0]);
            assert("Swedish"@[0] != "Finnish"@[0]);
            assert("Swedish"@.len() != "French"@.len());
            assert("Swedish"@.len() != "German"@.len());
            assert("Swedish"@.len() != "Greek"@.len());
            assert("Swedish"@.len() != "Hungarian"@.len());
            assert("Swedish"@[0] != "Italian"@[0]);
            assert("Swedish"@.len() != "Norwegian"@.len());
            assert("Swedish"@.len() != "Portuguese"@.len());
            assert("Swedish"@.len() != "Romanian"@.len());
            assert("Swedish"@[0] != "Russian"@[0]);
            assert("Swedish"@[1] != "Spanish"@[1]);
            assert("Swedish"@.len() != "none"@.len());
            assert("Swedish"@.len() != "None"@.len());
            assert(algorithm_named("Swedish"@) == Some(Algorithm::Swedish));
        },
        StemmingConfig::Language(Algorithm::Tamil) => {
            assert("Tamil"@.len() != "Arabic"@.len());
            assert("Tamil"@.len() != "Danish"@.len());
            assert("Tamil"@[0] != "Dutch"@[0]);
            assert("Tamil"@.len() != "English"@.len());
            assert("Tamil"@.len() != "Finnish"@.len());
            assert("Tamil"@.len() != "French"@.len());
            assert("Tamil"@.len() != "German"@.len());
            assert("Tamil"@[0] != "Greek"@[0]);
            assert("Tamil"@.len() != "Hungarian"@.len());
            assert("Tamil"@.len() != "Italian"@.len());
            assert("Tamil"@.len() != "Norwegian"@.len());
            assert("Tamil"@.len() != "Portuguese"@.len());
            assert("Tamil"@.len() != "Romanian"@.len());
            assert("Tamil"@.len() != "Russian"@.len());
            assert("Tamil"@.len() != "Spanish"@.len());
            assert("Tamil"@.len() != "Swedish"@.len());
            assert("Tamil"@.len() != "none"@.len());
            assert("Tamil"@.len() != "None"@.len());
            assert(algorithm_named("Tamil"@) == Some(Algorithm::Tamil));
        },
        StemmingConfig::Language(Algorithm::Turkish) => {
            assert("Turkish"@.len() != "Arabic"@.len());
            assert("Turkish"@.len() != "Danish"@.len());
            assert("Turkish"@.len() != "Dutch"@.len());
            assert("Turkish"@[0] != "English"@[0]);
            assert("Turkish"@[0] != "Finnish"@[0]);
            assert("Turkish"@.len() != "French"@.len());
            assert("Turkish"@.len() != "German"@.len());
            assert("Turkish"@.len() != "Greek"@.len());
            assert("Turkish"@.len() != "Hungarian"@.len());
            assert("Turkish"@[0] != "Italian"@[0]);
            assert("Turkish"@.len() != "Norwegian"@.len());
            assert("Turkish"@.len() != "Portuguese"@.len());
            assert("Turkish"@.len() != "Romanian"@.len());
            assert("Turkish"@[0] != "Russian"@[0]);
            assert("Turkish"@[0] != "Spanish"@[0]);
            assert("Turkish"@[0] != "Swedish"@[0]);
            assert("Turkish"@.len() != "Tamil"@.len());
            assert("Turkish"@.len() != "none"@.len());
            assert("Turkish"@.len() != "None"@.len());
            assert(algorithm_named("Turkish"@) == Some(Algorithm::Turkish));
        },
    }
}

} // verus!
