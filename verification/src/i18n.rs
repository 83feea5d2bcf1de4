//! Interface languages and the texts of one language.

use crate::text::{decimal, decimal_text, replace_all, replaced, same_text};
use vstd::hash_map::StringHashMap;
use vstd::prelude::*;
use vstd::string::StringExecFns;

verus! {

/// The languages the interface is offered in.
#[derive(Debug, Clone, Copy, PartialEq, Eq, Structural)]
pub enum Language {
    English,
    Russian,
    German,
    Chinese,
    Spanish,
    French,
}

impl Language {
    /// The two-letter code of the language.
    pub open spec fn code_text(self) -> Seq<char> {
        match self {
            Language::English => "en"@,
            Language::Russian => "ru"@,
            Language::German => "de"@,
            Language::Chinese => "zh"@,
            Language::Spanish => "es"@,
            Language::French => "fr"@,
        }
    }

    /// The name of the language in the language itself.
    pub open spec fn name_text(self) -> Seq<char> {
        match self {
            Language::English => "English"@,
            Language::Russian => "Русский"@,
            Language::German => "Deutsch"@,
            Language::Chinese => "中文"@,
            Language::Spanish => "Español"@,
            Language::French => "Français"@,
        }
    }

    /// The language that a language code or locale tag selects. What is not
    /// known selects English.
    pub open spec fn of_code(code: Seq<char>) -> Language {
        if code == "ru"@ || code == "ru-RU"@ {
            Language::Russian
        } else if code == "de"@ || code == "de-DE"@ {
            Language::German
        } else if code == "zh"@ || code == "zh-CN"@ || code == "zh-TW"@ {
            Language::Chinese
        } else if code == "es"@ || code == "es-ES"@ || code == "es-MX"@ {
            Language::Spanish
        } else if code == "fr"@ || code == "fr-FR"@ {
            Language::French
        } else {
            Language::English
        }
    }

    pub fn code(&self) -> (code: &'static str)
        ensures
            code@ == self.code_text(),
    {
        match self {
            Language::English => "en",
            Language::Russian => "ru",
            Language::German => "de",
            Language::Chinese => "zh",
            Language::Spanish => "es",
            Language::French => "fr",
        }
    }

    pub fn name(&self) -> (name: &'static str)
        ensures
            name@ == self.name_text(),
    {
        match self {
            Language::English => "English",
            Language::Russian => "Русский",
            Language::German => "Deutsch",
            Language::Chinese => "中文",
            Language::Spanish => "Español",
            Language::French => "Français",
        }
    }

    pub fn from_code(code: &str) -> (lang: Language)
        ensures
            lang == Language::of_code(code@),
    {
        if same_text(code, "ru") || same_text(code, "ru-RU") {
            Language::Russian
        } else if same_text(code, "de") || same_text(code, "de-DE") {
            Language::German
        } else if same_text(code, "zh") || same_text(code, "zh-CN") || same_text(code, "zh-TW") {
            Language::Chinese
        } else if same_text(code, "es") || same_text(code, "es-ES") || same_text(code, "es-MX") {
            Language::Spanish
        } else if same_text(code, "fr") || same_text(code, "fr-FR") {
            Language::French
        } else {
            Language::English
        }
    }

    /// Every language, in the order in which a menu lists them.
    pub fn all() -> (all: Vec<Language>)
        ensures
            all@ == seq![
                Language::English,
                Language::Russian,
                Language::German,
                Language::Chinese,
                Language::Spanish,
                Language::French,
            ],
    {
        vec![
            Language::English,
            Language::Russian,
            Language::German,
            Language::Chinese,
            Language::Spanish,
            Language::French,
        ]
    }
}

/// The code of a language selects that language again.
pub proof fn lemma_code_selects_language(lang: Language)
    ensures
        Language::of_code(lang.code_text()) == lang,
{
    reveal_strlit("en");
    reveal_strlit("ru");
    reveal_strlit("de");
    reveal_strlit("zh");
    reveal_strlit("es");
    reveal_strlit("fr");
    reveal_strlit("ru-RU");
    reveal_strlit("de-DE");
    reveal_strlit("zh-CN");
    reveal_strlit("zh-TW");
    reveal_strlit("es-ES");
    reveal_strlit("es-MX");
    reveal_strlit("fr-FR");
    let code = lang.code_text();
    assert(code.len() == 2);
    match lang {
        Language::English => {
            assert(code[0] == 'e' && code[1] == 'n');
        },
        Language::Russian => {},
        Language::German => {
            assert(code[0] == 'd');
        },
        Language::Chinese => {
            assert(code[0] == 'z');
        },
        Language::Spanish => {
            assert(code[0] == 'e' && code[1] == 's');
        },
        Language::French => {
            assert(code[0] == 'f');
        },
    }
}

/// The error of the JSON reader. Nothing is known of what is inside.
#[verifier::external_type_specification]
#[verifier::external_body]
pub struct ExJsonError(serde_json::Error);

/// What the JSON reader makes of a text that is asked to be one object with
/// texts for values: the object's keys with their values, or nothing if the
/// text is not such an object.
pub uninterp spec fn json_texts(content: Seq<char>) -> Option<Map<Seq<char>, Seq<char>>>;

/// The table that a list of keys with their texts stands for. Where a key
/// comes twice, the later text counts.
pub open spec fn pairs_map(pairs: Seq<(String, String)>) -> Map<Seq<char>, Seq<char>>
    decreases pairs.len(),
{
    if pairs.len() == 0 {
        Map::empty()
    } else {
        pairs_map(pairs.drop_last()).insert(pairs.last().0@, pairs.last().1@)
    }
}

/// Calls `serde_json::from_str` for a `HashMap<String, String>` and hands
/// the entries out as a list. Trusted: the entries of a successful reading
/// make up exactly the table named `json_texts`, and a failed reading means
/// there is no such table. The order of the list is left open.
#[verifier::external_body]
fn read_texts(content: &str) -> (read: Result<Vec<(String, String)>, serde_json::Error>)
    ensures
        match read {
            Ok(pairs) => json_texts(content@) == Some(pairs_map(pairs@)),
            Err(_) => json_texts(content@) is None,
        },
{
    match serde_json::from_str::<std::collections::HashMap<String, String>>(content) {
        Ok(table) => Ok(table.into_iter().collect()),
        Err(error) => Err(error),
    }
}

/// Calls `sys_locale::get_locale`. Nothing is claimed of what it returns:
/// that depends on the machine and on the environment.
#[verifier::external_body]
fn system_locale() -> Option<String> {
    sys_locale::get_locale()
}

/// The text that fills a template: for each argument in turn, its numbered
/// mark (`%1` for the first) and then every `%d` are replaced by it.
pub open spec fn filled(template: Seq<char>, args: Seq<&str>, from: int) -> Seq<char>
    decreases args.len() - from,
{
    if from < 0 || from >= args.len() {
        template
    } else {
        let mark = seq!['%'] + decimal((from + 1) as nat);
        let numbered = replaced(template, mark, args[from]@);
        filled(replaced(numbered, seq!['%', 'd'], args[from]@), args, from + 1)
    }
}

/// The texts of the interface in one language, by key.
pub struct Translations {
    translations: StringHashMap<String>,
}

impl Translations {
    /// The table of texts.
    pub closed spec fn texts(&self) -> Map<Seq<char>, Seq<char>> {
        Map::new(
            |key: Seq<char>| self.translations@.contains_key(key),
            |key: Seq<char>| self.translations@[key]@,
        )
    }

    /// The text shown for `key`: its entry, or the key in square brackets
    /// where the table has no entry.
    pub open spec fn text_of(&self, key: Seq<char>) -> Seq<char> {
        if self.texts().contains_key(key) {
            self.texts()[key]
        } else {
            seq!['['] + key + seq![']']
        }
    }

    /// The table that serves when a language cannot be read: the title of
    /// the application in English.
    pub open spec fn fallback_texts() -> Map<Seq<char>, Seq<char>> {
        Map::empty().insert("app_title"@, "Cedar Folder Size Analyzer"@)
    }

    /// The table with the given entries.
    pub fn from_pairs(pairs: Vec<(String, String)>) -> (table: Translations)
        ensures
            table.texts() == pairs_map(pairs@),
    {
        let mut translations: StringHashMap<String> = StringHashMap::new();
        let ghost all = pairs@;
        proof {
            assert(Map::new(
                |key: Seq<char>| translations@.contains_key(key),
                |key: Seq<char>| translations@[key]@,
            ) =~= pairs_map(all.subrange(0, 0)));
        }
        for pair in it: pairs
            invariant
                it.seq() == all,
                Map::new(
                    |key: Seq<char>| translations@.contains_key(key),
                    |key: Seq<char>| translations@[key]@,
                ) == pairs_map(all.subrange(0, it.index() as int)),
        {
            let ghost seen = all.subrange(0, it.index() as int);
            let ghost longer = all.subrange(0, it.index() + 1);
            let (key, text) = pair;
            translations.insert(key, text);
            proof {
                assert(longer.drop_last() =~= seen);
                assert(longer.last() == pair);
                assert(Map::new(
                    |key: Seq<char>| translations@.contains_key(key),
                    |key: Seq<char>| translations@[key]@,
                ) =~= pairs_map(seen).insert(key@, text@));
            }
        }
        proof {
            assert(all.subrange(0, all.len() as int) =~= all);
        }
        Translations { translations }
    }

    /// The table that serves when a language cannot be read.
    pub fn fallback() -> (table: Translations)
        ensures
            table.texts() == Translations::fallback_texts(),
    {
        let mut translations: StringHashMap<String> = StringHashMap::new();
        translations.insert("app_title".to_owned(), "Cedar Folder Size Analyzer".to_owned());
        proof {
            assert(Map::new(
                |key: Seq<char>| translations@.contains_key(key),
                |key: Seq<char>| translations@[key]@,
            ) =~= Translations::fallback_texts());
        }
        Translations { translations }
    }

    /// The table for what the JSON reader made of a language file: its
    /// entries, or the fallback where there are none.
    pub fn from_reading(read: Option<Vec<(String, String)>>) -> (table: Translations)
        ensures
            table.texts() == match read {
                Some(pairs) => pairs_map(pairs@),
                None => Translations::fallback_texts(),
            },
    {
        match read {
            Some(pairs) => Translations::from_pairs(pairs),
            None => Translations::fallback(),
        }
    }

    /// Reads the texts of a language from the JSON text of its file. A file
    /// that cannot be read as an object of texts gives the fallback table.
    pub fn load(content: &str) -> (table: Translations)
        ensures
            table.texts() == match json_texts(content@) {
                Some(texts) => texts,
                None => Translations::fallback_texts(),
            },
    {
        let read = match read_texts(content) {
            Ok(pairs) => Some(pairs),
            Err(_) => None,
        };
        Translations::from_reading(read)
    }

    pub fn get(&self, key: &str) -> (text: String)
        ensures
            text@ == self.text_of(key@),
    {
        match self.translations.get(key) {
            Some(found) => found.clone(),
            None => {
                let mut text = String::new();
                text.push('[');
                text.append(key);
                text.push(']');
                proof {
                    assert(text@ =~= seq!['['] + key@ + seq![']']);
                }
                text
            },
        }
    }

    pub fn get_fmt(&self, key: &str, args: &[&str]) -> (text: String)
        ensures
            text@ == filled(self.text_of(key@), args@, 0),
    {
        let mut result = self.get(key);
        let mut i: usize = 0;
        while i < args.len()
            invariant
                i <= args@.len(),
                filled(result@, args@, i as int) == filled(self.text_of(key@), args@, 0),
            decreases args@.len() - i,
        {
            let mut mark = String::new();
            mark.push('%');
            mark.append(decimal_text((i + 1) as u64).as_str());
            proof {
                assert(mark@ =~= seq!['%'] + decimal((i + 1) as nat));
            }
            let numbered = replace_all(result.as_str(), mark.as_str(), args[i]);
            let mut any = String::new();
            any.push('%');
            any.push('d');
            proof {
                assert(any@ =~= seq!['%', 'd']);
            }
            result = replace_all(numbered.as_str(), any.as_str(), args[i]);
            i += 1;
        }
        result
    }
}

/// The language for what the system says of its locale: the one that the
/// locale tag selects, or English where the system says nothing.
pub fn language_for(locale: Option<String>) -> (lang: Language)
    ensures
        lang == match locale {
            Some(tag) => Language::of_code(tag@),
            None => Language::English,
        },
{
    match locale {
        Some(tag) => Language::from_code(tag.as_str()),
        None => Language::English,
    }
}

/// The interface language that fits the system's locale. Which one that is
/// depends on the machine: see `language_for`.
pub fn detect_system_language() -> Language {
    language_for(system_locale())
}

/// Whether the interface starts with the dark theme. It always does.
pub fn detect_system_theme() -> (dark: bool)
    ensures
        dark,
{
    true
}

} // verus!
