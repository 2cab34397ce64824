//! Steam's display language: the languages it offers, which one the
//! registry value names, and the errors of reading and writing it.
use vstd::prelude::*;
use crate::io_error_text;
use crate::text::same_text;

verus! {

/// Why the registry value could not be read or written.
#[derive(Debug)]
pub enum LanguageError {
    /// Reading the registry failed, with the reason.
    RegistryRead(String),
    /// Writing the registry failed, with the reason.
    RegistryWrite(String),
}

impl LanguageError {
    /// The text of the error, as it is shown to the user.
    pub fn message(&self) -> (r: String)
        ensures
            match self {
                LanguageError::RegistryRead(msg) => r@ == "读取注册表失败: "@ + msg@,
                LanguageError::RegistryWrite(msg) => r@ == "写入注册表失败: "@ + msg@,
            },
    {
        match self {
            LanguageError::RegistryRead(msg) => {
                let mut r = "读取注册表失败: ".to_owned();
                r.append(msg.as_str());
                r
            },
            LanguageError::RegistryWrite(msg) => {
                let mut r = "写入注册表失败: ".to_owned();
                r.append(msg.as_str());
                r
            },
        }
    }
}

impl vstd::std_specs::convert::FromSpecImpl<std::io::Error> for LanguageError {
    open spec fn obeys_from_spec() -> bool {
        false
    }

    open spec fn from_spec(e: std::io::Error) -> Self {
        LanguageError::RegistryRead(arbitrary())
    }
}

impl From<std::io::Error> for LanguageError {
    /// A failed read, with the error's own text.
    fn from(err: std::io::Error) -> (r: Self)
        ensures
            r is RegistryRead,
    {
        LanguageError::RegistryRead(io_error_text(&err))
    }
}

/// Steam's languages: the name shown to the user and the value stored in
/// the registry.
pub const LANGUAGES: [(&'static str, &'static str); 13] = [
    ("English", "english"),
    ("简体中文", "schinese"),
    ("繁體中文", "tchinese"),
    ("日本語", "japanese"),
    ("한국어", "koreana"),
    ("Русский", "russian"),
    ("Deutsch", "german"),
    ("Français", "french"),
    ("Español", "spanish"),
    ("Italiano", "italian"),
    ("Português", "portuges"),
    ("ภาษาไทย", "thai"),
    ("Polski", "polish"),
];

/// The registry value of the language at `i`.
pub open spec fn language_value_at(i: int) -> Seq<char> {
    LANGUAGES@[i].1@
}

/// The first index at or after `k` whose registry value is `value`.
pub open spec fn position_from(value: Seq<char>, k: int) -> Option<int>
    decreases LANGUAGES@.len() - k,
{
    if k < 0 || k >= LANGUAGES@.len() {
        None
    } else if language_value_at(k) == value {
        Some(k)
    } else {
        position_from(value, k + 1)
    }
}

/// The index of the language whose registry value is `value`, if any.
pub open spec fn language_position(value: Seq<char>) -> Option<int> {
    position_from(value, 0)
}

/// The registry value Steam falls back to: English.
pub open spec fn default_language() -> Seq<char> {
    "english"@
}

/// No two languages share a registry value.
pub proof fn lemma_language_values_distinct()
    ensures
        forall|i: int, j: int|
            0 <= i < j < LANGUAGES@.len() ==> language_value_at(i) != language_value_at(j),
{
    reveal_strlit("english");
    reveal_strlit("schinese");
    reveal_strlit("tchinese");
    reveal_strlit("japanese");
    reveal_strlit("koreana");
    reveal_strlit("russian");
    reveal_strlit("german");
    reveal_strlit("french");
    reveal_strlit("spanish");
    reveal_strlit("italian");
    reveal_strlit("portuges");
    reveal_strlit("thai");
    reveal_strlit("polish");
    assert forall|i: int, j: int|
        0 <= i < j < LANGUAGES@.len() implies language_value_at(i) != language_value_at(j) by {
        let a = language_value_at(i);
        let b = language_value_at(j);
        assert(i == 0 || i == 1 || i == 2 || i == 3 || i == 4 || i == 5 || i == 6 || i == 7 || i
            == 8 || i == 9 || i == 10 || i == 11);
        assert(j == 1 || j == 2 || j == 3 || j == 4 || j == 5 || j == 6 || j == 7 || j == 8 || j
            == 9 || j == 10 || j == 11 || j == 12);
        assert(a.len() != b.len() || a[0] != b[0]);
    }
}


/// The index of the language whose registry value is `value`, or 0
/// (English) where no language has it.
pub fn language_index(value: &str) -> (r: usize)
    ensures
        r == match language_position(value@) {
            Some(i) => i,
            None => 0,
        },
        r < LANGUAGES@.len(),
{
    let mut k: usize = 0;
    while k < LANGUAGES.len()
        invariant
            k <= LANGUAGES@.len(),
            language_position(value@) == position_from(value@, k as int),
        decreases LANGUAGES@.len() - k,
    {
        if same_text(LANGUAGES[k].1, value) {
            return k;
        }
        k = k + 1;
    }
    0
}

/// The registry value of the language at `index`.
pub fn language_value(index: usize) -> (r: &'static str)
    requires
        index < LANGUAGES@.len(),
    ensures
        r@ == language_value_at(index as int),
{
    LANGUAGES[index].1
}

/// The language the registry names, or English where it names none (the
/// value is missing or could not be read).
pub fn language_or_default(stored: Option<String>) -> (r: String)
    ensures
        r@ == match stored {
            Some(v) => v@,
            None => default_language(),
        },
{
    match stored {
        Some(v) => v,
        None => "english".to_owned(),
    }
}

/// The registry value of each language leads back to that language.
pub proof fn lemma_language_position_of_value(i: int)
    requires
        0 <= i < LANGUAGES@.len(),
    ensures
        language_position(language_value_at(i)) == Some(i),
{
    lemma_language_values_distinct();
    lemma_position_from_first(language_value_at(i), 0, i);
}

/// Where the value at `i` occurs nowhere in `[k, i)`, the search from `k`
/// finds `i`.
proof fn lemma_position_from_first(value: Seq<char>, k: int, i: int)
    requires
        0 <= k <= i < LANGUAGES@.len(),
        language_value_at(i) == value,
        forall|j: int| k <= j < i ==> language_value_at(j) != value,
    ensures
        position_from(value, k) == Some(i),
    decreases i - k,
{
    if k < i {
        lemma_position_from_first(value, k + 1, i);
    }
}

/// The search from `k` finds a language only where its value is `value`,
/// and finds none only where no language from `k` on has it.
proof fn lemma_position_from_exact(value: Seq<char>, k: int)
    requires
        0 <= k,
    ensures
        position_from(value, k) matches Some(i) ==> k <= i < LANGUAGES@.len() && language_value_at(i)
            == value,
        position_from(value, k) is None ==> forall|i: int|
            k <= i < LANGUAGES@.len() ==> #[trigger] language_value_at(i) != value,
    decreases LANGUAGES@.len() - k,
{
    if k < LANGUAGES@.len() && language_value_at(k) != value {
        lemma_position_from_exact(value, k + 1);
    }
}

/// A registry value leads to a language only where that language's value
/// is exactly it, and to none only where no language has it; with
/// `lemma_language_position_of_value`, each value leads to its own index.
pub proof fn lemma_language_position_exact(value: Seq<char>)
    ensures
        language_position(value) matches Some(i) ==> 0 <= i < LANGUAGES@.len() && language_value_at(
            i,
        ) == value,
        language_position(value) is None ==> forall|i: int|
            0 <= i < LANGUAGES@.len() ==> #[trigger] language_value_at(i) != value,
{
    lemma_position_from_exact(value, 0);
}

/// English is the language at index 0.
pub proof fn lemma_default_language_first()
    ensures
        language_value_at(0) == default_language(),
        language_position(default_language()) == Some(0int),
{
}

} // verus!
