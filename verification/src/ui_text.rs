//! Lookup of the texts that a user interface shows, by key and language.
use vstd::prelude::*;

verus! {

/// The languages of the user interface.
#[derive(Debug, Clone, Copy, PartialEq, Eq, Structural)]
pub enum Language {
    English,
    Russian,
}

/// Something that names a text: its key is looked up in the table of the
/// current language.
pub trait Translatable {
    /// The key, as a sequence of characters.
    spec fn key(&self) -> Seq<char>;

    fn translate_key(&self) -> (key: &str)
        ensures
            key@ == self.key(),
    ;
}

impl Translatable for str {
    open spec fn key(&self) -> Seq<char> {
        self@
    }

    fn translate_key(&self) -> (key: &str) {
        self
    }
}

impl Translatable for String {
    open spec fn key(&self) -> Seq<char> {
        self@
    }

    fn translate_key(&self) -> (key: &str) {
        self.as_str()
    }
}

/// The texts of one language: the key of the language, and under each key
/// of a text the text itself.
pub type TextTable = (String, Vec<(String, String)>);

/// The texts of one language as a mathematical value.
pub type TextTableView = (Seq<char>, Seq<(Seq<char>, Seq<char>)>);

/// The entries of a table as mathematical values.
pub open spec fn entry_views(entries: Seq<(String, String)>) -> Seq<(Seq<char>, Seq<char>)> {
    Seq::new(entries.len(), |i: int| (entries[i].0@, entries[i].1@))
}

/// The tables as mathematical values.
pub open spec fn table_views(tables: Seq<TextTable>) -> Seq<TextTableView> {
    Seq::new(tables.len(), |i: int| (tables[i].0@, entry_views(tables[i].1@)))
}

/// The tables that a text in JSON holds: what `serde_json::from_str` reads
/// from it as a map from language keys to maps from keys to texts, each map
/// in the order of its keys. There is none where the text is not such JSON.
pub uninterp spec fn parsed_tables(json: Seq<char>) -> Option<Seq<TextTableView>>;

/// `serde_json::from_str`, reading an object whose members are objects whose
/// members are strings. The maps are ordered maps, so the tables come out in
/// the order of their keys and the result depends on the text alone. Nothing
/// is claimed about which texts are accepted or what they hold.
#[verifier::external_body]
fn parse_tables(json: &str) -> (tables: Option<Vec<TextTable>>)
    ensures
        tables is Some <==> parsed_tables(json@) is Some,
        tables matches Some(list) ==> Some(table_views(list@)) == parsed_tables(json@),
{
    let parsed: std::collections::BTreeMap<String, std::collections::BTreeMap<String, String>> =
        serde_json::from_str(json).ok()?;
    Some(parsed.into_iter().map(|(language, texts)| (language, texts.into_iter().collect())).collect())
}

/// The text that the first entry under `key` holds.
pub open spec fn text_in(entries: Seq<(Seq<char>, Seq<char>)>, key: Seq<char>) -> Option<
    Seq<char>,
>
    decreases entries.len(),
{
    if entries.len() == 0 {
        None
    } else if entries[0].0 == key {
        Some(entries[0].1)
    } else {
        text_in(entries.skip(1), key)
    }
}

/// The entries of the first table of the given language.
pub open spec fn table_of(tables: Seq<TextTableView>, language: Seq<char>) -> Option<
    Seq<(Seq<char>, Seq<char>)>,
>
    decreases tables.len(),
{
    if tables.len() == 0 {
        None
    } else if tables[0].0 == language {
        Some(tables[0].1)
    } else {
        table_of(tables.skip(1), language)
    }
}

/// The key under which the texts of a language are stored.
pub open spec fn language_key(language: Language) -> Seq<char> {
    match language {
        Language::English => "en"@,
        Language::Russian => "ru"@,
    }
}

/// The text for `key` in the given language.
pub open spec fn text_for(tables: Seq<TextTableView>, language: Language, key: Seq<char>)
    -> Option<Seq<char>> {
    match table_of(tables, language_key(language)) {
        Some(entries) => text_in(entries, key),
        None => None,
    }
}

/// The texts of the user interface, in the language that was chosen: for
/// each language a table from keys to texts, each kept as a list in which
/// the first entry of a key counts.
#[derive(Debug)]
pub struct UiText {
    language: Language,
    data: Vec<TextTable>,
}

impl UiText {
    pub closed spec fn view_language(&self) -> Language {
        self.language
    }

    pub closed spec fn view_tables(&self) -> Seq<TextTableView> {
        table_views(self.data@)
    }

    /// The texts of the given tables.
    pub fn from_tables(language: Language, tables: Vec<TextTable>) -> (text: UiText)
        ensures
            text.view_language() == language,
            text.view_tables() == table_views(tables@),
    {
        UiText { language, data: tables }
    }

    /// The texts that `json` holds, or nothing where it holds none.
    pub fn new(language: Language, json: &str) -> (text: Option<UiText>)
        ensures
            text is Some <==> parsed_tables(json@) is Some,
            text matches Some(t) ==> t.view_language() == language && Some(t.view_tables())
                == parsed_tables(json@),
    {
        match parse_tables(json) {
            Some(tables) => Some(UiText::from_tables(language, tables)),
            None => None,
        }
    }

    /// The text for what `translatable` names, in the chosen language, if
    /// there is one.
    pub fn find<T: Translatable + ?Sized>(&self, translatable: &T) -> (text: Option<&str>)
        ensures
            text is Some <==> text_for(self.view_tables(), self.view_language(), translatable.key())
                is Some,
            text matches Some(t) ==> Some(t@) == text_for(
                self.view_tables(),
                self.view_language(),
                translatable.key(),
            ),
    {
        let key = translatable.translate_key();
        let language = match self.language {
            Language::English => "en",
            Language::Russian => "ru",
        };
        let ghost tables = table_views(self.data@);
        let mut t: usize = 0;
        assert(tables.skip(0) =~= tables);
        while t < self.data.len()
            invariant
                t <= self.data@.len(),
                tables == table_views(self.data@),
                key@ == translatable.key(),
                language@ == language_key(self.language),
                table_of(tables, language@) == table_of(tables.skip(t as int), language@),
            decreases self.data.len() - t,
        {
            let table = &self.data[t];
            proof {
                assert(tables.skip(t as int)[0] == (table.0@, entry_views(table.1@)));
                assert(tables.skip(t as int).skip(1) =~= tables.skip(t + 1));
            }
            if crate::text::same_text(table.0.as_str(), language) {
                let ghost entries = entry_views(table.1@);
                let mut e: usize = 0;
                assert(entries.skip(0) =~= entries);
                assert(table_of(tables, language@) == Some(entries));
                while e < table.1.len()
                    invariant
                        e <= table.1@.len(),
                        entries == entry_views(table.1@),
                        key@ == translatable.key(),
                        tables == self.view_tables(),
                        language@ == language_key(self.view_language()),
                        table_of(tables, language@) == Some(entries),
                        text_in(entries, key@) == text_in(entries.skip(e as int), key@),
                    decreases table.1.len() - e,
                {
                    proof {
                        assert(entries.skip(e as int)[0] == (
                            table.1@[e as int].0@,
                            table.1@[e as int].1@,
                        ));
                        assert(entries.skip(e as int).skip(1) =~= entries.skip(e + 1));
                    }
                    if crate::text::same_text(table.1[e].0.as_str(), key) {
                        return Some(table.1[e].1.as_str());
                    }
                    e += 1;
                }
                return None;
            }
            t += 1;
        }
        None
    }

    /// The text for what `translatable` names, in the chosen language. There
    /// must be one.
    pub fn get<T: Translatable + ?Sized>(&self, translatable: &T) -> (text: &str)
        requires
            text_for(self.view_tables(), self.view_language(), translatable.key()) is Some,
        ensures
            Some(text@) == text_for(self.view_tables(), self.view_language(), translatable.key()),
    {
        self.find(translatable).unwrap()
    }

    pub fn language(&self) -> (language: Language)
        ensures
            language == self.view_language(),
    {
        self.language
    }
}

} // verus!
