//! The translation index: the catalog of known translations and where the
//! document of each can be had.
//!
//! An index comes in one of two forms. The nested form groups translations
//! by language. The flat form is a plain list of entries. Either is turned
//! into the list of translations and the map from a translation's id to its
//! download address.

use crate::abbreviation::{abbreviation_of, extract_abbreviation};
use crate::text::lowercase;
use crate::textmap::TextMap;
use crate::types::{
    copy_opt_text, lemma_translation_views_push, opt_text, translation_views, Translation,
    TranslationView,
};
use vstd::prelude::*;

verus! {

/// What the index says about a translation besides its name.
#[derive(Debug, Clone, PartialEq)]
pub struct IndexMetadata {
    pub info: Option<String>,
}

/// A translation in the nested form of the index.
#[derive(Debug, Clone, PartialEq)]
pub struct IndexTranslation {
    pub id: String,
    pub name: String,
    pub download_url: Option<String>,
    pub metadata: Option<IndexMetadata>,
}

/// A language group of the nested form of the index.
#[derive(Debug, Clone, PartialEq)]
pub struct IndexLanguage {
    pub language: String,
    pub native_name: Option<String>,
    pub iso_code: Option<String>,
    pub translations: Vec<IndexTranslation>,
}

/// The nested form of the index.
#[derive(Debug, Clone, PartialEq)]
pub struct IndexDocument {
    pub languages: Vec<IndexLanguage>,
}

/// An entry of the flat form of the index.
#[derive(Debug, Clone, PartialEq)]
pub struct LegacyEntry {
    pub id: String,
    pub name: String,
    pub abbr: Option<String>,
    pub lang: Option<String>,
    pub lang_name: Option<String>,
    pub description: Option<String>,
    pub download_url: Option<String>,
}

/// What an index comes to: the translations in the order of the index, and
/// for each id the download address of its document, if it has one.
pub struct ResolvedIndex {
    pub translations: Vec<Translation>,
    pub sources: TextMap<Option<String>>,
}

/// The text of an optional string, or `fallback` where there is none.
pub open spec fn text_or(value: Option<String>, fallback: Seq<char>) -> Seq<char> {
    match value {
        Some(v) => v@,
        None => fallback,
    }
}

/// A map of download addresses as texts.
pub open spec fn source_views(sources: Map<Seq<char>, Option<String>>) -> Map<
    Seq<char>,
    Option<Seq<char>>,
> {
    sources.map_values(|address: Option<String>| opt_text(address))
}

/// A new address in a map of download addresses is a new text in its view.
pub proof fn lemma_source_views_insert(
    sources: Map<Seq<char>, Option<String>>,
    id: Seq<char>,
    address: Option<String>,
)
    ensures
        source_views(sources.insert(id, address)) == source_views(sources).insert(
            id,
            opt_text(address),
        ),
{
    assert(source_views(sources.insert(id, address)) =~= source_views(sources).insert(
        id,
        opt_text(address),
    ));
}

// ---------------------------------------------------------------------------
// The nested form
// ---------------------------------------------------------------------------

/// The description of a translation: what its metadata says of it, or its
/// name where they say nothing.
pub open spec fn description_of(entry: IndexTranslation) -> Seq<char> {
    match entry.metadata {
        Some(metadata) => text_or(metadata.info, entry.name@),
        None => entry.name@,
    }
}

/// The translation that an entry of a language group stands for. Its
/// abbreviation is made from its name. Its language is the group's code, or
/// the group's name in lower case where it has no code. Its language name is
/// the group's native name, or the group's name where it has none.
pub open spec fn nested_translation(
    language: IndexLanguage,
    entry: IndexTranslation,
) -> TranslationView {
    TranslationView {
        id: entry.id@,
        name: entry.name@,
        abbreviation: abbreviation_of(entry.name@),
        language: text_or(language.iso_code, lowercase(language.language@)),
        language_name: Some(text_or(language.native_name, language.language@)),
        description: description_of(entry),
        bundled: false,
        priority: 0,
    }
}

/// The translations of the first `count` entries of one language group.
pub open spec fn language_translations(language: IndexLanguage, count: int) -> Seq<
    TranslationView,
> {
    Seq::new(count as nat, |i: int| nested_translation(language, language.translations@[i]))
}

/// The translations of an index: those of each language group, group after
/// group.
pub open spec fn index_translations(languages: Seq<IndexLanguage>) -> Seq<TranslationView>
    decreases languages.len(),
{
    if languages.len() == 0 {
        Seq::empty()
    } else {
        index_translations(languages.drop_last()) + language_translations(
            languages.last(),
            languages.last().translations@.len() as int,
        )
    }
}

/// `sources` with the download addresses of the first `count` entries, each
/// under its id. A later entry replaces an earlier one with the same id.
pub open spec fn with_sources(
    sources: Map<Seq<char>, Option<Seq<char>>>,
    entries: Seq<IndexTranslation>,
    count: int,
) -> Map<Seq<char>, Option<Seq<char>>>
    decreases count,
{
    if count <= 0 {
        sources
    } else {
        with_sources(sources, entries, count - 1).insert(
            entries[count - 1].id@,
            opt_text(entries[count - 1].download_url),
        )
    }
}

/// The download addresses of an index, by translation id.
pub open spec fn index_sources(languages: Seq<IndexLanguage>) -> Map<
    Seq<char>,
    Option<Seq<char>>,
>
    decreases languages.len(),
{
    if languages.len() == 0 {
        Map::empty()
    } else {
        with_sources(
            index_sources(languages.drop_last()),
            languages.last().translations@,
            languages.last().translations@.len() as int,
        )
    }
}

/// The translation that an entry of a language group stands for.
fn translation_of(language: &IndexLanguage, entry: &IndexTranslation) -> (t: Translation)
    ensures
        t@ == nested_translation(*language, *entry),
{
    let code = match &language.iso_code {
        Some(code) => code.clone(),
        None => language.language.as_str().to_lowercase(),
    };
    let language_name = match &language.native_name {
        Some(name) => name.clone(),
        None => language.language.clone(),
    };
    let description = match &entry.metadata {
        Some(metadata) => match &metadata.info {
            Some(info) => info.clone(),
            None => entry.name.clone(),
        },
        None => entry.name.clone(),
    };
    Translation {
        id: entry.id.clone(),
        name: entry.name.clone(),
        abbreviation: extract_abbreviation(entry.name.as_str()),
        language: code,
        language_name: Some(language_name),
        description,
        bundled: false,
        priority: 0,
    }
}

/// The translations and download addresses of an index in nested form.
pub fn translations_from_index(document: &IndexDocument) -> (index: ResolvedIndex)
    ensures
        translation_views(index.translations@) == index_translations(document.languages@),
        source_views(index.sources@) == index_sources(document.languages@),
{
    let mut translations: Vec<Translation> = Vec::new();
    let mut sources: TextMap<Option<String>> = TextMap::new();
    let ghost languages = document.languages@;
    let mut li: usize = 0;
    proof {
        assert(translation_views(translations@) =~= index_translations(languages.take(0)));
        assert(source_views(sources@) =~= index_sources(languages.take(0)));
    }
    while li < document.languages.len()
        invariant
            li <= document.languages.len(),
            languages == document.languages@,
            translation_views(translations@) == index_translations(languages.take(li as int)),
            source_views(sources@) == index_sources(languages.take(li as int)),
        decreases document.languages.len() - li,
    {
        let language = &document.languages[li];
        let ghost done = index_translations(languages.take(li as int));
        let ghost known = index_sources(languages.take(li as int));
        let mut ti: usize = 0;
        proof {
            assert(translation_views(translations@) =~= done + language_translations(
                *language,
                0,
            ));
        }
        while ti < language.translations.len()
            invariant
                ti <= language.translations.len(),
                translation_views(translations@) == done + language_translations(
                    *language,
                    ti as int,
                ),
                source_views(sources@) == with_sources(known, language.translations@, ti as int),
            decreases language.translations.len() - ti,
        {
            let entry = &language.translations[ti];
            let translation = translation_of(language, entry);
            proof {
                lemma_translation_views_push(translations@, translation);
                assert(language_translations(*language, ti + 1) =~= language_translations(
                    *language,
                    ti as int,
                ).push(translation@));
                assert(done + language_translations(*language, ti + 1) =~= (done
                    + language_translations(*language, ti as int)).push(translation@));
            }
            translations.push(translation);
            let address = copy_opt_text(&entry.download_url);
            proof {
                lemma_source_views_insert(sources@, entry.id@, address);
            }
            sources.insert(entry.id.clone(), address);
            ti += 1;
        }
        proof {
            let next = languages.take(li + 1);
            assert(next.drop_last() == languages.take(li as int));
            assert(next.last() == *language);
        }
        li += 1;
    }
    assert(languages.take(li as int) == languages);
    ResolvedIndex { translations, sources }
}

// ---------------------------------------------------------------------------
// The flat form
// ---------------------------------------------------------------------------

/// The translation that an entry of the flat form stands for. Where the
/// entry has no abbreviation, one is made from its name; where it names no
/// language, the language is `unknown`; where it has no description, its
/// name is the description.
pub open spec fn legacy_translation(entry: LegacyEntry) -> TranslationView {
    TranslationView {
        id: entry.id@,
        name: entry.name@,
        abbreviation: text_or(entry.abbr, abbreviation_of(entry.name@)),
        language: text_or(entry.lang, "unknown"@),
        language_name: opt_text(entry.lang_name),
        description: text_or(entry.description, entry.name@),
        bundled: false,
        priority: 0,
    }
}

/// The translations of the first `count` entries of the flat form.
pub open spec fn legacy_translations(entries: Seq<LegacyEntry>, count: int) -> Seq<
    TranslationView,
> {
    Seq::new(count as nat, |i: int| legacy_translation(entries[i]))
}

/// The download addresses of the first `count` entries of the flat form,
/// each under its id. A later entry replaces an earlier one with the same id.
pub open spec fn legacy_sources(entries: Seq<LegacyEntry>, count: int) -> Map<
    Seq<char>,
    Option<Seq<char>>,
>
    decreases count,
{
    if count <= 0 {
        Map::empty()
    } else {
        legacy_sources(entries, count - 1).insert(
            entries[count - 1].id@,
            opt_text(entries[count - 1].download_url),
        )
    }
}

/// The translation that an entry of the flat form stands for.
fn translation_of_entry(entry: &LegacyEntry) -> (t: Translation)
    ensures
        t@ == legacy_translation(*entry),
{
    let abbreviation = match &entry.abbr {
        Some(abbr) => abbr.clone(),
        None => extract_abbreviation(entry.name.as_str()),
    };
    let language = match &entry.lang {
        Some(lang) => lang.clone(),
        None => "unknown".to_owned(),
    };
    let description = match &entry.description {
        Some(description) => description.clone(),
        None => entry.name.clone(),
    };
    Translation {
        id: entry.id.clone(),
        name: entry.name.clone(),
        abbreviation,
        language,
        language_name: copy_opt_text(&entry.lang_name),
        description,
        bundled: false,
        priority: 0,
    }
}

/// The translations and download addresses of an index in flat form.
pub fn translations_from_entries(entries: &Vec<LegacyEntry>) -> (index: ResolvedIndex)
    ensures
        translation_views(index.translations@) == legacy_translations(
            entries@,
            entries@.len() as int,
        ),
        source_views(index.sources@) == legacy_sources(entries@, entries@.len() as int),
{
    let mut translations: Vec<Translation> = Vec::new();
    let mut sources: TextMap<Option<String>> = TextMap::new();
    let mut i: usize = 0;
    proof {
        assert(translation_views(translations@) =~= legacy_translations(entries@, 0));
        assert(source_views(sources@) =~= legacy_sources(entries@, 0));
    }
    while i < entries.len()
        invariant
            i <= entries.len(),
            translation_views(translations@) == legacy_translations(entries@, i as int),
            source_views(sources@) == legacy_sources(entries@, i as int),
        decreases entries.len() - i,
    {
        let entry = &entries[i];
        let translation = translation_of_entry(entry);
        proof {
            lemma_translation_views_push(translations@, translation);
            assert(legacy_translations(entries@, i + 1) =~= legacy_translations(
                entries@,
                i as int,
            ).push(translation@));
        }
        translations.push(translation);
        let address = copy_opt_text(&entry.download_url);
        proof {
            lemma_source_views_insert(sources@, entry.id@, address);
        }
        sources.insert(entry.id.clone(), address);
        i += 1;
    }
    ResolvedIndex { translations, sources }
}

/// The index that the bundled list of translations comes to: the list as it
/// is, and no download address.
pub fn bundled_index(translations: Vec<Translation>) -> (index: ResolvedIndex)
    ensures
        index.translations@ == translations@,
        index.sources@ == Map::<Seq<char>, Option<String>>::empty(),
{
    ResolvedIndex { translations, sources: TextMap::new() }
}

} // verus!
