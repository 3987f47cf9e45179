//! The order in which the index is looked for, and in which the shapes of a
//! hosted index are tried.
//!
//! Each function takes what the last attempt gave and says what comes next:
//! another attempt, the resolved index, or failure. The caller makes the
//! attempts.

use crate::index::{
    index_sources, index_translations, legacy_sources, legacy_translations, source_views,
    translations_from_entries, translations_from_index, IndexDocument, LegacyEntry,
    ResolvedIndex,
};
use crate::entries::{sort_entries, sorted_by_id};
use crate::types::translation_views;
use vstd::prelude::*;

verus! {

/// A place where the index is looked for.
#[derive(Debug, Clone, Copy, PartialEq, Eq, Structural)]
pub enum IndexSource {
    /// The index file beside the program.
    Local,
    /// The hosted index.
    Remote,
    /// The list bundled with the program.
    Bundled,
}

/// A flat shape in which a hosted index may come.
#[derive(Debug, Clone, Copy, PartialEq, Eq, Structural)]
pub enum LegacyShape {
    /// A list of entries.
    List,
    /// An object whose `translations` field is a list of entries.
    Wrapped,
    /// A map from ids to entries.
    Keyed,
    /// One entry to a line.
    Lines,
}

/// What comes after an attempt to find the index.
pub enum Resolution {
    /// The index is to be looked for in this place.
    Try(IndexSource),
    /// The index was found.
    Resolved(ResolvedIndex),
    /// No place is left.
    Unavailable,
}

/// What comes after an attempt to decode a hosted index.
pub enum DecodeStep {
    /// This shape is to be tried.
    Try(LegacyShape),
    /// The index was decoded.
    Resolved(ResolvedIndex),
    /// No shape is left.
    Failed,
}

/// The place where the search for the index begins.
pub fn first_source() -> (source: IndexSource)
    ensures
        source == IndexSource::Local,
{
    IndexSource::Local
}

/// The place that is tried after `source` has yielded nothing.
pub open spec fn source_after(source: IndexSource) -> Option<IndexSource> {
    match source {
        IndexSource::Local => Some(IndexSource::Remote),
        IndexSource::Remote => Some(IndexSource::Bundled),
        IndexSource::Bundled => None,
    }
}

/// What comes after the attempt at `source`. `outcome` is the index that the
/// attempt yielded, `None` where it failed. An index ends the search; a
/// failure leads to the next place, and after the last place to failure.
pub fn resolution_step(source: IndexSource, outcome: Option<ResolvedIndex>) -> (next: Resolution)
    ensures
        match outcome {
            Some(index) => next matches Resolution::Resolved(found) && found == index,
            None => match source_after(source) {
                Some(place) => next matches Resolution::Try(tried) && tried == place,
                None => next is Unavailable,
            },
        },
{
    match outcome {
        Some(index) => Resolution::Resolved(index),
        None => match source {
            IndexSource::Local => Resolution::Try(IndexSource::Remote),
            IndexSource::Remote => Resolution::Try(IndexSource::Bundled),
            IndexSource::Bundled => Resolution::Unavailable,
        },
    }
}

/// What comes after the attempt to decode a hosted index in the nested form.
/// `decoded` is the index in that form, `None` where the bytes are no such
/// index; then the flat shapes are tried, the list first.
pub fn nested_step(decoded: Option<IndexDocument>) -> (next: DecodeStep)
    ensures
        match decoded {
            Some(document) => {
                &&& next matches DecodeStep::Resolved(index)
                &&& translation_views(index.translations@) == index_translations(
                    document.languages@,
                )
                &&& source_views(index.sources@) == index_sources(document.languages@)
            },
            None => next matches DecodeStep::Try(shape) && shape == LegacyShape::List,
        },
{
    match decoded {
        Some(document) => DecodeStep::Resolved(translations_from_index(&document)),
        None => DecodeStep::Try(LegacyShape::List),
    }
}

/// The shape that is tried after `shape` has not fitted.
pub open spec fn shape_after(shape: LegacyShape) -> Option<LegacyShape> {
    match shape {
        LegacyShape::List => Some(LegacyShape::Wrapped),
        LegacyShape::Wrapped => Some(LegacyShape::Keyed),
        LegacyShape::Keyed => Some(LegacyShape::Lines),
        LegacyShape::Lines => None,
    }
}

/// The entries that a fitting shape yields, in the order in which they
/// count. A list, bare or wrapped, is taken as it is. The entries of a map
/// and those written one to a line are put in the order of their ids. Lines
/// without a single entry do not fit.
pub open spec fn accepted_entries(shape: LegacyShape, decoded: Seq<LegacyEntry>) -> Option<
    Seq<LegacyEntry>,
> {
    match shape {
        LegacyShape::List | LegacyShape::Wrapped => Some(decoded),
        LegacyShape::Keyed => Some(sorted_by_id(decoded)),
        LegacyShape::Lines => if decoded.len() > 0 {
            Some(sorted_by_id(decoded))
        } else {
            None
        },
    }
}

/// What a flat shape comes to: the entries that count, if the shape fits.
pub open spec fn shape_entries(shape: LegacyShape, decoded: Option<Vec<LegacyEntry>>) -> Option<
    Seq<LegacyEntry>,
> {
    match decoded {
        Some(entries) => accepted_entries(shape, entries@),
        None => None,
    }
}

/// What comes after the attempt to decode a hosted index in a flat shape.
/// `decoded` holds the entries that the attempt yielded, `None` where the
/// bytes do not have the shape; for lines, the entries of the lines that
/// could be decoded. A shape that fits ends the search with the index of its
/// entries; one that does not leads to the next shape, and after the last
/// shape to failure.
pub fn legacy_step(shape: LegacyShape, decoded: Option<Vec<LegacyEntry>>) -> (next: DecodeStep)
    ensures
        match shape_entries(shape, decoded) {
            Some(entries) => {
                &&& next matches DecodeStep::Resolved(index)
                &&& translation_views(index.translations@) == legacy_translations(
                    entries,
                    entries.len() as int,
                )
                &&& source_views(index.sources@) == legacy_sources(entries, entries.len() as int)
            },
            None => match shape_after(shape) {
                Some(shape) => next matches DecodeStep::Try(tried) && tried == shape,
                None => next is Failed,
            },
        },
{
    let accepted: Option<Vec<LegacyEntry>> = match decoded {
        Some(entries) => match shape {
            LegacyShape::List => Some(entries),
            LegacyShape::Wrapped => Some(entries),
            LegacyShape::Keyed => Some(sort_entries(entries)),
            LegacyShape::Lines => if entries.len() > 0 {
                Some(sort_entries(entries))
            } else {
                None
            },
        },
        None => None,
    };
    match accepted {
        Some(entries) => DecodeStep::Resolved(translations_from_entries(&entries)),
        None => match shape {
            LegacyShape::List => DecodeStep::Try(LegacyShape::Wrapped),
            LegacyShape::Wrapped => DecodeStep::Try(LegacyShape::Keyed),
            LegacyShape::Keyed => DecodeStep::Try(LegacyShape::Lines),
            LegacyShape::Lines => DecodeStep::Failed,
        },
    }
}

} // verus!
