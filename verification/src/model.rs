//! Composite identifiers and descriptive metadata.
//!
//! Every entity is named hierarchically: a source owns mangas, a manga owns
//! chapters.  Identifiers are built only from their parts and are never
//! parsed apart; the ordering key derived from a chapter identifier is a
//! separate value, used for sorting alone.  Chapter and volume numbers are
//! exact decimals (an integer mantissa with a scale), never floats; any
//! lossy narrowing happens outside this crate.

use vstd::prelude::*;

use crate::ordering::derive_display_name;
use crate::ordering::derive_ordering_key;
use crate::ordering::last_segment;
use crate::ordering::ordering_key;

verus! {

/// Opaque name of a content provider.
#[derive(Clone, Debug, Eq, Hash, PartialEq)]
pub struct SourceId {
    source_id: String,
}

impl View for SourceId {
    type V = Seq<char>;

    /// The provider name as a sequence of characters.
    closed spec fn view(&self) -> Seq<char> {
        self.source_id@
    }
}

impl SourceId {
    /// The identifier's backing string, for specifications.
    pub closed spec fn spec_raw(self) -> String {
        self.source_id
    }

    pub fn new(value: String) -> (r: Self)
        ensures
            r@ == value@,
            r.spec_raw() == value,
    {
        Self { source_id: value }
    }

    pub fn value(&self) -> (r: &String)
        ensures
            r@ == self@,
            *r == self.spec_raw(),
    {
        &self.source_id
    }

    /// An equal identifier of its own.
    pub fn duplicate(&self) -> (r: Self)
        ensures
            r == *self,
    {
        Self { source_id: self.source_id.clone() }
    }
}

/// What a manga identifier denotes: a source and a manga-local name.
pub struct MangaIdParts {
    pub source: Seq<char>,
    pub manga: Seq<char>,
}

/// Name of a manga, always scoped to exactly one source: the same local
/// string under two sources denotes two distinct mangas.
#[derive(Clone, Debug, Eq, Hash, PartialEq)]
pub struct MangaId {
    source_id: SourceId,
    manga_id: String,
}

impl View for MangaId {
    type V = MangaIdParts;

    closed spec fn view(&self) -> MangaIdParts {
        MangaIdParts { source: self.source_id@, manga: self.manga_id@ }
    }
}

impl MangaId {
    pub fn new(source_id: SourceId, value: String) -> (r: Self)
        ensures
            r@.source == source_id@,
            r@.manga == value@,
    {
        Self { source_id, manga_id: value }
    }

    pub fn from_strings(source_id: String, manga_id: String) -> (r: Self)
        ensures
            r@.source == source_id@,
            r@.manga == manga_id@,
    {
        let source_id = SourceId::new(source_id);
        Self { source_id, manga_id }
    }

    pub fn source_id(&self) -> (r: &SourceId)
        ensures
            r@ == self@.source,
    {
        &self.source_id
    }

    pub fn value(&self) -> (r: &String)
        ensures
            r@ == self@.manga,
    {
        &self.manga_id
    }

    /// An identifier equal to this one in both components.
    pub fn duplicate(&self) -> (r: Self)
        ensures
            r == *self,
    {
        Self { source_id: self.source_id.duplicate(), manga_id: self.manga_id.clone() }
    }
}

/// What a chapter identifier denotes: a source, a manga and a
/// chapter-local name.
pub struct ChapterIdParts {
    pub source: Seq<char>,
    pub manga: Seq<char>,
    pub chapter: Seq<char>,
}

/// Name of one chapter of a manga.
#[derive(Clone, Debug, Eq, Hash, PartialEq)]
pub struct ChapterId {
    manga_id: MangaId,
    chapter_id: String,
}

impl View for ChapterId {
    type V = ChapterIdParts;

    closed spec fn view(&self) -> ChapterIdParts {
        ChapterIdParts {
            source: self.manga_id@.source,
            manga: self.manga_id@.manga,
            chapter: self.chapter_id@,
        }
    }
}

impl ChapterId {
    pub fn new(manga_id: MangaId, value: String) -> (r: Self)
        ensures
            r@.source == manga_id@.source,
            r@.manga == manga_id@.manga,
            r@.chapter == value@,
    {
        Self { manga_id, chapter_id: value }
    }

    pub fn from_strings(source_id: String, manga_id: String, chapter_id: String) -> (r: Self)
        ensures
            r@.source == source_id@,
            r@.manga == manga_id@,
            r@.chapter == chapter_id@,
    {
        let manga_id = MangaId::from_strings(source_id, manga_id);
        Self { manga_id, chapter_id }
    }

    pub fn source_id(&self) -> (r: &SourceId)
        ensures
            r@ == self@.source,
    {
        self.manga_id.source_id()
    }

    pub fn manga_id(&self) -> (r: &MangaId)
        ensures
            r@.source == self@.source,
            r@.manga == self@.manga,
    {
        &self.manga_id
    }

    pub fn value(&self) -> (r: &String)
        ensures
            r@ == self@.chapter,
    {
        &self.chapter_id
    }

    /// The sortable ordering key derived from the chapter-local
    /// identifier string.  For ordering only; never an identifier.
    pub fn chapter_number(&self) -> (r: String)
        ensures
            r@ == ordering_key(self@.chapter),
    {
        derive_ordering_key(self.chapter_id.as_str())
    }

    /// The manga's display name: the final path segment of the
    /// manga-local identifier string.  Purely cosmetic.
    pub fn manga_name(&self) -> (r: String)
        ensures
            r@ == last_segment(self@.manga),
    {
        derive_display_name(self.manga_id.value().as_str())
    }

    /// An identifier equal to this one in all components.
    pub fn duplicate(&self) -> (r: Self)
        ensures
            r == *self,
    {
        Self { manga_id: self.manga_id.duplicate(), chapter_id: self.chapter_id.clone() }
    }
}

/// Largest mantissa magnitude a decimal number may carry (96 bits).
pub const DECIMAL_MANTISSA_LIMIT: i128 = 0x1000000000000000000000000;

/// Largest scale a decimal number may carry.
pub const DECIMAL_SCALE_LIMIT: u32 = 28;

/// An exact decimal: `mantissa / 10^scale`.  Chapter and volume numbers
/// keep fractional numbering (such as an interlude between two chapters)
/// without floating-point drift.
#[derive(Clone, Copy, Debug, Eq, Hash, PartialEq, Structural)]
pub struct DecimalNumber {
    mantissa: i128,
    scale: u32,
}

impl DecimalNumber {
    pub closed spec fn spec_mantissa(self) -> int {
        self.mantissa as int
    }

    pub closed spec fn spec_scale(self) -> nat {
        self.scale as nat
    }

    /// Within the mantissa and scale ranges every number must keep.
    pub open spec fn wf(self) -> bool {
        -DECIMAL_MANTISSA_LIMIT < self.spec_mantissa() < DECIMAL_MANTISSA_LIMIT
            && self.spec_scale() <= DECIMAL_SCALE_LIMIT
    }

    /// Accepts exactly the representations within range.
    pub fn new(mantissa: i128, scale: u32) -> (r: Option<Self>)
        ensures
            r is Some <==> (-DECIMAL_MANTISSA_LIMIT < mantissa < DECIMAL_MANTISSA_LIMIT
                && scale <= DECIMAL_SCALE_LIMIT),
            r is Some ==> r->0.spec_mantissa() == mantissa && r->0.spec_scale() == scale
                && r->0.wf(),
    {
        if -DECIMAL_MANTISSA_LIMIT < mantissa && mantissa < DECIMAL_MANTISSA_LIMIT && scale
            <= DECIMAL_SCALE_LIMIT {
            Some(Self { mantissa, scale })
        } else {
            None
        }
    }

    pub fn mantissa(&self) -> (r: i128)
        ensures
            r == self.spec_mantissa(),
    {
        self.mantissa
    }

    pub fn scale(&self) -> (r: u32)
        ensures
            r == self.spec_scale(),
    {
        self.scale
    }
}

/// Describes a resolved source plugin, for display and capability lookup.
#[derive(Clone, Debug)]
pub struct SourceInformation {
    pub id: SourceId,
    pub name: String,
    pub version: usize,
}

/// Descriptive metadata attached to a manga.  The cover location is
/// carried as its text; only collaborators outside this crate interpret
/// it.
#[derive(Clone, Debug)]
pub struct MangaInformation {
    pub id: MangaId,
    pub title: Option<String>,
    pub author: Option<String>,
    pub artist: Option<String>,
    pub cover_url: Option<String>,
}

impl MangaInformation {
    pub fn manga_title(&self) -> (r: Option<String>)
        ensures
            r == self.title,
    {
        match &self.title {
            Some(t) => Some(t.clone()),
            None => None,
        }
    }
}

/// Descriptive metadata attached to a chapter.
#[derive(Clone, Debug)]
pub struct ChapterInformation {
    pub id: ChapterId,
    pub title: Option<String>,
    pub scanlator: Option<String>,
    pub chapter_number: Option<DecimalNumber>,
    pub volume_number: Option<DecimalNumber>,
}

/// Per-manga mutable state.  Nothing is tracked yet.
pub struct MangaState;

/// Per-chapter mutable state, owned by the persistence collaborator.
#[derive(Clone, Copy, Debug, Default)]
pub struct ChapterState {
    pub read: bool,
}

/// A chapter as callers see it: metadata, state and download status.
pub struct Chapter {
    pub information: ChapterInformation,
    pub state: ChapterState,
    pub downloaded: bool,
}

/// A manga as callers see it.
pub struct Manga {
    pub source_information: SourceInformation,
    pub information: MangaInformation,
    pub state: MangaState,
    pub unread_chapters_count: Option<usize>,
}

} // verus!
