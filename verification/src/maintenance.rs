//! Decisions of the library-maintenance flows: clearing a manga's
//! reading history and deleting stored chapter downloads.
//!
//! The database and the chapter storage are collaborators outside this
//! crate.  Their callers query them, hand the findings in as plain
//! values, and this module decides what to touch; the callers then
//! perform the writes and deletions it picked.

use vstd::prelude::*;
use vstd::string::StrSliceExecFns;

use crate::model::ChapterId;
use crate::model::ChapterState;
use crate::model::MangaId;

verus! {

/// Whether a character counts as whitespace.
pub uninterp spec fn whitespace_char(c: char) -> bool;

/// Relies on char::is_whitespace: true exactly on the characters with the
/// Unicode `White_Space` property — a function of the character alone.
#[verifier::external_body]
fn char_is_whitespace(c: char) -> (r: bool)
    ensures
        r == whitespace_char(c),
{
    c.is_whitespace()
}

/// Nothing but whitespace, or nothing at all.
pub open spec fn is_blank(s: Seq<char>) -> bool {
    forall|i: int| 0 <= i < s.len() ==> whitespace_char(#[trigger] s[i])
}

/// Decides `is_blank`.
pub fn string_is_blank(s: &str) -> (r: bool)
    ensures
        r == is_blank(s@),
{
    let n = s.unicode_len();
    let mut i: usize = 0;
    while i < n
        invariant
            0 <= i <= n,
            n == s@.len(),
            forall|j: int| 0 <= j < i ==> whitespace_char(#[trigger] s@[j]),
        decreases n - i,
    {
        if !char_is_whitespace(s.get_char(i)) {
            return false;
        }
        i = i + 1;
    }
    true
}

/// A manga may be acted on only when neither its source name nor its
/// manga-local name is blank.
pub fn validate_manga_reference(m: &MangaId) -> (r: bool)
    ensures
        r == (!is_blank(m@.source) && !is_blank(m@.manga)),
{
    let source_blank = string_is_blank(m.source_id().value().as_str());
    let manga_blank = string_is_blank(m.value().as_str());
    !source_blank && !manga_blank
}

/// A chapter's read flag is cleared exactly when the persistence layer
/// knows the chapter and has it marked read.
pub open spec fn needs_reset(e: (ChapterId, Option<ChapterState>)) -> bool {
    e.1 is Some && e.1->0.read
}

/// The chapters whose read flag is to be cleared, in order.
pub open spec fn reset_selection(entries: Seq<(ChapterId, Option<ChapterState>)>) -> Seq<
    ChapterId,
>
    decreases entries.len(),
{
    if entries.len() == 0 {
        Seq::empty()
    } else {
        let rest = reset_selection(entries.drop_last());
        if needs_reset(entries.last()) {
            rest.push(entries.last().0)
        } else {
            rest
        }
    }
}

/// Picks, from the cached chapters of a manga and their states, those
/// whose read flag must be cleared.  The caller writes each of them back
/// with the flag off; chapters unknown to the persistence layer, or
/// already unread, are left alone.
pub fn chapters_to_reset(entries: &Vec<(ChapterId, Option<ChapterState>)>) -> (r: Vec<
    ChapterId,
>)
    ensures
        r@ == reset_selection(entries@),
{
    let n = entries.len();
    let mut r: Vec<ChapterId> = Vec::new();
    proof {
        assert(entries@.take(0) =~= Seq::<(ChapterId, Option<ChapterState>)>::empty());
    }
    let mut i: usize = 0;
    while i < n
        invariant
            0 <= i <= n,
            n == entries@.len(),
            r@ == reset_selection(entries@.take(i as int)),
        decreases n - i,
    {
        let marked = match &entries[i].1 {
            Some(state) => state.read,
            None => false,
        };
        proof {
            let t = entries@.take(i + 1 as int);
            assert(t.drop_last() =~= entries@.take(i as int));
            assert(t.last() == entries@[i as int]);
            assert(marked == needs_reset(entries@[i as int]));
        }
        if marked {
            r.push(entries[i].0.duplicate());
        }
        i = i + 1;
    }
    proof {
        assert(entries@.take(n as int) =~= entries@);
    }
    r
}

/// The chapters whose stored download is to be deleted, in order.
pub open spec fn stored_selection(chapters: Seq<(ChapterId, bool)>) -> Seq<ChapterId>
    decreases chapters.len(),
{
    if chapters.len() == 0 {
        Seq::empty()
    } else {
        let rest = stored_selection(chapters.drop_last());
        if chapters.last().1 {
            rest.push(chapters.last().0)
        } else {
            rest
        }
    }
}

/// Picks, from the cached chapters of a manga and whether each has a
/// stored download, those whose download is to be deleted: exactly the
/// stored ones.  The caller attempts each deletion and counts what
/// succeeded; one failure does not stop the others.
pub fn downloads_to_delete(chapters: &Vec<(ChapterId, bool)>) -> (r: Vec<ChapterId>)
    ensures
        r@ == stored_selection(chapters@),
{
    let n = chapters.len();
    let mut r: Vec<ChapterId> = Vec::new();
    proof {
        assert(chapters@.take(0) =~= Seq::<(ChapterId, bool)>::empty());
    }
    let mut i: usize = 0;
    while i < n
        invariant
            0 <= i <= n,
            n == chapters@.len(),
            r@ == stored_selection(chapters@.take(i as int)),
        decreases n - i,
    {
        proof {
            let t = chapters@.take(i + 1 as int);
            assert(t.drop_last() =~= chapters@.take(i as int));
            assert(t.last() == chapters@[i as int]);
        }
        if chapters[i].1 {
            r.push(chapters[i].0.duplicate());
        }
        i = i + 1;
    }
    proof {
        assert(chapters@.take(n as int) =~= chapters@);
    }
    r
}

/// How many deletions succeeded.
pub open spec fn count_true(results: Seq<bool>) -> nat
    decreases results.len(),
{
    if results.len() == 0 {
        0
    } else {
        count_true(results.drop_last()) + if results.last() {
            1nat
        } else {
            0nat
        }
    }
}

/// Counts the successful deletions among the attempted ones.
pub fn count_successes(results: &Vec<bool>) -> (n: usize)
    ensures
        n == count_true(results@),
{
    let m = results.len();
    let mut n: usize = 0;
    proof {
        assert(results@.take(0) =~= Seq::<bool>::empty());
    }
    let mut i: usize = 0;
    while i < m
        invariant
            0 <= i <= m,
            m == results@.len(),
            n == count_true(results@.take(i as int)),
            n <= i,
        decreases m - i,
    {
        proof {
            let t = results@.take(i + 1 as int);
            assert(t.drop_last() =~= results@.take(i as int));
            assert(t.last() == results@[i as int]);
        }
        if results[i] {
            n = n + 1;
        }
        i = i + 1;
    }
    proof {
        assert(results@.take(m as int) =~= results@);
    }
    n
}

/// The outcome of deleting one chapter's download.  The caller checks
/// storage first and attempts the deletion only for a stored chapter,
/// handing in `None` when nothing was stored: nothing was deleted then,
/// and that is a success.  An attempted deletion reports success or the
/// storage failure's message, unchanged.
pub fn chapter_delete_outcome(attempt: Option<Result<(), String>>) -> (r: Result<bool, String>)
    ensures
        attempt is None ==> r == Ok::<bool, String>(false),
        attempt == Some(Ok::<(), String>(())) ==> r == Ok::<bool, String>(true),
        (attempt is Some && attempt->0 is Err) ==> r == Err::<bool, String>(
            attempt->0->Err_0,
        ),
{
    match attempt {
        None => Ok(false),
        Some(Ok(())) => Ok(true),
        Some(Err(message)) => Err(message),
    }
}

} // verus!
