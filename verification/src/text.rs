//! Character-sequence helpers: searching, splitting and joining.
//!
//! The specification side works on `Seq<char>`; the executable side works
//! on `&str` and `String` and is proved to agree with it.

use vstd::prelude::*;
use vstd::string::StrSliceExecFns;
use vstd::string::StringExecFns;

verus! {

/// Index of the first occurrence of `sep` in `s`, or `s.len()` if absent.
pub open spec fn first_index(s: Seq<char>, sep: char) -> nat
    decreases s.len(),
{
    if s.len() == 0 {
        0
    } else if s[0] == sep {
        0
    } else {
        1 + first_index(s.drop_first(), sep)
    }
}

pub proof fn lemma_first_index(s: Seq<char>, sep: char)
    ensures
        first_index(s, sep) <= s.len(),
        first_index(s, sep) < s.len() ==> s[first_index(s, sep) as int] == sep,
        forall|j: int| 0 <= j < first_index(s, sep) ==> s[j] != sep,
    decreases s.len(),
{
    if s.len() > 0 && s[0] != sep {
        lemma_first_index(s.drop_first(), sep);
        assert forall|j: int| 0 <= j < first_index(s, sep) implies s[j] != sep by {
            if j > 0 {
                assert(s.drop_first()[j - 1] == s[j]);
            }
        }
    }
}

/// `first_index` is pinned down by the first position that holds `sep`.
pub proof fn lemma_first_index_is(s: Seq<char>, sep: char, i: int)
    requires
        0 <= i < s.len(),
        s[i] == sep,
        forall|j: int| 0 <= j < i ==> s[j] != sep,
    ensures
        first_index(s, sep) == i,
{
    lemma_first_index(s, sep);
    let f = first_index(s, sep) as int;
    if f < i {
        assert(s[f] == sep);
    }
    if f > i {
        assert(s[i] != sep);
    }
}

/// When `sep` does not occur at all, `first_index` is the length.
pub proof fn lemma_first_index_absent(s: Seq<char>, sep: char)
    requires
        forall|j: int| 0 <= j < s.len() ==> s[j] != sep,
    ensures
        first_index(s, sep) == s.len(),
{
    lemma_first_index(s, sep);
    let f = first_index(s, sep) as int;
    if f < s.len() {
        assert(s[f] == sep);
    }
}

/// The pieces of `s` between occurrences of `sep`, in order.  Always at
/// least one piece; separators themselves are dropped.
pub open spec fn split_on(s: Seq<char>, sep: char) -> Seq<Seq<char>>
    decreases s.len(),
{
    let i = first_index(s, sep);
    if i >= s.len() {
        seq![s]
    } else {
        seq![s.subrange(0, i as int)] + split_on(
            s.subrange(i + 1 as int, s.len() as int),
            sep,
        )
    }
}

/// Peeling one piece off the front of a split, at a known first separator.
pub proof fn lemma_split_on_step(s: Seq<char>, sep: char, i: int)
    requires
        0 <= i < s.len(),
        s[i] == sep,
        forall|j: int| 0 <= j < i ==> s[j] != sep,
    ensures
        split_on(s, sep) == seq![s.subrange(0, i)] + split_on(
            s.subrange(i + 1 as int, s.len() as int),
            sep,
        ),
{
    lemma_first_index_is(s, sep, i);
}

/// A split with no separator present is the whole sequence alone.
pub proof fn lemma_split_on_whole(s: Seq<char>, sep: char)
    requires
        forall|j: int| 0 <= j < s.len() ==> s[j] != sep,
    ensures
        split_on(s, sep) == seq![s],
{
    lemma_first_index_absent(s, sep);
}

/// The pieces joined back together with `sep` between them.
pub open spec fn join_with(parts: Seq<Seq<char>>, sep: char) -> Seq<char>
    decreases parts.len(),
{
    if parts.len() == 0 {
        Seq::empty()
    } else if parts.len() == 1 {
        parts[0]
    } else {
        parts[0] + seq![sep] + join_with(parts.drop_first(), sep)
    }
}

/// Joining grows on the right one piece at a time.
pub proof fn lemma_join_with_snoc(parts: Seq<Seq<char>>, sep: char)
    requires
        parts.len() >= 2,
    ensures
        join_with(parts, sep) == join_with(parts.drop_last(), sep) + seq![sep] + parts.last(),
    decreases parts.len(),
{
    if parts.len() == 2 {
        let tail = parts.drop_first();
        let front = parts.drop_last();
        assert(tail.len() == 1 && tail[0] == parts[1]);
        assert(front.len() == 1 && front[0] == parts[0]);
        assert(join_with(tail, sep) == tail[0]);
        assert(join_with(front, sep) == front[0]);
        assert(join_with(parts, sep) == parts[0] + seq![sep] + tail[0]);
        assert(join_with(front, sep) + seq![sep] + parts.last() =~= parts[0] + seq![sep]
            + parts[1]);
    } else {
        let tail = parts.drop_first();
        lemma_join_with_snoc(tail, sep);
        assert(tail.drop_last() =~= parts.drop_last().drop_first());
        assert(tail.last() == parts.last());
        assert(parts.drop_last().len() >= 2);
        assert(parts.drop_last()[0] == parts[0]);
        assert(join_with(parts.drop_last(), sep) == parts[0] + seq![sep] + join_with(
            parts.drop_last().drop_first(),
            sep,
        ));
        assert(join_with(parts, sep) =~= join_with(parts.drop_last(), sep) + seq![sep]
            + parts.last());
    }
}

/// Finds the first occurrence of `sep`, as `first_index` describes it.
pub fn find_first(s: &str, sep: char) -> (i: usize)
    ensures
        i == first_index(s@, sep),
        i <= s@.len(),
{
    let n = s.unicode_len();
    let mut i: usize = 0;
    while i < n
        invariant
            0 <= i <= n,
            n == s@.len(),
            forall|j: int| 0 <= j < i ==> s@[j] != sep,
        decreases n - i,
    {
        if s.get_char(i) == sep {
            proof {
                lemma_first_index_is(s@, sep, i as int);
            }
            return i;
        }
        i = i + 1;
    }
    proof {
        lemma_first_index_absent(s@, sep);
    }
    n
}

/// Splits `s` at every occurrence of `sep`, as `split_on` describes it.
pub fn split_string(s: &str, sep: char) -> (parts: Vec<String>)
    ensures
        parts@.map_values(|p: String| p@) == split_on(s@, sep),
        parts@.len() >= 1,
{
    let n = s.unicode_len();
    let mut parts: Vec<String> = Vec::new();
    let mut start: usize = 0;
    let mut i: usize = 0;
    proof {
        assert(s@.subrange(0, n as int) =~= s@);
        assert(parts@.map_values(|p: String| p@) + split_on(s@, sep) =~= split_on(s@, sep));
    }
    while i < n
        invariant
            0 <= start <= i <= n,
            n == s@.len(),
            forall|j: int| start <= j < i ==> s@[j] != sep,
            split_on(s@, sep) =~= parts@.map_values(|p: String| p@) + split_on(
                s@.subrange(start as int, n as int),
                sep,
            ),
        decreases n - i,
    {
        if s.get_char(i) == sep {
            let piece = s.substring_char(start, i).to_owned();
            let ghost m = parts@.map_values(|p: String| p@);
            proof {
                let rest = s@.subrange(start as int, n as int);
                let k = i - start;
                assert(rest[k as int] == s@[i as int]);
                assert forall|j: int| 0 <= j < k implies rest[j] != sep by {
                    assert(rest[j] == s@[start + j]);
                }
                lemma_split_on_step(rest, sep, k as int);
                assert(rest.subrange(0, k as int) =~= s@.subrange(start as int, i as int));
                assert(rest.subrange(k + 1, rest.len() as int) =~= s@.subrange(
                    i + 1,
                    n as int,
                ));
            }
            parts.push(piece);
            proof {
                assert(parts@.map_values(|p: String| p@) =~= m.push(
                    s@.subrange(start as int, i as int),
                ));
                assert(split_on(s@, sep) =~= parts@.map_values(|p: String| p@) + split_on(
                    s@.subrange(i + 1, n as int),
                    sep,
                ));
            }
            start = i + 1;
        }
        i = i + 1;
    }
    let piece = s.substring_char(start, n).to_owned();
    let ghost m = parts@.map_values(|p: String| p@);
    proof {
        let rest = s@.subrange(start as int, n as int);
        assert forall|j: int| 0 <= j < rest.len() implies rest[j] != sep by {
            assert(rest[j] == s@[start + j]);
        }
        lemma_split_on_whole(rest, sep);
    }
    parts.push(piece);
    proof {
        assert(parts@.map_values(|p: String| p@) =~= m.push(
            s@.subrange(start as int, n as int),
        ));
        assert(parts@.map_values(|p: String| p@) =~= split_on(s@, sep));
    }
    parts
}

/// Joins the pieces with a hyphen, as `join_with` describes it.
pub fn join_hyphen(parts: &Vec<String>) -> (r: String)
    requires
        parts@.len() >= 1,
    ensures
        r@ == join_with(parts@.map_values(|p: String| p@), '-'),
{
    let views = Ghost(parts@.map_values(|p: String| p@));
    let mut r = String::new();
    let mut i: usize = 0;
    while i < parts.len()
        invariant
            0 <= i <= parts@.len(),
            views@ == parts@.map_values(|p: String| p@),
            r@ == join_with(views@.take(i as int), '-'),
        decreases parts@.len() - i,
    {
        if i > 0 {
            r.append("-");
            proof {
                reveal_strlit("-");
            }
        }
        r.append(parts[i].as_str());
        proof {
            let t = views@.take(i + 1);
            if i == 0 {
                assert(t.len() == 1);
                assert(r@ =~= t[0]);
            } else {
                lemma_join_with_snoc(t, '-');
                assert(t.drop_last() =~= views@.take(i as int));
                assert(t.last() == views@[i as int]);
                assert(r@ =~= join_with(views@.take(i as int), '-') + seq!['-'] + views@[
                    i as int
                ]);
            }
        }
        i = i + 1;
    }
    proof {
        assert(views@.take(parts@.len() as int) =~= views@);
    }
    r
}

} // verus!
