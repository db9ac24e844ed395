//! The sortable ordering key derived from a chapter identifier.
//!
//! Sources hand out free-form identifier strings.  To let chapters sort
//! lexicographically in numeric order, the final path segment of the
//! identifier is split on hyphens, the trailing run of numeric parts (or,
//! failing that, the final part alone) is kept, and every numeric part is
//! rewritten: the integer digits are zero-padded to width five, and at most
//! one fractional digit survives, by truncation.  Non-numeric parts pass
//! through unchanged.  The key orders; it never identifies.
//!
//! A part counts as numeric when it is one or more digits, optionally
//! followed by a decimal point and further digits.

use vstd::prelude::*;
use vstd::string::StrSliceExecFns;
use vstd::string::StringExecFns;

use crate::text::first_index;
use crate::text::join_with;
use crate::text::split_on;
use crate::text::find_first;
use crate::text::join_hyphen;
use crate::text::split_string;
use crate::text::lemma_first_index;
use crate::text::lemma_first_index_absent;
use crate::text::lemma_first_index_is;
use crate::text::lemma_split_on_step;
use crate::text::lemma_split_on_whole;

verus! {

pub open spec fn is_digit(c: char) -> bool {
    48 <= c as u32 && c as u32 <= 57
}

pub open spec fn all_digits(s: Seq<char>) -> bool {
    forall|i: int| 0 <= i < s.len() ==> is_digit(#[trigger] s[i])
}

/// The digits before the first decimal point (the whole part when there is
/// no point).
pub open spec fn integer_digits(p: Seq<char>) -> Seq<char> {
    let d = first_index(p, '.');
    if d >= p.len() {
        p
    } else {
        p.subrange(0, d as int)
    }
}

/// The characters after the first decimal point; empty when there is none.
pub open spec fn fraction_digits(p: Seq<char>) -> Seq<char> {
    let d = first_index(p, '.');
    if d >= p.len() {
        Seq::empty()
    } else {
        p.subrange(d + 1 as int, p.len() as int)
    }
}

/// Digits, optionally followed by a decimal point and further digits.
pub open spec fn is_numeric_part(p: Seq<char>) -> bool {
    integer_digits(p).len() > 0 && all_digits(integer_digits(p)) && all_digits(
        fraction_digits(p),
    )
}

/// Leading zeros removed, but at least one digit kept.
pub open spec fn strip_leading_zeros(d: Seq<char>) -> Seq<char>
    decreases d.len(),
{
    if d.len() > 1 && d[0] == '0' {
        strip_leading_zeros(d.drop_first())
    } else {
        d
    }
}

/// Zero-padded on the left to width five; longer runs stay as they are.
pub open spec fn zero_padded(d: Seq<char>) -> Seq<char> {
    if d.len() >= 5 {
        d
    } else {
        Seq::new((5 - d.len()) as nat, |i: int| '0') + d
    }
}

pub open spec fn has_nonzero_digit(f: Seq<char>) -> bool {
    exists|i: int| 0 <= i < f.len() && #[trigger] f[i] != '0'
}

/// One part of the key: numeric parts are normalized, others kept verbatim.
pub open spec fn render_part(p: Seq<char>) -> Seq<char> {
    if !is_numeric_part(p) {
        p
    } else {
        let base = zero_padded(strip_leading_zeros(integer_digits(p)));
        if has_nonzero_digit(fraction_digits(p)) {
            base + seq!['.', fraction_digits(p)[0]]
        } else {
            base
        }
    }
}

/// How many parts, counted from the end, are numeric without a gap.
pub open spec fn numeric_suffix_len(parts: Seq<Seq<char>>) -> nat
    decreases parts.len(),
{
    if parts.len() == 0 {
        0
    } else if is_numeric_part(parts.last()) {
        1 + numeric_suffix_len(parts.drop_last())
    } else {
        0
    }
}

/// The parts the key is built from: the trailing numeric run, or the final
/// part alone when that run is empty.
pub open spec fn key_parts(parts: Seq<Seq<char>>) -> Seq<Seq<char>> {
    let k = numeric_suffix_len(parts);
    if k == 0 {
        seq![parts.last()]
    } else {
        parts.subrange(parts.len() - k, parts.len() as int)
    }
}

/// A single trailing separator is dropped; anything else is kept.
pub open spec fn strip_one_trailing(s: Seq<char>, sep: char) -> Seq<char> {
    if s.len() > 0 && s.last() == sep {
        s.drop_last()
    } else {
        s
    }
}

/// The final path segment, a single trailing separator ignored.
pub open spec fn last_segment(s: Seq<char>) -> Seq<char> {
    split_on(strip_one_trailing(s, '/'), '/').last()
}

/// The ordering key of a chapter identifier.
pub open spec fn ordering_key(s: Seq<char>) -> Seq<char> {
    let parts = split_on(last_segment(s), '-');
    join_with(key_parts(parts).map_values(|p: Seq<char>| render_part(p)), '-')
}

/// `numeric_suffix_len` is pinned down by a run that cannot be extended.
pub proof fn lemma_numeric_suffix_len_is(parts: Seq<Seq<char>>, k: nat)
    requires
        k <= parts.len(),
        forall|j: int| parts.len() - k <= j < parts.len() ==> is_numeric_part(
            #[trigger] parts[j],
        ),
        k < parts.len() ==> !is_numeric_part(parts[parts.len() - k - 1]),
    ensures
        numeric_suffix_len(parts) == k,
    decreases parts.len(),
{
    if k == 0 {
        if parts.len() > 0 {
            assert(!is_numeric_part(parts.last()));
        }
    } else {
        assert(is_numeric_part(parts.last()));
        let front = parts.drop_last();
        assert forall|j: int| front.len() - (k - 1) <= j < front.len() implies is_numeric_part(
            #[trigger] front[j],
        ) by {
            assert(front[j] == parts[j]);
        }
        if k - 1 < front.len() {
            assert(front[front.len() - (k - 1) - 1] == parts[parts.len() - k - 1]);
        }
        lemma_numeric_suffix_len_is(front, (k - 1) as nat);
    }
}

/// `strip_leading_zeros` is pinned down by the position of the first
/// significant digit.
pub proof fn lemma_strip_zeros_at(d: Seq<char>, k: int)
    requires
        0 <= k < d.len(),
        forall|j: int| 0 <= j < k ==> d[j] == '0',
        k == d.len() - 1 || d[k] != '0',
    ensures
        strip_leading_zeros(d) == d.subrange(k, d.len() as int),
    decreases k,
{
    if k == 0 {
        assert(d.subrange(0, d.len() as int) =~= d);
    } else {
        assert(d[0] == '0' && d.len() > 1);
        let tail = d.drop_first();
        assert forall|j: int| 0 <= j < k - 1 implies tail[j] == '0' by {
            assert(tail[j] == d[j + 1]);
        }
        assert(k - 1 == tail.len() - 1 || tail[k - 1] != '0');
        lemma_strip_zeros_at(tail, k - 1);
        assert(tail.subrange(k - 1, tail.len() as int) =~= d.subrange(k, d.len() as int));
    }
}

fn digit_char(c: char) -> (r: bool)
    ensures
        r == is_digit(c),
{
    let u = c as u32;
    48 <= u && u <= 57
}

/// Decides `is_numeric_part`.
pub fn part_is_numeric(p: &str) -> (r: bool)
    ensures
        r == is_numeric_part(p@),
{
    let n = p.unicode_len();
    let d = find_first(p, '.');
    proof {
        lemma_first_index(p@, '.');
    }
    if d == 0 {
        proof {
            if first_index(p@, '.') >= p@.len() {
                assert(integer_digits(p@) == p@);
            } else {
                assert(integer_digits(p@) =~= p@.subrange(0, 0));
            }
        }
        return false;
    }
    let mut i: usize = 0;
    while i < d
        invariant
            0 <= i <= d <= n,
            n == p@.len(),
            d == first_index(p@, '.'),
            forall|j: int| 0 <= j < i ==> is_digit(#[trigger] p@[j]),
        decreases d - i,
    {
        if !digit_char(p.get_char(i)) {
            proof {
                assert(!is_digit(integer_digits(p@)[i as int]));
            }
            return false;
        }
        i = i + 1;
    }
    if d < n {
        let mut j: usize = d + 1;
        while j < n
            invariant
                d + 1 <= j <= n,
                n == p@.len(),
                d == first_index(p@, '.'),
                d < n,
                forall|t: int| d + 1 <= t < j ==> is_digit(#[trigger] p@[t]),
            decreases n - j,
        {
            if !digit_char(p.get_char(j)) {
                proof {
                    assert(fraction_digits(p@)[j - d - 1] == p@[j as int]);
                }
                return false;
            }
            j = j + 1;
        }
    }
    proof {
        if d >= n {
            assert(all_digits(integer_digits(p@)));
            assert(all_digits(fraction_digits(p@)));
        } else {
            assert forall|t: int| 0 <= t < integer_digits(p@).len() implies is_digit(
                #[trigger] integer_digits(p@)[t],
            ) by {
                assert(integer_digits(p@)[t] == p@[t]);
            }
            assert forall|t: int| 0 <= t < fraction_digits(p@).len() implies is_digit(
                #[trigger] fraction_digits(p@)[t],
            ) by {
                assert(fraction_digits(p@)[t] == p@[d + 1 + t]);
            }
        }
    }
    true
}

/// Normalizes one part, as `render_part` describes it.
pub fn render_part_string(p: &str) -> (r: String)
    ensures
        r@ == render_part(p@),
{
    if !part_is_numeric(p) {
        return p.to_owned();
    }
    let n = p.unicode_len();
    let d = find_first(p, '.');
    proof {
        lemma_first_index(p@, '.');
    }
    // The integer digits span [0, d); skip their leading zeros.
    let mut k: usize = 0;
    while k + 1 < d && p.get_char(k) == '0'
        invariant
            0 <= k < d <= n,
            n == p@.len(),
            d == first_index(p@, '.'),
            d >= 1,
            forall|j: int| 0 <= j < k ==> p@[j] == '0',
        decreases d - k,
    {
        k = k + 1;
    }
    let ghost ints = integer_digits(p@);
    proof {
        assert(ints =~= p@.subrange(0, d as int));
        assert forall|j: int| 0 <= j < k implies ints[j] == '0' by {
            assert(ints[j] == p@[j]);
        }
        assert(k == ints.len() - 1 || ints[k as int] != '0');
        lemma_strip_zeros_at(ints, k as int);
        assert(ints.subrange(k as int, ints.len() as int) =~= p@.subrange(k as int, d as int));
    }
    let width = d - k;
    let mut r = String::new();
    proof {
        reveal_strlit("0");
        assert(r@ =~= Seq::new(0, |i: int| '0'));
    }
    let pad: usize = if width >= 5 {
        0
    } else {
        5 - width
    };
    let mut z: usize = 0;
    while z < pad
        invariant
            0 <= z <= pad,
            "0"@ =~= seq!['0'],
            r@ =~= Seq::new(z as nat, |i: int| '0'),
        decreases pad - z,
    {
        r.append("0");
        proof {
            assert(r@ =~= Seq::new((z + 1) as nat, |i: int| '0'));
        }
        z = z + 1;
    }
    r.append(p.substring_char(k, d));
    proof {
        assert(r@ =~= zero_padded(strip_leading_zeros(ints)));
    }
    // Keep at most the first fractional digit, and only when some
    // fractional digit is significant.
    if d < n {
        let mut j: usize = d + 1;
        let mut significant = false;
        while j < n && !significant
            invariant
                d + 1 <= j <= n,
                n == p@.len(),
                d == first_index(p@, '.'),
                d < n,
                significant ==> exists|t: int|
                    d + 1 <= t < j && #[trigger] p@[t] != '0',
                !significant ==> forall|t: int| d + 1 <= t < j ==> #[trigger] p@[t] == '0',
            decreases n - j + (if significant { 0int } else { 1int }),
        {
            if p.get_char(j) != '0' {
                significant = true;
            }
            j = j + 1;
        }
        let ghost frac = fraction_digits(p@);
        proof {
            assert(frac =~= p@.subrange(d + 1 as int, n as int));
            if significant {
                let t = choose|t: int| d + 1 <= t < j && #[trigger] p@[t] != '0';
                assert(frac[t - d - 1] != '0');
                assert(has_nonzero_digit(frac));
            } else {
                assert forall|t: int| 0 <= t < frac.len() implies #[trigger] frac[t]
                    == '0' by {
                    assert(frac[t] == p@[d + 1 + t]);
                }
                assert(!has_nonzero_digit(frac));
            }
        }
        if significant {
            r.append(".");
            r.append(p.substring_char(d + 1, d + 2));
            proof {
                reveal_strlit(".");
                assert(p@.subrange(d + 1 as int, d + 2 as int) =~= seq![frac[0]]);
                assert(r@ =~= zero_padded(strip_leading_zeros(ints)) + seq![
                    '.',
                    frac[0],
                ]);
            }
        }
    }
    r
}

/// Derives the ordering key of a chapter identifier string.
pub fn derive_ordering_key(s: &str) -> (r: String)
    ensures
        r@ == ordering_key(s@),
{
    let n = s.unicode_len();
    let trimmed: &str = if n > 0 && s.get_char(n - 1) == '/' {
        s.substring_char(0, n - 1)
    } else {
        s
    };
    proof {
        assert(strip_one_trailing(s@, '/') =~= trimmed@);
    }
    let segments = split_string(trimmed, '/');
    let segment: &String = &segments[segments.len() - 1];
    proof {
        assert(segment@ == split_on(trimmed@, '/').last());
    }
    let parts = split_string(segment.as_str(), '-');
    let m = parts.len();
    let ghost pv = parts@.map_values(|p: String| p@);
    let mut k: usize = 0;
    loop
        invariant
            0 <= k <= m,
            m == pv.len(),
            m == parts@.len(),
            pv == parts@.map_values(|p: String| p@),
            forall|j: int| m - k <= j < m ==> is_numeric_part(#[trigger] pv[j]),
        ensures
            0 <= k <= m,
            forall|j: int| m - k <= j < m ==> is_numeric_part(#[trigger] pv[j]),
            k == m || !is_numeric_part(pv[m - k - 1]),
        decreases m - k,
    {
        if k >= m {
            break ;
        }
        if !part_is_numeric(parts[m - 1 - k].as_str()) {
            proof {
                assert(pv[m - k - 1] == parts@[m - 1 - k]@);
            }
            break ;
        }
        proof {
            assert(pv[m - k - 1] == parts@[m - 1 - k]@);
        }
        k = k + 1;
    }
    proof {
        lemma_numeric_suffix_len_is(pv, k as nat);
    }
    let begin = if k == 0 {
        m - 1
    } else {
        m - k
    };
    proof {
        if k == 0 {
            assert(key_parts(pv) =~= pv.subrange(begin as int, m as int));
        } else {
            assert(key_parts(pv) == pv.subrange(begin as int, m as int));
        }
    }
    let mut rendered: Vec<String> = Vec::new();
    let mut i: usize = begin;
    while i < m
        invariant
            begin <= i <= m,
            m == parts@.len(),
            m == pv.len(),
            pv == parts@.map_values(|p: String| p@),
            rendered@.map_values(|p: String| p@) =~= pv.subrange(begin as int, i as int)
                .map_values(|q: Seq<char>| render_part(q)),
        decreases m - i,
    {
        let ghost before = rendered@.map_values(|p: String| p@);
        let piece = render_part_string(parts[i].as_str());
        rendered.push(piece);
        proof {
            assert(rendered@.map_values(|p: String| p@) =~= before.push(
                render_part(pv[i as int]),
            ));
            assert(rendered@.map_values(|p: String| p@) =~= pv.subrange(
                begin as int,
                i + 1 as int,
            ).map_values(|q: Seq<char>| render_part(q)));
        }
        i = i + 1;
    }
    proof {
        assert(pv.subrange(begin as int, m as int) == key_parts(pv));
        assert(rendered@.len() == key_parts(pv).len());
        assert(key_parts(pv).len() >= 1);
    }
    let r = join_hyphen(&rendered);
    proof {
        assert(rendered@.map_values(|p: String| p@) =~= key_parts(pv).map_values(
            |q: Seq<char>| render_part(q),
        ));
    }
    r
}

/// A run of digits is a numeric part and is rendered as the padded integer.
pub proof fn lemma_digits_render(s: Seq<char>)
    requires
        s.len() > 0,
        all_digits(s),
    ensures
        is_numeric_part(s),
        render_part(s) == zero_padded(strip_leading_zeros(s)),
{
    assert forall|j: int| 0 <= j < s.len() implies s[j] != '.' by {
        assert(is_digit(s[j]));
    }
    lemma_first_index_absent(s, '.');
    assert(integer_digits(s) == s);
    assert(fraction_digits(s) == Seq::<char>::empty());
    assert(!has_nonzero_digit(Seq::<char>::empty()));
}

/// For an identifier that is one bare part (no separators), the key is
/// just that part, rendered.
pub proof fn lemma_key_single_part(t: Seq<char>)
    requires
        t.len() > 0,
        forall|j: int| 0 <= j < t.len() ==> #[trigger] t[j] != '/',
        forall|j: int| 0 <= j < t.len() ==> #[trigger] t[j] != '-',
    ensures
        ordering_key(t) == render_part(t),
{
    assert(strip_one_trailing(t, '/') == t);
    lemma_split_on_whole(t, '/');
    assert(last_segment(t) == t);
    lemma_split_on_whole(t, '-');
    let parts = split_on(t, '-');
    assert(parts == seq![t]);
    assert(parts.last() == t);
    if is_numeric_part(t) {
        assert(parts.drop_last() =~= Seq::<Seq<char>>::empty());
        assert(numeric_suffix_len(Seq::<Seq<char>>::empty()) == 0);
        assert(numeric_suffix_len(parts) == 1);
        assert(key_parts(parts) =~= seq![t]);
    } else {
        assert(numeric_suffix_len(parts) == 0);
        assert(key_parts(parts) == seq![t]);
    }
    let rendered = key_parts(parts).map_values(|p: Seq<char>| render_part(p));
    assert(rendered =~= seq![render_part(t)]);
    assert(join_with(rendered, '-') == rendered[0]);
}

/// LAW — integer tails: an identifier ending in a plain run of digits keys
/// as that integer, zero-padded to width five.
pub proof fn lemma_key_integer_tail(s: Seq<char>)
    requires
        s.len() > 0,
        all_digits(s),
    ensures
        ordering_key(s) == zero_padded(strip_leading_zeros(s)),
{
    assert forall|j: int| 0 <= j < s.len() implies s[j] != '/' && s[j] != '-' by {
        assert(is_digit(s[j]));
    }
    lemma_key_single_part(s);
    lemma_digits_render(s);
}

/// LAW — fractional tails: digits, a point and more digits (some of them
/// significant) key as the padded integer part, a point, and the first
/// fractional digit alone — truncation, not rounding.
pub proof fn lemma_key_fractional_tail(d1: Seq<char>, d2: Seq<char>)
    requires
        d1.len() > 0,
        all_digits(d1),
        d2.len() > 0,
        all_digits(d2),
        has_nonzero_digit(d2),
    ensures
        ordering_key(d1 + seq!['.'] + d2) == zero_padded(strip_leading_zeros(d1)) + seq![
            '.',
            d2[0],
        ],
{
    let s = d1 + seq!['.'] + d2;
    let w = d1.len() as int;
    assert(s.len() == d1.len() + 1 + d2.len());
    assert forall|j: int| 0 <= j < s.len() implies s[j] != '/' && s[j] != '-' by {
        if j < w {
            assert(s[j] == d1[j]);
            assert(is_digit(s[j]));
        } else if j == w {
            assert(s[j] == '.');
        } else {
            assert(s[j] == d2[j - w - 1]);
            assert(is_digit(s[j]));
        }
    }
    lemma_key_single_part(s);
    assert(s[w] == '.');
    assert forall|j: int| 0 <= j < w implies s[j] != '.' by {
        assert(s[j] == d1[j]);
        assert(is_digit(s[j]));
    }
    lemma_first_index_is(s, '.', w);
    assert(integer_digits(s) =~= d1);
    assert(fraction_digits(s) =~= d2);
    assert(is_numeric_part(s));
    assert(render_part(s) == zero_padded(strip_leading_zeros(d1)) + seq!['.', d2[0]]);
}

/// LAW — zero fractional part: digits, a point and only zero digits (or
/// none) key exactly as the integer alone does.
pub proof fn lemma_key_zero_fraction_tail(d1: Seq<char>, d2: Seq<char>)
    requires
        d1.len() > 0,
        all_digits(d1),
        all_digits(d2),
        forall|i: int| 0 <= i < d2.len() ==> #[trigger] d2[i] == '0',
    ensures
        ordering_key(d1 + seq!['.'] + d2) == zero_padded(strip_leading_zeros(d1)),
{
    let s = d1 + seq!['.'] + d2;
    let w = d1.len() as int;
    assert(s.len() == d1.len() + 1 + d2.len());
    assert forall|j: int| 0 <= j < s.len() implies s[j] != '/' && s[j] != '-' by {
        if j < w {
            assert(s[j] == d1[j]);
            assert(is_digit(s[j]));
        } else if j == w {
            assert(s[j] == '.');
        } else {
            assert(s[j] == d2[j - w - 1]);
            assert(is_digit(s[j]));
        }
    }
    lemma_key_single_part(s);
    assert(s[w] == '.');
    assert forall|j: int| 0 <= j < w implies s[j] != '.' by {
        assert(s[j] == d1[j]);
        assert(is_digit(s[j]));
    }
    lemma_first_index_is(s, '.', w);
    assert(integer_digits(s) =~= d1);
    assert(fraction_digits(s) =~= d2);
    assert(is_numeric_part(s));
    assert(!has_nonzero_digit(d2));
    assert(render_part(s) == zero_padded(strip_leading_zeros(d1)));
}

/// LAW — non-numeric tails: an identifier that is one part and not numeric
/// passes through to the key unchanged.
pub proof fn lemma_key_plain_tail(t: Seq<char>)
    requires
        t.len() > 0,
        !is_numeric_part(t),
        forall|j: int| 0 <= j < t.len() ==> #[trigger] t[j] != '/',
        forall|j: int| 0 <= j < t.len() ==> #[trigger] t[j] != '-',
    ensures
        ordering_key(t) == t,
{
    lemma_key_single_part(t);
}

/// LAW — composite tails: two runs of digits joined by a hyphen key as the
/// two padded integers joined by a hyphen.
pub proof fn lemma_key_composite_tail(a: Seq<char>, b: Seq<char>)
    requires
        a.len() > 0,
        all_digits(a),
        b.len() > 0,
        all_digits(b),
    ensures
        ordering_key(a + seq!['-'] + b) == zero_padded(strip_leading_zeros(a)) + seq!['-']
            + zero_padded(strip_leading_zeros(b)),
{
    let s = a + seq!['-'] + b;
    let w = a.len() as int;
    assert forall|j: int| 0 <= j < s.len() implies s[j] != '/' by {
        if j < w {
            assert(s[j] == a[j]);
            assert(is_digit(s[j]));
        } else if j == w {
            assert(s[j] == '-');
        } else {
            assert(s[j] == b[j - w - 1]);
            assert(is_digit(s[j]));
        }
    }
    assert(s.last() == b.last());
    assert(is_digit(s.last()));
    assert(strip_one_trailing(s, '/') == s);
    lemma_split_on_whole(s, '/');
    assert(last_segment(s) == s);
    assert(s[w] == '-');
    assert forall|j: int| 0 <= j < w implies s[j] != '-' by {
        assert(s[j] == a[j]);
        assert(is_digit(s[j]));
    }
    lemma_split_on_step(s, '-', w);
    assert(s.subrange(0, w) =~= a);
    assert(s.subrange(w + 1, s.len() as int) =~= b);
    assert forall|j: int| 0 <= j < b.len() implies b[j] != '-' by {
        assert(is_digit(b[j]));
    }
    lemma_split_on_whole(b, '-');
    let parts = split_on(s, '-');
    assert(parts =~= seq![a, b]);
    lemma_digits_render(a);
    lemma_digits_render(b);
    assert(parts.last() == b);
    assert(parts.drop_last() =~= seq![a]);
    assert(seq![a].last() == a);
    assert(seq![a].drop_last() =~= Seq::<Seq<char>>::empty());
    assert(numeric_suffix_len(Seq::<Seq<char>>::empty()) == 0);
    assert(numeric_suffix_len(seq![a]) == 1);
    assert(numeric_suffix_len(parts) == 2);
    assert(key_parts(parts) =~= seq![a, b]);
    let rendered = key_parts(parts).map_values(|p: Seq<char>| render_part(p));
    assert(rendered =~= seq![render_part(a), render_part(b)]);
    assert(rendered.drop_first() =~= seq![render_part(b)]);
    assert(join_with(rendered.drop_first(), '-') == render_part(b));
    assert(join_with(rendered, '-') == render_part(a) + seq!['-'] + render_part(b));
}

/// LAW — a non-numeric label before a composite numeric tail is dropped:
/// only the trailing numeric run reaches the key.
pub proof fn lemma_key_labelled_composite(label: Seq<char>, a: Seq<char>, b: Seq<char>)
    requires
        label.len() > 0,
        !is_numeric_part(label),
        forall|j: int| 0 <= j < label.len() ==> #[trigger] label[j] != '/',
        forall|j: int| 0 <= j < label.len() ==> #[trigger] label[j] != '-',
        a.len() > 0,
        all_digits(a),
        b.len() > 0,
        all_digits(b),
    ensures
        ordering_key(label + seq!['-'] + a + seq!['-'] + b) == zero_padded(
            strip_leading_zeros(a),
        ) + seq!['-'] + zero_padded(strip_leading_zeros(b)),
{
    let s = label + seq!['-'] + a + seq!['-'] + b;
    let rest = a + seq!['-'] + b;
    let w = label.len() as int;
    assert forall|j: int| 0 <= j < s.len() implies s[j] != '/' by {
        if j < w {
            assert(s[j] == label[j]);
        } else if j == w {
            assert(s[j] == '-');
        } else if j < w + 1 + a.len() {
            assert(s[j] == a[j - w - 1]);
            assert(is_digit(s[j]));
        } else if j == w + 1 + a.len() {
            assert(s[j] == '-');
        } else {
            assert(s[j] == b[j - w - 2 - a.len()]);
            assert(is_digit(s[j]));
        }
    }
    assert(s.last() == b.last());
    assert(is_digit(s.last()));
    assert(strip_one_trailing(s, '/') == s);
    lemma_split_on_whole(s, '/');
    assert(last_segment(s) == s);
    assert(s[w] == '-');
    assert forall|j: int| 0 <= j < w implies s[j] != '-' by {
        assert(s[j] == label[j]);
    }
    lemma_split_on_step(s, '-', w);
    assert(s.subrange(0, w) =~= label);
    assert(s.subrange(w + 1, s.len() as int) =~= rest);
    assert(s[w + 1 + a.len()] == '-');
    assert forall|j: int| 0 <= j < a.len() implies rest[j] != '-' by {
        assert(rest[j] == a[j]);
        assert(is_digit(rest[j]));
    }
    assert(rest[a.len() as int] == '-');
    lemma_split_on_step(rest, '-', a.len() as int);
    assert(rest.subrange(0, a.len() as int) =~= a);
    assert(rest.subrange(a.len() + 1 as int, rest.len() as int) =~= b);
    assert forall|j: int| 0 <= j < b.len() implies b[j] != '-' by {
        assert(is_digit(b[j]));
    }
    lemma_split_on_whole(b, '-');
    let parts = split_on(s, '-');
    assert(parts =~= seq![label, a, b]);
    lemma_digits_render(a);
    lemma_digits_render(b);
    assert(parts.last() == b);
    assert(parts.drop_last() =~= seq![label, a]);
    assert(seq![label, a].last() == a);
    assert(seq![label, a].drop_last() =~= seq![label]);
    assert(seq![label].last() == label);
    assert(numeric_suffix_len(seq![label]) == 0);
    assert(numeric_suffix_len(seq![label, a]) == 1);
    assert(numeric_suffix_len(parts) == 2);
    assert(key_parts(parts) =~= seq![a, b]);
    let rendered = key_parts(parts).map_values(|p: Seq<char>| render_part(p));
    assert(rendered =~= seq![render_part(a), render_part(b)]);
    assert(rendered.drop_first() =~= seq![render_part(b)]);
    assert(join_with(rendered.drop_first(), '-') == render_part(b));
    assert(join_with(rendered, '-') == render_part(a) + seq!['-'] + render_part(b));
}

/// LAW — a single trailing path separator never changes the key.
pub proof fn lemma_key_trailing_separator(s: Seq<char>)
    requires
        s.len() == 0 || s.last() != '/',
    ensures
        ordering_key(s.push('/')) == ordering_key(s),
{
    let t = s.push('/');
    assert(t.last() == '/');
    assert(t.drop_last() =~= s);
    assert(strip_one_trailing(t, '/') == s);
    assert(strip_one_trailing(s, '/') == s);
}

/// Derives the display name: the final path segment of an identifier, a
/// single trailing separator ignored.
pub fn derive_display_name(s: &str) -> (r: String)
    ensures
        r@ == last_segment(s@),
{
    let n = s.unicode_len();
    let trimmed: &str = if n > 0 && s.get_char(n - 1) == '/' {
        s.substring_char(0, n - 1)
    } else {
        s
    };
    proof {
        assert(strip_one_trailing(s@, '/') =~= trimmed@);
    }
    let segments = split_string(trimmed, '/');
    let segment = segments[segments.len() - 1].clone();
    proof {
        assert(segment@ == split_on(trimmed@, '/').last());
    }
    segment
}

} // verus!
