//! Character-level text model shared by the chunkers, classifiers and parsers.
//!
//! Texts are modelled as `Seq<char>`. The functions here give executable
//! counterparts, with exact contracts, of the few `str` operations the library
//! relies on (whitespace trimming, pattern splitting, substring search, line
//! splitting), plus the conversions between `str`/`String` and `Vec<char>`.
use vstd::prelude::*;

verus! {

broadcast use vstd::seq_lib::group_seq_properties;

// ---------------------------------------------------------------------------
// Whitespace
// ---------------------------------------------------------------------------

/// The Unicode `White_Space` property (PropList.txt), which is what
/// `char::is_whitespace` tests.
pub open spec fn is_space(c: char) -> bool {
    let u = c as u32;
    ||| (0x9 <= u && u <= 0xd)
    ||| u == 0x20
    ||| u == 0x85
    ||| u == 0xa0
    ||| u == 0x1680
    ||| (0x2000 <= u && u <= 0x200a)
    ||| u == 0x2028
    ||| u == 0x2029
    ||| u == 0x202f
    ||| u == 0x205f
    ||| u == 0x3000
}

/// Executable whitespace test.
pub fn is_space_char(c: char) -> (b: bool)
    ensures
        b == is_space(c),
{
    let u = c as u32;
    (0x9 <= u && u <= 0xd) || u == 0x20 || u == 0x85 || u == 0xa0 || u == 0x1680 || (0x2000
        <= u && u <= 0x200a) || u == 0x2028 || u == 0x2029 || u == 0x202f || u == 0x205f || u
        == 0x3000
}

/// `s` with its leading whitespace removed (`str::trim_start`).
pub open spec fn trim_start(s: Seq<char>) -> Seq<char>
    decreases s.len(),
{
    if s.len() > 0 && is_space(s[0]) {
        trim_start(s.drop_first())
    } else {
        s
    }
}

/// `s` with its trailing whitespace removed (`str::trim_end`).
pub open spec fn trim_end(s: Seq<char>) -> Seq<char>
    decreases s.len(),
{
    if s.len() > 0 && is_space(s.last()) {
        trim_end(s.drop_last())
    } else {
        s
    }
}

/// `s` with leading and trailing whitespace removed (`str::trim`).
pub open spec fn trim(s: Seq<char>) -> Seq<char> {
    trim_end(trim_start(s))
}

/// Index bounds of the trimmed part of `v[lo..hi]`.
pub fn trim_bounds(v: &Vec<char>, lo: usize, hi: usize) -> (r: (usize, usize))
    requires
        lo <= hi <= v.len(),
    ensures
        lo <= r.0 <= r.1 <= hi,
        v@.subrange(r.0 as int, r.1 as int) == trim(v@.subrange(lo as int, hi as int)),
{
    let mut a = lo;
    while a < hi && is_space_char(v[a])
        invariant
            lo <= a <= hi <= v.len(),
            trim_start(v@.subrange(lo as int, hi as int)) == trim_start(
                v@.subrange(a as int, hi as int),
            ),
        decreases hi - a,
    {
        assert(v@.subrange(a as int, hi as int).drop_first() =~= v@.subrange(
            a + 1,
            hi as int,
        ));
        a = a + 1;
    }
    assert(trim_start(v@.subrange(a as int, hi as int)) == v@.subrange(a as int, hi as int));
    let mut b = hi;
    while b > a && is_space_char(v[b - 1])
        invariant
            lo <= a <= b <= hi <= v.len(),
            trim_start(v@.subrange(lo as int, hi as int)) == v@.subrange(a as int, hi as int),
            trim_end(v@.subrange(a as int, hi as int)) == trim_end(
                v@.subrange(a as int, b as int),
            ),
        decreases b - a,
    {
        assert(v@.subrange(a as int, b as int).drop_last() =~= v@.subrange(
            a as int,
            b - 1,
        ));
        b = b - 1;
    }
    assert(trim_end(v@.subrange(a as int, b as int)) == v@.subrange(a as int, b as int));
    (a, b)
}

// ---------------------------------------------------------------------------
// Pattern matching
// ---------------------------------------------------------------------------

/// `p` occurs in `s` at position `i`.
pub open spec fn matches_at(s: Seq<char>, p: Seq<char>, i: int) -> bool {
    0 <= i && i + p.len() <= s.len() && s.subrange(i, i + p.len()) == p
}

/// `p` occurs somewhere in `s` (`str::contains`).
pub open spec fn contains(s: Seq<char>, p: Seq<char>) -> bool {
    exists|i: int| matches_at(s, p, i)
}

/// `s` begins with `p` (`str::starts_with`).
pub open spec fn starts_with(s: Seq<char>, p: Seq<char>) -> bool {
    matches_at(s, p, 0)
}

/// Executable test of `matches_at`.
pub fn matches_at_exec(s: &Vec<char>, p: &Vec<char>, i: usize) -> (b: bool)
    ensures
        b == matches_at(s@, p@, i as int),
{
    if i > s.len() || p.len() > s.len() - i {
        return false;
    }
    let mut k: usize = 0;
    while k < p.len()
        invariant
            i + p.len() <= s.len(),
            k <= p.len(),
            forall|j: int| 0 <= j < k ==> s@[i + j] == p@[j],
        decreases p.len() - k,
    {
        if s[i + k] != p[k] {
            assert(s@.subrange(i as int, i + p.len())[k as int] != p@[k as int]);
            return false;
        }
        k = k + 1;
    }
    assert(s@.subrange(i as int, i + p.len()) =~= p@);
    true
}

/// Executable substring test.
pub fn contains_exec(s: &Vec<char>, p: &Vec<char>) -> (b: bool)
    ensures
        b == contains(s@, p@),
{
    if p.len() > s.len() {
        assert forall|i: int| !matches_at(s@, p@, i) by {}
        return false;
    }
    let n = s.len() - p.len();
    let mut i: usize = 0;
    loop
        invariant
            p.len() <= s.len(),
            n == s.len() - p.len(),
            i <= n,
            forall|j: int| 0 <= j < i ==> !matches_at(s@, p@, j),
        ensures
            forall|j: int| 0 <= j <= n ==> !matches_at(s@, p@, j),
        decreases n - i,
    {
        if matches_at_exec(s, p, i) {
            return true;
        }
        if i == n {
            break;
        }
        i = i + 1;
    }
    assert forall|j: int| !matches_at(s@, p@, j) by {
        if 0 <= j <= n {
        }
    }
    false
}

/// Whether `low` contains either literal.
pub fn contains_either(low: &Vec<char>, a: &str, b: &str) -> (r: bool)
    ensures
        r == (contains(low@, a@) || contains(low@, b@)),
{
    let pa = literal(a);
    if contains_exec(low, &pa) {
        return true;
    }
    let pb = literal(b);
    contains_exec(low, &pb)
}

/// Executable prefix test.
pub fn starts_with_exec(s: &Vec<char>, p: &Vec<char>) -> (b: bool)
    ensures
        b == starts_with(s@, p@),
{
    matches_at_exec(s, p, 0)
}

// ---------------------------------------------------------------------------
// Splitting on a pattern
// ---------------------------------------------------------------------------

/// The pieces of `s[start..]` when split at every non-overlapping occurrence
/// of `p`, scanning from position `i` (with `start <= i`).
pub open spec fn split_from(s: Seq<char>, p: Seq<char>, start: int, i: int) -> Seq<Seq<char>>
    decreases s.len() - i,
{
    if i < 0 || i >= s.len() || i + p.len() > s.len() {
        seq![s.subrange(start, s.len() as int)]
    } else if p.len() > 0 && matches_at(s, p, i) {
        seq![s.subrange(start, i)] + split_from(s, p, i + p.len(), i + p.len())
    } else {
        split_from(s, p, start, i + 1)
    }
}

/// `str::split` with a non-empty string pattern: the pieces between the
/// non-overlapping occurrences of `p`, found left to right.
pub open spec fn split_by(s: Seq<char>, p: Seq<char>) -> Seq<Seq<char>> {
    split_from(s, p, 0, 0)
}

/// The text a list of index ranges denotes.
pub open spec fn range_texts(s: Seq<char>, rs: Seq<(usize, usize)>) -> Seq<Seq<char>> {
    rs.map_values(|r: (usize, usize)| s.subrange(r.0 as int, r.1 as int))
}

/// All ranges lie inside a text of length `n`.
pub open spec fn ranges_within(rs: Seq<(usize, usize)>, n: nat) -> bool {
    forall|k: int| 0 <= k < rs.len() ==> (#[trigger] rs[k]).0 <= rs[k].1 <= n
}

/// The pieces `split_from` returns never number zero.
pub proof fn lemma_split_from_nonempty(s: Seq<char>, p: Seq<char>, start: int, i: int)
    ensures
        split_from(s, p, start, i).len() >= 1,
    decreases s.len() - i,
{
    if i < 0 || i >= s.len() || i + p.len() > s.len() {
    } else if p.len() > 0 && matches_at(s, p, i) {
        lemma_split_from_nonempty(s, p, i + p.len(), i + p.len());
    } else {
        lemma_split_from_nonempty(s, p, start, i + 1);
    }
}

/// Index ranges of the pieces of `s` split at `p` (`p` non-empty).
pub fn split_ranges(s: &Vec<char>, p: &Vec<char>) -> (rs: Vec<(usize, usize)>)
    requires
        p.len() > 0,
    ensures
        ranges_within(rs@, s.len() as nat),
        range_texts(s@, rs@) == split_by(s@, p@),
{
    let mut rs: Vec<(usize, usize)> = Vec::new();
    let mut start: usize = 0;
    let mut i: usize = 0;
    while i <= s.len() && p.len() <= s.len() - i
        invariant
            p.len() > 0,
            start <= i <= s.len(),
            ranges_within(rs@, s.len() as nat),
            range_texts(s@, rs@) + split_from(s@, p@, start as int, i as int) == split_by(
                s@,
                p@,
            ),
        decreases s.len() - i,
    {
        if matches_at_exec(s, p, i) {
            let ghost before = rs@;
            rs.push((start, i));
            assert(range_texts(s@, rs@) =~= range_texts(s@, before) + seq![
                s@.subrange(start as int, i as int),
            ]);
            assert(range_texts(s@, rs@) + split_from(s@, p@, (i + p.len()) as int, (i + p.len()) as int)
                =~= range_texts(s@, before) + split_from(s@, p@, start as int, i as int));
            i = i + p.len();
            start = i;
        } else {
            i = i + 1;
        }
    }
    let ghost before = rs@;
    rs.push((start, s.len()));
    assert(range_texts(s@, rs@) =~= range_texts(s@, before) + seq![
        s@.subrange(start as int, s.len() as int),
    ]);
    rs
}

// ---------------------------------------------------------------------------
// Whitespace-separated words
// ---------------------------------------------------------------------------

/// The maximal runs of non-whitespace characters of `s[start..]`, scanning
/// from position `i`, where `s[start..i]` holds no whitespace.
pub open spec fn words_from(s: Seq<char>, start: int, i: int) -> Seq<Seq<char>>
    decreases s.len() - i,
{
    if i < 0 || i >= s.len() {
        if start < i {
            seq![s.subrange(start, i)]
        } else {
            seq![]
        }
    } else if is_space(s[i]) {
        (if start < i {
            seq![s.subrange(start, i)]
        } else {
            seq![]
        }) + words_from(s, i + 1, i + 1)
    } else {
        words_from(s, start, i + 1)
    }
}

/// `str::split_whitespace`: the maximal runs of non-whitespace characters.
pub open spec fn words(s: Seq<char>) -> Seq<Seq<char>> {
    words_from(s, 0, 0)
}

/// Index ranges of the whitespace-separated words of `s`.
pub fn word_ranges(s: &Vec<char>) -> (rs: Vec<(usize, usize)>)
    ensures
        ranges_within(rs@, s.len() as nat),
        range_texts(s@, rs@) == words(s@),
{
    let mut rs: Vec<(usize, usize)> = Vec::new();
    let mut start: usize = 0;
    let mut i: usize = 0;
    while i < s.len()
        invariant
            start <= i <= s.len(),
            ranges_within(rs@, s.len() as nat),
            range_texts(s@, rs@) + words_from(s@, start as int, i as int) == words(s@),
        decreases s.len() - i,
    {
        if is_space_char(s[i]) {
            let ghost before = rs@;
            if start < i {
                rs.push((start, i));
                assert(range_texts(s@, rs@) =~= range_texts(s@, before) + seq![
                    s@.subrange(start as int, i as int),
                ]);
            }
            assert(range_texts(s@, rs@) + words_from(s@, i + 1, i + 1) =~= range_texts(
                s@,
                before,
            ) + words_from(s@, start as int, i as int));
            i = i + 1;
            start = i;
        } else {
            i = i + 1;
        }
    }
    if start < i {
        let ghost before = rs@;
        rs.push((start, i));
        assert(range_texts(s@, rs@) =~= range_texts(s@, before) + seq![
            s@.subrange(start as int, i as int),
        ]);
    } else {
        assert(range_texts(s@, rs@) =~= range_texts(s@, rs@) + words_from(s@, start as int, i as int));
    }
    rs
}

// ---------------------------------------------------------------------------
// Lines
// ---------------------------------------------------------------------------

/// `l` without one trailing carriage return.
pub open spec fn strip_cr(l: Seq<char>) -> Seq<char> {
    if l.len() > 0 && l.last() == '\r' {
        l.drop_last()
    } else {
        l
    }
}

/// Each line with one trailing carriage return removed.
pub open spec fn strip_cr_each(ls: Seq<Seq<char>>) -> Seq<Seq<char>> {
    ls.map_values(|l: Seq<char>| strip_cr(l))
}

/// `str::lines`: the pieces between line feeds, each line that ended in a
/// line feed losing one trailing carriage return; a final empty piece (the
/// text is empty or ends with a line feed) is not a line.
pub open spec fn lines(s: Seq<char>) -> Seq<Seq<char>> {
    let parts = split_by(s, seq!['\n']);
    let n = parts.len() as int;
    let body = strip_cr_each(parts.take(n - 1));
    if parts[n - 1].len() == 0 {
        body
    } else {
        body.push(parts[n - 1])
    }
}

/// Index ranges of the lines of `s`.
pub fn line_ranges(s: &Vec<char>) -> (rs: Vec<(usize, usize)>)
    ensures
        ranges_within(rs@, s.len() as nat),
        range_texts(s@, rs@) == lines(s@),
{
    let nl = vec!['\n'];
    let parts = split_ranges(s, &nl);
    proof {
        lemma_split_from_nonempty(s@, nl@, 0, 0);
    }
    assert(nl@ =~= seq!['\n']);
    let ghost ps = split_by(s@, nl@);
    let n = parts.len();
    let mut rs: Vec<(usize, usize)> = Vec::new();
    let mut k: usize = 0;
    while k + 1 < n
        invariant
            n == parts.len() == ps.len(),
            n >= 1,
            k + 1 <= n,
            rs.len() == k,
            ranges_within(parts@, s.len() as nat),
            range_texts(s@, parts@) == ps,
            ranges_within(rs@, s.len() as nat),
            range_texts(s@, rs@) == strip_cr_each(ps.take(k as int)),
        decreases n - k,
    {
        let (a, b) = parts[k];
        let ghost before = rs@;
        assert(ps[k as int] == s@.subrange(a as int, b as int));
        if b > a && s[b - 1] == '\r' {
            rs.push((a, b - 1));
            assert(s@.subrange(a as int, b as int).drop_last() =~= s@.subrange(a as int, b - 1));
            assert(range_texts(s@, rs@)[k as int] == s@.subrange(a as int, b - 1));
        } else {
            rs.push((a, b));
            assert(range_texts(s@, rs@)[k as int] == s@.subrange(a as int, b as int));
        }
        assert(range_texts(s@, rs@)[k as int] == strip_cr(ps[k as int]));
        assert(range_texts(s@, rs@) =~= range_texts(s@, before).push(strip_cr(ps[k as int])));
        assert(ps.take(k + 1) =~= ps.take(k as int).push(ps[k as int]));
        assert(strip_cr_each(ps.take(k + 1)) =~= strip_cr_each(ps.take(k as int)).push(
            strip_cr(ps[k as int]),
        ));
        k = k + 1;
    }
    let (a, b) = parts[n - 1];
    assert(ps[n - 1] == s@.subrange(a as int, b as int));
    assert(ps.take(n - 1) =~= ps.take(k as int));
    if a < b {
        let ghost before = rs@;
        rs.push((a, b));
        assert(range_texts(s@, rs@) =~= range_texts(s@, before).push(ps[n - 1]));
    } else {
        assert(ps[n - 1].len() == 0);
    }
    rs
}

// ---------------------------------------------------------------------------
// Conversions
// ---------------------------------------------------------------------------

/// The characters of a string slice, in order.
pub fn chars_of(s: &str) -> (v: Vec<char>)
    ensures
        v@ == s@,
{
    let mut v: Vec<char> = Vec::new();
    for c in it: s.chars()
        invariant
            it.seq() == s@,
            v@ == s@.take(it.index() as int),
    {
        v.push(c);
    }
    v
}

/// Copies `v[lo..hi]`.
pub fn copy_range(v: &Vec<char>, lo: usize, hi: usize) -> (r: Vec<char>)
    requires
        lo <= hi <= v.len(),
    ensures
        r@ == v@.subrange(lo as int, hi as int),
{
    let mut r: Vec<char> = Vec::new();
    let mut i = lo;
    while i < hi
        invariant
            lo <= i <= hi <= v.len(),
            r@ == v@.subrange(lo as int, i as int),
        decreases hi - i,
    {
        r.push(v[i]);
        i = i + 1;
    }
    r
}

/// Appends `src` to `dst`.
pub fn push_all(dst: &mut Vec<char>, src: &Vec<char>)
    ensures
        final(dst)@ == old(dst)@ + src@,
{
    let mut i: usize = 0;
    while i < src.len()
        invariant
            i <= src.len(),
            dst@ == old(dst)@ + src@.take(i as int),
        decreases src.len() - i,
    {
        dst.push(src[i]);
        i = i + 1;
    }
}

/// Builds a `String` from characters (`String: FromIterator<char>`).
#[verifier::external_body]
pub fn string_of(v: &Vec<char>) -> (s: String)
    ensures
        s@ == v@,
{
    v.iter().collect()
}

/// The text of a string literal as characters.
pub fn literal(s: &str) -> (v: Vec<char>)
    ensures
        v@ == s@,
{
    chars_of(s)
}

// ---------------------------------------------------------------------------
// Case mapping
// ---------------------------------------------------------------------------

/// What `str::to_lowercase` returns for a text: the Unicode lowercase mapping
/// (`Lowercase` derived core property, with the final-sigma rule).
pub uninterp spec fn lowercase(s: Seq<char>) -> Seq<char>;

/// What `str::to_uppercase` returns for a text: the Unicode uppercase mapping.
pub uninterp spec fn uppercase(s: Seq<char>) -> Seq<char>;

/// Calls `str::to_lowercase`; its result is named `lowercase` of the input.
#[verifier::external_body]
pub fn to_lowercase(s: &str) -> (r: String)
    ensures
        r@ == lowercase(s@),
{
    s.to_lowercase()
}

/// Calls `str::to_uppercase`; its result is named `uppercase` of the input.
#[verifier::external_body]
pub fn to_uppercase(s: &str) -> (r: String)
    ensures
        r@ == uppercase(s@),
{
    s.to_uppercase()
}

/// What `char::is_uppercase` returns for a character: whether it has the
/// Unicode `Uppercase` derived core property.
pub uninterp spec fn upper_letter(c: char) -> bool;

/// Calls `char::is_uppercase`; its result is named `upper_letter` of the
/// character.
#[verifier::external_body]
pub fn is_uppercase(c: char) -> (r: bool)
    ensures
        r == upper_letter(c),
{
    c.is_uppercase()
}

/// Lowercase of a character sequence.
pub fn lower_chars(v: &Vec<char>) -> (r: Vec<char>)
    ensures
        r@ == lowercase(v@),
{
    let s = string_of(v);
    let l = to_lowercase(s.as_str());
    chars_of(l.as_str())
}

/// Uppercase of a character sequence.
pub fn upper_chars(v: &Vec<char>) -> (r: Vec<char>)
    ensures
        r@ == uppercase(v@),
{
    let s = string_of(v);
    let u = to_uppercase(s.as_str());
    chars_of(u.as_str())
}

// ---------------------------------------------------------------------------
// Equality and byte length
// ---------------------------------------------------------------------------

/// Executable equality of character sequences.
pub fn chars_equal(a: &Vec<char>, b: &Vec<char>) -> (r: bool)
    ensures
        r == (a@ == b@),
{
    if a.len() != b.len() {
        return false;
    }
    let mut i: usize = 0;
    while i < a.len()
        invariant
            a.len() == b.len(),
            i <= a.len(),
            forall|j: int| 0 <= j < i ==> a@[j] == b@[j],
        decreases a.len() - i,
    {
        if a[i] != b[i] {
            return false;
        }
        i = i + 1;
    }
    assert(a@ =~= b@);
    true
}

/// How many bytes a character takes in UTF-8.
pub open spec fn char_utf8_len(c: char) -> nat {
    let u = c as u32;
    if u < 0x80 {
        1
    } else if u < 0x800 {
        2
    } else if u < 0x10000 {
        3
    } else {
        4
    }
}

/// How many bytes a text takes in UTF-8 (`str::len`).
pub open spec fn utf8_len(s: Seq<char>) -> nat
    decreases s.len(),
{
    if s.len() == 0 {
        0
    } else {
        utf8_len(s.drop_last()) + char_utf8_len(s.last())
    }
}

/// Whether a text takes more than `n` bytes in UTF-8.
pub fn utf8_longer_than(v: &Vec<char>, n: usize) -> (r: bool)
    ensures
        r == (utf8_len(v@) > n),
{
    let mut total: usize = 0;
    let mut i: usize = 0;
    while i < v.len()
        invariant
            i <= v.len(),
            total == utf8_len(v@.take(i as int)),
            total <= n,
        decreases v.len() - i,
    {
        assert(v@.take(i + 1).drop_last() =~= v@.take(i as int));
        let u = v[i] as u32;
        let w: usize = if u < 0x80 {
            1
        } else if u < 0x800 {
            2
        } else if u < 0x10000 {
            3
        } else {
            4
        };
        if w > n - total {
            proof {
                lemma_utf8_len_prefix(v@, i + 1);
            }
            return true;
        }
        total = total + w;
        i = i + 1;
    }
    assert(v@.take(i as int) =~= v@);
    false
}

/// The UTF-8 length of a prefix never exceeds that of the whole.
pub proof fn lemma_utf8_len_prefix(s: Seq<char>, k: int)
    requires
        0 <= k <= s.len(),
    ensures
        utf8_len(s.take(k)) <= utf8_len(s),
    decreases s.len() - k,
{
    if k < s.len() {
        lemma_utf8_len_prefix(s, k + 1);
        assert(s.take(k + 1).drop_last() =~= s.take(k));
    } else {
        assert(s.take(k) =~= s);
    }
}

// ---------------------------------------------------------------------------
// Replacement
// ---------------------------------------------------------------------------

/// `s[i..]` with every non-overlapping occurrence of `p`, taken from the
/// left, replaced by `r` (what `str::replace` does for a non-empty `p`).
pub open spec fn replace_from(s: Seq<char>, p: Seq<char>, r: Seq<char>, i: int) -> Seq<char>
    recommends
        p.len() > 0,
    decreases s.len() - i,
{
    if i >= s.len() || i < 0 || p.len() == 0 {
        seq![]
    } else if matches_at(s, p, i) {
        r + replace_from(s, p, r, i + p.len())
    } else {
        seq![s[i]] + replace_from(s, p, r, i + 1)
    }
}

/// `s` with every occurrence of `p` replaced by `r` (`str::replace`).
pub open spec fn replace_all(s: Seq<char>, p: Seq<char>, r: Seq<char>) -> Seq<char> {
    replace_from(s, p, r, 0)
}

/// Replaces, from the left, every non-overlapping occurrence of the
/// non-empty `p` in `s` by `r`.
pub fn replace_exec(s: &Vec<char>, p: &Vec<char>, r: &Vec<char>) -> (out: Vec<char>)
    requires
        p.len() > 0,
    ensures
        out@ == replace_all(s@, p@, r@),
{
    let mut out: Vec<char> = Vec::new();
    let mut i: usize = 0;
    while i < s.len()
        invariant
            p.len() > 0,
            i <= s.len(),
            out@ + replace_from(s@, p@, r@, i as int) == replace_all(s@, p@, r@),
        decreases s.len() - i,
    {
        let ghost before = out@;
        if matches_at_exec(s, p, i) {
            push_all(&mut out, r);
            assert(out@ + replace_from(s@, p@, r@, i + p.len()) =~= before + replace_from(s@, p@, r@, i as int));
            i = i + p.len();
        } else {
            out.push(s[i]);
            assert(out@ + replace_from(s@, p@, r@, i + 1) =~= before + replace_from(s@, p@, r@, i as int));
            i = i + 1;
        }
    }
    assert(out@ + replace_from(s@, p@, r@, i as int) =~= out@);
    out
}

/// `str::replace` on a string with a non-empty literal pattern.
pub fn replace_str(s: &str, p: &str, r: &str) -> (out: String)
    requires
        p@.len() > 0,
    ensures
        out@ == replace_all(s@, p@, r@),
{
    let sv = chars_of(s);
    let pv = chars_of(p);
    let rv = chars_of(r);
    string_of(&replace_exec(&sv, &pv, &rv))
}

// ---------------------------------------------------------------------------
// Pieces after a separator
// ---------------------------------------------------------------------------

/// The text after the last `c` in `s`, or all of `s` when it holds no `c`
/// (the last piece of `split(c)`).
pub open spec fn after_last(s: Seq<char>, c: char) -> Seq<char>
    decreases s.len(),
{
    if s.len() == 0 {
        s
    } else if s.last() == c {
        seq![]
    } else {
        after_last(s.drop_last(), c).push(s.last())
    }
}

/// The last piece of `s.split(c)`.
pub fn after_last_exec(s: &str, c: char) -> (r: String)
    ensures
        r@ == after_last(s@, c),
{
    let v = chars_of(s);
    let mut j: usize = v.len();
    while j > 0 && v[j - 1] != c
        invariant
            j <= v.len(),
            v@ == s@,
            after_last(v@, c) == after_last(v@.take(j as int), c) + v@.subrange(j as int, v.len() as int),
        decreases j,
    {
        assert(v@.take(j as int).drop_last() =~= v@.take(j - 1));
        assert(v@.subrange(j - 1, v.len() as int) =~= seq![v@[j - 1]] + v@.subrange(j as int, v.len() as int));
        j = j - 1;
    }
    if j > 0 {
        assert(v@.take(j as int).last() == c);
    } else {
        assert(v@.take(0) =~= seq![]);
    }
    string_of(&copy_range(&v, j, v.len()))
}

// ---------------------------------------------------------------------------
// Decimal numerals
// ---------------------------------------------------------------------------

/// The decimal digit for `d` in 0..=9.
pub open spec fn digit(d: int) -> char {
    if d == 0 { '0' }
    else if d == 1 { '1' }
    else if d == 2 { '2' }
    else if d == 3 { '3' }
    else if d == 4 { '4' }
    else if d == 5 { '5' }
    else if d == 6 { '6' }
    else if d == 7 { '7' }
    else if d == 8 { '8' }
    else { '9' }
}

/// The decimal numeral of `n`, without leading zeros (`n.to_string()`).
pub open spec fn decimal(n: nat) -> Seq<char>
    decreases n,
{
    if n < 10 {
        seq![digit(n as int)]
    } else {
        decimal(n / 10).push(digit((n % 10) as int))
    }
}

/// The decimal numeral of a signed integer, with '-' before a negative one.
pub open spec fn signed_decimal(n: int) -> Seq<char> {
    if n < 0 {
        seq!['-'] + decimal((-n) as nat)
    } else {
        decimal(n as nat)
    }
}

fn digit_exec(d: u64) -> (c: char)
    requires
        d < 10,
    ensures
        c == digit(d as int),
{
    match d {
        0 => '0',
        1 => '1',
        2 => '2',
        3 => '3',
        4 => '4',
        5 => '5',
        6 => '6',
        7 => '7',
        8 => '8',
        _ => '9',
    }
}

fn decimal_chars(n: u64) -> (v: Vec<char>)
    ensures
        v@ == decimal(n as nat),
    decreases n,
{
    if n < 10 {
        vec![digit_exec(n)]
    } else {
        let mut v = decimal_chars(n / 10);
        v.push(digit_exec(n % 10));
        v
    }
}

/// The decimal numeral of an unsigned integer.
pub fn decimal_string(n: u64) -> (s: String)
    ensures
        s@ == decimal(n as nat),
{
    string_of(&decimal_chars(n))
}

/// The decimal numeral of a signed integer.
pub fn signed_decimal_string(n: i64) -> (s: String)
    ensures
        s@ == signed_decimal(n as int),
{
    if n < 0 {
        let m: u64 = if n == i64::MIN { 9223372036854775808u64 } else { (-n) as u64 };
        let mut v = vec!['-'];
        let d = decimal_chars(m);
        push_all(&mut v, &d);
        string_of(&v)
    } else {
        decimal_string(n as u64)
    }
}

// ---------------------------------------------------------------------------
// Pieces as strings
// ---------------------------------------------------------------------------

/// The strings that ranges of a text denote.
pub fn range_strings(s: &Vec<char>, rs: &Vec<(usize, usize)>) -> (r: Vec<String>)
    requires
        ranges_within(rs@, s.len() as nat),
    ensures
        r.deep_view() == range_texts(s@, rs@),
{
    let mut r: Vec<String> = Vec::new();
    let mut k: usize = 0;
    while k < rs.len()
        invariant
            k <= rs.len(),
            ranges_within(rs@, s.len() as nat),
            r.deep_view() == range_texts(s@, rs@).take(k as int),
        decreases rs.len() - k,
    {
        let (lo, hi) = rs[k];
        let ghost before = r.deep_view();
        r.push(string_of(&copy_range(s, lo, hi)));
        assert(r.deep_view() =~= before.push(s@.subrange(lo as int, hi as int)));
        assert(range_texts(s@, rs@).take(k + 1) =~= range_texts(s@, rs@).take(k as int).push(
            s@.subrange(lo as int, hi as int),
        ));
        k = k + 1;
    }
    assert(range_texts(s@, rs@).take(k as int) =~= range_texts(s@, rs@));
    r
}

/// The whitespace-separated words of a string (`str::split_whitespace`).
pub fn words_of(s: &str) -> (r: Vec<String>)
    ensures
        r.deep_view() == words(s@),
{
    let v = chars_of(s);
    let rs = word_ranges(&v);
    range_strings(&v, &rs)
}

} // verus!
