//! Automatic tags for papers: frequent keywords, the research field and the
//! methods a paper's title and abstract mention.
use vstd::prelude::*;
use crate::config::Config;
use crate::error::Error;
use crate::segment::{char_views, join, join_strings};
use crate::storage::models::Paper;
use crate::text::{
    chars_equal, chars_of, contains, contains_exec, copy_range, lower_chars, lowercase,
    range_texts, ranges_within, string_of, utf8_len, utf8_longer_than, word_ranges, words,
};

verus! {

broadcast use vstd::seq_lib::group_seq_properties;

/// Category of a tag.
#[derive(Debug, Clone, Copy, PartialEq, Eq)]
pub enum TagCategory {
    /// Research field.
    Field,
    /// Method.
    Method,
    /// Application area.
    Application,
    /// Kind of data.
    DataType,
    /// Keyword.
    Keyword,
    /// Anything else.
    Other,
}

/// A tag. Its confidence is kept in hundredths (0 to 100).
#[derive(Debug, Clone)]
pub struct Tag {
    /// The tag's text.
    pub name: String,
    /// Confidence, in hundredths.
    pub confidence_percent: u8,
    /// Category.
    pub category: TagCategory,
}

// ---------------------------------------------------------------------------
// Stop words and keyword candidates
// ---------------------------------------------------------------------------

/// The stop words, as literals.
pub open spec fn stop_word_literals() -> Seq<&'static str> {
    seq![
        "the", "a", "an", "and", "or", "but", "in", "on", "at", "to", "for", "of", "with", "by",
        "from", "as", "is", "was", "are", "were", "be", "been", "being", "have", "has", "had",
        "do", "does", "did", "will", "would", "should", "could", "may", "might", "must", "can",
        "this", "that", "these", "those", "的", "了", "在", "是", "和", "与", "或", "但是", "然后",
        "因此", "因为", "所以", "如果", "虽然", "通过",
    ]
}

/// The stop words.
pub open spec fn stop_words() -> Seq<Seq<char>> {
    stop_word_literals().map_values(|s: &str| s@)
}

/// `w` is a stop word.
pub open spec fn is_stop(w: Seq<char>) -> bool {
    stop_words().contains(w)
}

/// The stop word literals, in order.
fn stop_word_list() -> (r: Vec<&'static str>)
    ensures
        r@ == stop_word_literals(),
{
    let r = vec![
        "the", "a", "an", "and", "or", "but", "in", "on", "at", "to", "for", "of", "with", "by",
        "from", "as", "is", "was", "are", "were", "be", "been", "being", "have", "has", "had",
        "do", "does", "did", "will", "would", "should", "could", "may", "might", "must", "can",
        "this", "that", "these", "those", "的", "了", "在", "是", "和", "与", "或", "但是", "然后",
        "因此", "因为", "所以", "如果", "虽然", "通过",
    ];
    assert(r@ =~= stop_word_literals());
    r
}

/// Whether a word is one of the English or Chinese stop words.
pub fn is_stop_word(word: &str) -> (r: bool)
    ensures
        r == is_stop(word@),
{
    let w = chars_of(word);
    let list = stop_word_list();
    let mut i: usize = 0;
    while i < list.len()
        invariant
            w@ == word@,
            list@ == stop_word_literals(),
            i <= list.len(),
            forall|j: int| 0 <= j < i ==> stop_words()[j] != word@,
        decreases list.len() - i,
    {
        let s = chars_of(list[i]);
        if chars_equal(&w, &s) {
            assert(stop_words()[i as int] == word@);
            return true;
        }
        i = i + 1;
    }
    assert forall|j: int| 0 <= j < stop_words().len() implies stop_words()[j] != word@ by {}
    false
}

/// The lowercased words of a list that can be keywords: longer than three
/// bytes in UTF-8 and not stop words.
pub open spec fn candidates_of(ws: Seq<Seq<char>>) -> Seq<Seq<char>>
    decreases ws.len(),
{
    if ws.len() == 0 {
        seq![]
    } else {
        let rest = candidates_of(ws.drop_last());
        let w = lowercase(ws.last());
        if utf8_len(w) > 3 && !is_stop(w) {
            rest.push(w)
        } else {
            rest
        }
    }
}

/// The keyword candidates of a text, in order, repeats included.
pub open spec fn keyword_candidates(text: Seq<char>) -> Seq<Seq<char>> {
    candidates_of(words(text))
}

/// How many times `w` occurs in `ws`.
pub open spec fn occurrences(ws: Seq<Seq<char>>, w: Seq<char>) -> nat
    decreases ws.len(),
{
    if ws.len() == 0 {
        0
    } else {
        occurrences(ws.drop_last(), w) + (if ws.last() == w { 1nat } else { 0nat })
    }
}

/// `r` holds the most frequent candidates: no repeats, at most five, all of
/// them when there are fewer than five distinct ones, in non-increasing
/// order of frequency, and no candidate left out occurs more often than one
/// kept. Which of equally frequent candidates are kept is left open.
pub open spec fn top_keywords(cands: Seq<Seq<char>>, r: Seq<Seq<char>>) -> bool {
    &&& r.len() <= 5
    &&& r.no_duplicates()
    &&& forall|i: int| 0 <= i < r.len() ==> cands.contains(#[trigger] r[i])
    &&& r.len() < 5 ==> forall|w: Seq<char>| cands.contains(w) ==> r.contains(w)
    &&& forall|i: int, j: int|
        0 <= i < j < r.len() ==> occurrences(cands, #[trigger] r[i]) >= occurrences(
            cands,
            #[trigger] r[j],
        )
    &&& forall|w: Seq<char>, i: int|
        #![trigger occurrences(cands, w), r[i]]
        cands.contains(w) && !r.contains(w) && 0 <= i < r.len() ==> occurrences(cands, w)
            <= occurrences(cands, r[i])
}

proof fn lemma_occurrences_absent(ws: Seq<Seq<char>>, w: Seq<char>)
    requires
        !ws.contains(w),
    ensures
        occurrences(ws, w) == 0,
    decreases ws.len(),
{
    if ws.len() > 0 {
        assert(!ws.drop_last().contains(w)) by {
            if ws.drop_last().contains(w) {
                let k = choose|k: int| 0 <= k < ws.drop_last().len() && ws.drop_last()[k] == w;
                assert(ws[k] == w);
            }
        }
        lemma_occurrences_absent(ws.drop_last(), w);
        assert(ws.last() != w) by {
            if ws.last() == w {
                assert(ws[ws.len() - 1] == w);
            }
        }
    }
}

/// The keyword candidates of a text.
fn candidate_list(text: &str) -> (r: Vec<Vec<char>>)
    ensures
        char_views(r@) == keyword_candidates(text@),
{
    let chars = chars_of(text);
    let ranges = word_ranges(&chars);
    let ghost ws = words(text@);
    let mut r: Vec<Vec<char>> = Vec::new();
    let mut k: usize = 0;
    assert(char_views(r@) =~= seq![]);
    while k < ranges.len()
        invariant
            chars@ == text@,
            ranges_within(ranges@, chars.len() as nat),
            range_texts(chars@, ranges@) == ws,
            ws == words(text@),
            k <= ranges.len(),
            char_views(r@) == candidates_of(ws.take(k as int)),
        decreases ranges.len() - k,
    {
        let (a, b) = ranges[k];
        let word = copy_range(&chars, a, b);
        assert(word@ == ws[k as int]);
        assert(ws.take(k + 1).drop_last() =~= ws.take(k as int));
        let low = lower_chars(&word);
        let low_str = string_of(&low);
        if utf8_longer_than(&low, 3) && !is_stop_word(low_str.as_str()) {
            let ghost before = r@;
            r.push(low);
            assert(char_views(r@) =~= char_views(before).push(lowercase(ws[k as int])));
        }
        k = k + 1;
    }
    assert(ws.take(k as int) =~= ws);
    r
}

/// The distinct candidates in order of first occurrence, with how often each
/// occurs.
fn count_candidates(cands: &Vec<Vec<char>>) -> (r: (Vec<Vec<char>>, Vec<usize>))
    ensures
        r.0.len() == r.1.len(),
        char_views(r.0@).no_duplicates(),
        forall|w: Seq<char>| char_views(cands@).contains(w) <==> char_views(r.0@).contains(w),
        forall|j: int|
            0 <= j < r.1.len() ==> r.1@[j] == occurrences(char_views(cands@), #[trigger] char_views(r.0@)[j]),
{
    let ghost cs = char_views(cands@);
    let mut keys: Vec<Vec<char>> = Vec::new();
    let mut counts: Vec<usize> = Vec::new();
    let mut t: usize = 0;
    while t < cands.len()
        invariant
            cs == char_views(cands@),
            t <= cands.len(),
            keys.len() == counts.len(),
            char_views(keys@).no_duplicates(),
            forall|w: Seq<char>| cs.take(t as int).contains(w) <==> char_views(keys@).contains(w),
            forall|j: int|
                0 <= j < counts.len() ==> counts@[j] == occurrences(cs.take(t as int), #[trigger] char_views(keys@)[j]),
            forall|j: int| 0 <= j < counts.len() ==> #[trigger] counts@[j] <= t,
        decreases cands.len() - t,
    {
        let c = &cands[t];
        let ghost cv = c@;
        let ghost pre = cs.take(t as int);
        let ghost nxt = cs.take(t + 1);
        assert(nxt =~= pre.push(cv));
        assert(cs.take(t + 1).drop_last() =~= pre);
        let mut j: usize = 0;
        let mut found = false;
        while j < keys.len()
            invariant_except_break
                forall|i: int| 0 <= i < j ==> char_views(keys@)[i] != cv,
                !found,
            invariant
                j <= keys.len(),
                c@ == cv,
            ensures
                found ==> j < keys.len() && char_views(keys@)[j as int] == cv,
                !found ==> forall|i: int| 0 <= i < keys.len() ==> char_views(keys@)[i] != cv,
            decreases keys.len() - j,
        {
            if chars_equal(&keys[j], c) {
                found = true;
                assert(char_views(keys@)[j as int] == keys@[j as int]@);
                break;
            }
            j = j + 1;
        }
        let ghost old_keys = char_views(keys@);
        let ghost old_counts = counts@;
        if found {
            let n = counts[j] + 1;
            counts.set(j, n);
            assert forall|w: Seq<char>| nxt.contains(w) <==> char_views(keys@).contains(w) by {
                if nxt.contains(w) && w != cv {
                    let k = choose|k: int| 0 <= k < nxt.len() && nxt[k] == w;
                    assert(pre[k] == w);
                }
                if w == cv {
                    assert(nxt[t as int] == cv);
                }
            }
        } else {
            proof {
                assert(!pre.contains(cv)) by {
                    if pre.contains(cv) {
                        assert(old_keys.contains(cv));
                        let k = choose|k: int| 0 <= k < old_keys.len() && old_keys[k] == cv;
                        assert(old_keys[k] != cv);
                    }
                }
                lemma_occurrences_absent(pre, cv);
            }
            keys.push(copy_range(c, 0, c.len()));
            counts.push(1);
            assert(char_views(keys@) =~= old_keys.push(cv));
            assert forall|w: Seq<char>| nxt.contains(w) <==> char_views(keys@).contains(w) by {
                if nxt.contains(w) && w != cv {
                    let k = choose|k: int| 0 <= k < nxt.len() && nxt[k] == w;
                    assert(pre[k] == w);
                }
                if w == cv {
                    assert(nxt[t as int] == cv);
                    assert(char_views(keys@)[old_keys.len() as int] == cv);
                }
                if char_views(keys@).contains(w) && w != cv {
                    let k = choose|k: int| 0 <= k < char_views(keys@).len() && char_views(keys@)[k] == w;
                    assert(old_keys[k] == w);
                    assert(pre.contains(w));
                    let m = choose|m: int| 0 <= m < pre.len() && pre[m] == w;
                    assert(nxt[m] == w);
                }
            }
        }
        t = t + 1;
    }
    assert(cs.take(t as int) =~= cs);
    (keys, counts)
}

/// The keys of the most frequent entries, at most five, most frequent first.
fn select_top(counts: &Vec<usize>) -> (top: Vec<usize>)
    ensures
        top.len() <= 5,
        top@.no_duplicates(),
        forall|a: int| 0 <= a < top.len() ==> #[trigger] top@[a] < counts.len(),
        top.len() < 5 ==> forall|x: usize| x < counts.len() ==> top@.contains(x),
        forall|a: int, b: int| 0 <= a < b < top.len() ==> counts@[#[trigger] top@[a] as int] >= counts@[#[trigger] top@[b] as int],
        forall|x: usize, a: int|
            #![trigger top@.contains(x), top@[a]]
            x < counts.len() && !top@.contains(x) && 0 <= a < top.len() ==> counts@[x as int] <= counts@[top@[a] as int],
{
    let mut top: Vec<usize> = Vec::new();
    let mut q: usize = 0;
    while q < counts.len()
        invariant
            q <= counts.len(),
            top.len() <= 5,
            top@.no_duplicates(),
            forall|a: int| 0 <= a < top.len() ==> #[trigger] top@[a] < q,
            top.len() < 5 ==> forall|x: usize| x < q ==> top@.contains(x),
            forall|a: int, b: int| 0 <= a < b < top.len() ==> counts@[#[trigger] top@[a] as int] >= counts@[#[trigger] top@[b] as int],
            forall|x: usize, a: int|
            #![trigger top@.contains(x), top@[a]]
                x < q && !top@.contains(x) && 0 <= a < top.len() ==> counts@[x as int] <= counts@[top@[a] as int],
        decreases counts.len() - q,
    {
        let c = counts[q];
        let mut p: usize = 0;
        while p < top.len() && counts[top[p]] >= c
            invariant
                p <= top.len(),
                forall|a: int| 0 <= a < top.len() ==> #[trigger] top@[a] < q,
                q < counts.len(),
                forall|a: int| 0 <= a < p ==> counts@[#[trigger] top@[a] as int] >= c,
            decreases top.len() - p,
        {
            p = p + 1;
        }
        if p < 5 {
            let ghost old_top = top@;
            top.insert(p, q);
            assert(top@ == old_top.insert(p as int, q));
            assert forall|a: int| 0 <= a < top.len() implies #[trigger] top@[a] < q + 1 by {
                if a < p {
                    assert(top@[a] == old_top[a]);
                } else if a > p {
                    assert(top@[a] == old_top[a - 1]);
                }
            }
            assert forall|a: int, b: int| 0 <= a < b < top.len() implies counts@[#[trigger] top@[a] as int] >= counts@[#[trigger] top@[b] as int] by {
                if a < p && b < p {
                    assert(top@[a] == old_top[a] && top@[b] == old_top[b]);
                } else if a < p && b == p {
                    assert(top@[a] == old_top[a]);
                } else if a < p && b > p {
                    assert(top@[a] == old_top[a] && top@[b] == old_top[b - 1]);
                } else if a == p {
                    assert(top@[b] == old_top[b - 1]);
                    if p < old_top.len() {
                        assert(counts@[old_top[p as int] as int] < c);
                        if b - 1 > p {
                            assert(counts@[old_top[p as int] as int] >= counts@[old_top[b - 1] as int]);
                        }
                    }
                } else {
                    assert(top@[a] == old_top[a - 1] && top@[b] == old_top[b - 1]);
                }
            }
            assert(top@.no_duplicates()) by {
                assert forall|a: int, b: int| 0 <= a < b < top.len() implies top@[a] != top@[b] by {
                    if a < p {
                        assert(top@[a] == old_top[a]);
                    } else if a > p {
                        assert(top@[a] == old_top[a - 1]);
                    }
                    if b < p {
                        assert(top@[b] == old_top[b]);
                    } else if b > p {
                        assert(top@[b] == old_top[b - 1]);
                    }
                }
            }
            let ghost mid = top@;
            if top.len() > 5 {
                top.truncate(5);
                assert(top@ == mid.take(5));
                let ghost dropped = mid[5];
                assert forall|x: usize, a: int|
            #![trigger top@.contains(x), top@[a]]
                    x < q + 1 && !top@.contains(x) && 0 <= a < top.len() implies counts@[x as int] <= counts@[top@[a] as int] by {
                    assert(top@[a] == mid[a]);
                    if x == dropped {
                        assert(counts@[mid[a] as int] >= counts@[mid[5] as int]);
                    } else if x == q {
                        assert(mid[p as int] == q);
                    } else {
                        assert(!old_top.contains(x)) by {
                            if old_top.contains(x) {
                                let k = choose|k: int| 0 <= k < old_top.len() && old_top[k] == x;
                                if k < p {
                                    assert(mid[k] == x);
                                } else {
                                    assert(mid[k + 1] == x);
                                }
                            }
                        }
                        assert(old_top.len() == 5);
                        assert(counts@[x as int] <= counts@[old_top[4] as int]);
                        assert(counts@[old_top[p as int] as int] < c);
                        assert(counts@[old_top[p as int] as int] >= counts@[old_top[4] as int] || p == 4);
                        assert(counts@[mid[a] as int] >= counts@[mid[5] as int]);
                    }
                }
                assert(top@.no_duplicates()) by {
                    assert forall|a: int, b: int| 0 <= a < b < top.len() implies top@[a] != top@[b] by {
                        assert(top@[a] == mid[a] && top@[b] == mid[b]);
                    }
                }
            } else {
                assert forall|x: usize| x < q + 1 implies top@.contains(x) by {
                    if x == q {
                        assert(top@[p as int] == q);
                    } else {
                        assert(old_top.contains(x));
                        let k = choose|k: int| 0 <= k < old_top.len() && old_top[k] == x;
                        if k < p {
                            assert(top@[k] == x);
                        } else {
                            assert(top@[k + 1] == x);
                        }
                    }
                }
            }
        } else {
            assert forall|x: usize, a: int|
            #![trigger top@.contains(x), top@[a]]
                x < q + 1 && !top@.contains(x) && 0 <= a < top.len() implies counts@[x as int] <= counts@[top@[a] as int] by {
                if x == q {
                    assert(counts@[top@[a] as int] >= c);
                }
            }
        }
        q = q + 1;
    }
    top
}

// ---------------------------------------------------------------------------
// Fields and methods
// ---------------------------------------------------------------------------

/// The predefined research fields.
pub open spec fn field_literals() -> Seq<&'static str> {
    seq!["计算机科学", "人工智能", "机器学习", "深度学习", "自然语言处理", "计算机视觉", "数据科学", "生物信息学", "物理学", "数学"]
}

/// The predefined methods.
pub open spec fn method_literals() -> Seq<&'static str> {
    seq!["神经网络", "Transformer", "强化学习", "监督学习", "无监督学习", "实验研究", "理论研究", "统计分析", "数值模拟"]
}

/// The texts of some literals.
pub open spec fn literal_texts(ls: Seq<&'static str>) -> Seq<Seq<char>> {
    ls.map_values(|s: &str| s@)
}

/// Whether a tag is mentioned in a lowercased text: the text contains the
/// tag lowercased.
pub open spec fn mentions(low: Seq<char>, tag: Seq<char>) -> bool {
    contains(low, lowercase(tag))
}

/// The English names of the predefined research fields, in the same order.
pub open spec fn field_alias_literals() -> Seq<&'static str> {
    seq![
        "computer science", "artificial intelligence", "machine learning", "deep learning",
        "natural language processing", "computer vision", "data science", "bioinformatics",
        "physics", "mathematics",
    ]
}

/// The first field mentioned in `low`, by its name or by the English name at
/// the same position, if any.
pub open spec fn first_field(tags: Seq<Seq<char>>, aliases: Seq<Seq<char>>, low: Seq<char>) -> Option<Seq<char>>
    decreases tags.len(),
{
    if tags.len() == 0 || aliases.len() == 0 {
        None
    } else if mentions(low, tags[0]) || mentions(low, aliases[0]) {
        Some(tags[0])
    } else {
        first_field(tags.drop_first(), aliases.drop_first(), low)
    }
}

/// The tags mentioned in `low`, in order.
pub open spec fn all_mentioned(tags: Seq<Seq<char>>, low: Seq<char>) -> Seq<Seq<char>>
    decreases tags.len(),
{
    if tags.len() == 0 {
        seq![]
    } else {
        let rest = all_mentioned(tags.drop_last(), low);
        if mentions(low, tags.last()) {
            rest.push(tags.last())
        } else {
            rest
        }
    }
}

/// Method detection ignores case: a tag is among the methods detected in a
/// lowercased text exactly when it is one of the tags and the text contains
/// the tag lowercased.
pub proof fn law_methods_detected(tags: Seq<Seq<char>>, low: Seq<char>, t: Seq<char>)
    ensures
        all_mentioned(tags, low).contains(t) <==> (tags.contains(t) && contains(low, lowercase(t))),
    decreases tags.len(),
{
    if tags.len() > 0 {
        let pre = tags.drop_last();
        law_methods_detected(pre, low, t);
        let rest = all_mentioned(pre, low);
        if tags.contains(t) && contains(low, lowercase(t)) {
            let j = choose|j: int| 0 <= j < tags.len() && tags[j] == t;
            if j < pre.len() {
                assert(pre[j] == t);
                assert(pre.contains(t));
                let m = choose|m: int| 0 <= m < rest.len() && rest[m] == t;
                if mentions(low, tags.last()) {
                    assert(rest.push(tags.last())[m] == t);
                }
            } else {
                assert(rest.push(tags.last())[rest.len() as int] == t);
            }
        }
        if all_mentioned(tags, low).contains(t) {
            let r = all_mentioned(tags, low);
            let m = choose|m: int| 0 <= m < r.len() && r[m] == t;
            if mentions(low, tags.last()) && m == rest.len() {
                assert(tags[tags.len() - 1] == t);
            } else {
                assert(r[m] == rest[m]);
                assert(rest.contains(t));
                let j = choose|j: int| 0 <= j < pre.len() && pre[j] == t;
                assert(tags[j] == t);
            }
        }
    }
}

/// Method detection keeps the order of the tags: the detected methods are
/// exactly the tags whose lowercase the lowercased text contains, in the
/// order in which the tags are listed.
pub proof fn law_methods_in_order(tags: Seq<Seq<char>>, low: Seq<char>)
    ensures
        all_mentioned(tags, low) == tags.filter(|t: Seq<char>| contains(low, lowercase(t))),
    decreases tags.len(),
{
    let f = |t: Seq<char>| contains(low, lowercase(t));
    reveal(Seq::filter);
    if tags.len() > 0 {
        law_methods_in_order(tags.drop_last(), low);
        assert(tags.filter(f) == (if f(tags.last()) {
            tags.drop_last().filter(f).push(tags.last())
        } else {
            tags.drop_last().filter(f)
        }));
    } else {
        assert(tags.filter(f) =~= seq![]);
    }
}

/// Whether a lowercased text mentions a tag.
fn mentions_exec(low: &Vec<char>, tag: &String) -> (r: bool)
    ensures
        r == mentions(low@, tag@),
{
    let t = lower_chars(&chars_of(tag.as_str()));
    contains_exec(low, &t)
}

/// Tagging service.
pub struct TaggingService {
    config: Config,
    field_tags: Vec<String>,
    field_aliases: Vec<String>,
    method_tags: Vec<String>,
}

impl TaggingService {
    /// The predefined field tags.
    pub closed spec fn fields(&self) -> Seq<Seq<char>> {
        self.field_tags.deep_view()
    }

    /// The English names of the predefined fields.
    pub closed spec fn aliases(&self) -> Seq<Seq<char>> {
        self.field_aliases.deep_view()
    }

    /// The predefined method tags.
    pub closed spec fn methods(&self) -> Seq<Seq<char>> {
        self.method_tags.deep_view()
    }

    /// The configuration.
    pub closed spec fn settings(&self) -> Config {
        self.config
    }

    /// Strings of the given literals.
    fn strings_of(ls: Vec<&'static str>) -> (r: Vec<String>)
        ensures
            r.deep_view() == literal_texts(ls@),
    {
        let mut r: Vec<String> = Vec::new();
        let mut i: usize = 0;
        while i < ls.len()
            invariant
                i <= ls.len(),
                r.deep_view() == literal_texts(ls@).take(i as int),
            decreases ls.len() - i,
        {
            let ghost before = r.deep_view();
            r.push(String::from_str(ls[i]));
            assert(r.deep_view() =~= before.push(ls@[i as int]@));
            i = i + 1;
        }
        assert(literal_texts(ls@).take(i as int) =~= literal_texts(ls@));
        r
    }

    /// A service with the predefined field and method tags.
    pub fn new(config: Config) -> (r: Self)
        ensures
            r.settings() == config,
            r.fields() == literal_texts(field_literals()),
            r.aliases() == literal_texts(field_alias_literals()),
            r.methods() == literal_texts(method_literals()),
    {
        let fl = vec!["计算机科学", "人工智能", "机器学习", "深度学习", "自然语言处理", "计算机视觉", "数据科学", "生物信息学", "物理学", "数学"];
        assert(fl@ =~= field_literals());
        let ml = vec!["神经网络", "Transformer", "强化学习", "监督学习", "无监督学习", "实验研究", "理论研究", "统计分析", "数值模拟"];
        assert(ml@ =~= method_literals());
        let al = vec![
            "computer science", "artificial intelligence", "machine learning", "deep learning",
            "natural language processing", "computer vision", "data science", "bioinformatics",
            "physics", "mathematics",
        ];
        assert(al@ =~= field_alias_literals());
        let field_tags = Self::strings_of(fl);
        let field_aliases = Self::strings_of(al);
        let method_tags = Self::strings_of(ml);
        Self { config, field_tags, field_aliases, method_tags }
    }

    /// The most frequent keywords of a text (see `top_keywords`): its
    /// whitespace-separated words, lowercased, longer than three bytes and
    /// not stop words.
    pub fn extract_keywords(&self, text: &str) -> (r: Vec<String>)
        ensures
            top_keywords(keyword_candidates(text@), r.deep_view()),
    {
        let cands = candidate_list(text);
        let ghost cs = char_views(cands@);
        let (keys, counts) = count_candidates(&cands);
        let ghost kv = char_views(keys@);
        let top = select_top(&counts);
        let mut r: Vec<String> = Vec::new();
        let mut a: usize = 0;
        while a < top.len()
            invariant
                a <= top.len(),
                keys.len() == counts.len(),
                forall|b: int| 0 <= b < top.len() ==> #[trigger] top@[b] < counts.len(),
                kv == char_views(keys@),
                r.deep_view() == top@.take(a as int).map_values(|k: usize| kv[k as int]),
            decreases top.len() - a,
        {
            let ghost before = r.deep_view();
            r.push(string_of(&keys[top[a]]));
            assert(top@.take(a + 1) =~= top@.take(a as int).push(top@[a as int]));
            assert(r.deep_view() =~= before.push(kv[top@[a as int] as int]));
            a = a + 1;
        }
        assert(top@.take(a as int) =~= top@);
        let ghost rv = r.deep_view();
        assert(rv == top@.map_values(|k: usize| kv[k as int]));
        proof {
            assert forall|i: int| 0 <= i < rv.len() implies cs.contains(#[trigger] rv[i]) by {
                assert(kv.contains(kv[top@[i] as int]));
            }
            assert(rv.no_duplicates()) by {
                assert forall|i: int, j: int| 0 <= i < j < rv.len() implies rv[i] != rv[j] by {
                    assert(top@[i] != top@[j]);
                }
            }
            assert forall|i: int, j: int| 0 <= i < j < rv.len() implies occurrences(cs, #[trigger] rv[i]) >= occurrences(cs, #[trigger] rv[j]) by {
                assert(counts@[top@[i] as int] >= counts@[top@[j] as int]);
            }
            assert forall|w: Seq<char>, i: int| #![trigger occurrences(cs, w), rv[i]] cs.contains(w) && !rv.contains(w) && 0 <= i < rv.len() implies occurrences(cs, w) <= occurrences(cs, rv[i]) by {
                assert(kv.contains(w));
                let x = choose|x: int| 0 <= x < kv.len() && kv[x] == w;
                assert(!top@.contains(x as usize)) by {
                    if top@.contains(x as usize) {
                        let b = choose|b: int| 0 <= b < top.len() && top@[b] == x as usize;
                        assert(rv[b] == w);
                    }
                }
                assert(counts@[x] <= counts@[top@[i] as int]);
            }
            if rv.len() < 5 {
                assert forall|w: Seq<char>| cs.contains(w) implies rv.contains(w) by {
                    assert(kv.contains(w));
                    let x = choose|x: int| 0 <= x < kv.len() && kv[x] == w;
                    assert(top@.contains(x as usize));
                    let b = choose|b: int| 0 <= b < top.len() && top@[b] == x as usize;
                    assert(rv[b] == w);
                }
            }
        }
        r
    }

    /// The first predefined field the text mentions by its name or its
    /// English name, compared in lowercase.
    pub fn detect_field(&self, text: &str) -> (r: Option<String>)
        ensures
            match r {
                Some(f) => first_field(self.fields(), self.aliases(), lowercase(text@)) == Some(f@),
                None => first_field(self.fields(), self.aliases(), lowercase(text@)) is None,
            },
    {
        let low = lower_chars(&chars_of(text));
        let mut i: usize = 0;
        while i < self.field_tags.len() && i < self.field_aliases.len()
            invariant
                low@ == lowercase(text@),
                i <= self.field_tags.len(),
                i <= self.field_aliases.len(),
                first_field(self.fields(), self.aliases(), low@) == first_field(
                    self.fields().skip(i as int),
                    self.aliases().skip(i as int),
                    low@,
                ),
            decreases self.field_tags.len() - i,
        {
            assert(self.fields().skip(i as int).drop_first() =~= self.fields().skip(i + 1));
            assert(self.aliases().skip(i as int).drop_first() =~= self.aliases().skip(i + 1));
            assert(self.fields().skip(i as int)[0] == self.fields()[i as int]);
            assert(self.aliases().skip(i as int)[0] == self.aliases()[i as int]);
            if mentions_exec(&low, &self.field_tags[i]) || mentions_exec(&low, &self.field_aliases[i]) {
                return Some(self.field_tags[i].clone());
            }
            i = i + 1;
        }
        None
    }

    /// The predefined methods the text mentions, in order, compared in
    /// lowercase.
    pub fn detect_methods(&self, text: &str) -> (r: Vec<String>)
        ensures
            r.deep_view() == all_mentioned(self.methods(), lowercase(text@)),
    {
        let low = lower_chars(&chars_of(text));
        let mut r: Vec<String> = Vec::new();
        let mut i: usize = 0;
        while i < self.method_tags.len()
            invariant
                low@ == lowercase(text@),
                i <= self.method_tags.len(),
                r.deep_view() == all_mentioned(self.methods().take(i as int), low@),
            decreases self.method_tags.len() - i,
        {
            assert(self.methods().take(i + 1).drop_last() =~= self.methods().take(i as int));
            if mentions_exec(&low, &self.method_tags[i]) {
                let ghost before = r.deep_view();
                r.push(self.method_tags[i].clone());
                assert(r.deep_view() =~= before.push(self.methods()[i as int]));
            }
            i = i + 1;
        }
        assert(self.methods().take(i as int) =~= self.methods());
        r
    }
}

/// The text tags are drawn from: title, a space, abstract.
pub open spec fn tag_source(paper: Paper) -> Seq<char> {
    paper.title@ + " "@ + paper.abstract_text@
}

/// The names of some tags.
pub open spec fn tag_names(ts: Seq<Tag>) -> Seq<Seq<char>> {
    ts.map_values(|t: Tag| t.name@)
}

/// The tags of a text, most confident first: the field it mentions first
/// (confidence 90), the methods it mentions (85), then its most frequent
/// keywords (80, see `top_keywords`).
pub open spec fn tags_for(
    ts: Seq<Tag>,
    field: Option<Seq<char>>,
    methods: Seq<Seq<char>>,
    cands: Seq<Seq<char>>,
) -> bool {
    let nf: int = if field is Some { 1 } else { 0 };
    let nm = methods.len() as int;
    &&& ts.len() >= nf + nm
    &&& field matches Some(f) ==> ts[0].name@ == f && ts[0].confidence_percent == 90
        && ts[0].category == TagCategory::Field
    &&& forall|i: int|
        0 <= i < nm ==> (#[trigger] ts[nf + i]).name@ == methods[i] && ts[nf + i].confidence_percent
            == 85 && ts[nf + i].category == TagCategory::Method
    &&& forall|i: int|
        nf + nm <= i < ts.len() ==> (#[trigger] ts[i]).confidence_percent == 80 && ts[i].category
            == TagCategory::Keyword
    &&& top_keywords(cands, tag_names(ts.skip(nf + nm)))
}

impl TaggingService {
    /// Tags a paper from its title and abstract (see `tags_for`); the tags
    /// come most confident first. Never fails.
    pub fn generate_tags(&self, paper: &Paper) -> (r: Result<Vec<Tag>, Error>)
        ensures
            r matches Ok(ts) && tags_for(
                ts@,
                first_field(self.fields(), self.aliases(), lowercase(tag_source(*paper))),
                all_mentioned(self.methods(), lowercase(tag_source(*paper))),
                keyword_candidates(tag_source(*paper)),
            ),
            r matches Ok(ts) ==> forall|i: int, j: int|
                0 <= i < j < ts@.len() ==> (#[trigger] ts@[i]).confidence_percent >= (#[trigger] ts@[j]).confidence_percent,
    {
        let mut text = paper.title.clone();
        text.append(" ");
        text.append(paper.abstract_text.as_str());
        let ghost src = tag_source(*paper);
        assert(text@ == src);
        let keywords = self.extract_keywords(text.as_str());
        let field = self.detect_field(text.as_str());
        let methods = self.detect_methods(text.as_str());
        let mut tags: Vec<Tag> = Vec::new();
        let ghost fview: Seq<char> = match &field {
            Some(f) => f@,
            None => seq![],
        };
        let nf: usize = match field {
            Some(f) => {
                tags.push(Tag { name: f, confidence_percent: 90, category: TagCategory::Field });
                1
            },
            None => 0,
        };
        let mut i: usize = 0;
        while i < methods.len()
            invariant
                i <= methods.len(),
                tags.len() == nf + i,
                nf == 0 || nf == 1,
                nf == 1 ==> tags@[0].confidence_percent == 90 && tags@[0].category == TagCategory::Field,
                nf == 1 ==> tags@[0].name@ == fview,
                forall|k: int| 0 <= k < i ==> (#[trigger] tags@[nf + k]).name@ == methods.deep_view()[k]
                    && tags@[nf + k].confidence_percent == 85 && tags@[nf + k].category == TagCategory::Method,
            decreases methods.len() - i,
        {
            tags.push(Tag { name: methods[i].clone(), confidence_percent: 85, category: TagCategory::Method });
            i = i + 1;
        }
        let base = tags.len();
        let mut k: usize = 0;
        while k < keywords.len()
            invariant
                k <= keywords.len(),
                base == nf + methods.len(),
                tags.len() == base + k,
                nf == 0 || nf == 1,
                nf == 1 ==> tags@[0].confidence_percent == 90 && tags@[0].category == TagCategory::Field,
                nf == 1 ==> tags@[0].name@ == fview,
                forall|m: int| 0 <= m < methods.len() ==> (#[trigger] tags@[nf + m]).name@ == methods.deep_view()[m]
                    && tags@[nf + m].confidence_percent == 85 && tags@[nf + m].category == TagCategory::Method,
                forall|m: int| base <= m < tags.len() ==> (#[trigger] tags@[m]).confidence_percent == 80
                    && tags@[m].category == TagCategory::Keyword,
                tag_names(tags@.skip(base as int)) == keywords.deep_view().take(k as int),
            decreases keywords.len() - k,
        {
            let ghost before = tags@;
            tags.push(Tag { name: keywords[k].clone(), confidence_percent: 80, category: TagCategory::Keyword });
            assert(tags@.skip(base as int) =~= before.skip(base as int).push(tags@[tags.len() - 1]));
            assert(tag_names(tags@.skip(base as int)) =~= tag_names(before.skip(base as int)).push(keywords.deep_view()[k as int]));
            k = k + 1;
        }
        assert(keywords.deep_view().take(k as int) =~= keywords.deep_view());
        proof {
            assert forall|x: int| 0 <= x < tags@.len() implies (#[trigger] tags@[x]).confidence_percent == (if x < nf { 90u8 } else if x < base { 85u8 } else { 80u8 }) by {
                if x < nf {
                } else if x < base {
                    assert(tags@[nf + (x - nf)] == tags@[x]);
                }
            }
            assert forall|a: int, b: int| 0 <= a < b < tags@.len() implies (#[trigger] tags@[a]).confidence_percent >= (#[trigger] tags@[b]).confidence_percent by {
                assert(tags@[a].confidence_percent == (if a < nf { 90u8 } else if a < base { 85u8 } else { 80u8 }));
                assert(tags@[b].confidence_percent == (if b < nf { 90u8 } else if b < base { 85u8 } else { 80u8 }));
            }
        }
        Ok(tags)
    }
}

/// The start of the request for model-made tags, up to the title.
pub const TAG_PROMPT_HEAD: &'static str = "请为以下文献生成 3-5 个标签。\n\n标题: ";

/// The end of the request for model-made tags, after the authors: the JSON
/// form to answer in and what the categories mean.
pub const TAG_PROMPT_TAIL: &'static str = "\n\n请以 JSON 格式返回，格式如下：\n{\n  \"tags\": [\n    {\"name\": \"标签名\", \"confidence\": 0.95, \"category\": \"field\"},\n    {\"name\": \"标签名\", \"confidence\": 0.90, \"category\": \"method\"}\n  ]\n}\n\n类别说明：\n- field: 研究领域\n- method: 研究方法\n- application: 应用领域\n- keyword: 关键词\n";

/// The request for model-made tags of a paper: its title, abstract and
/// authors (joined by ", ") between the fixed head and tail.
pub open spec fn tag_prompt(p: Paper) -> Seq<char> {
    TAG_PROMPT_HEAD@ + p.title@ + "\n摘要: "@ + p.abstract_text@ + "\n作者: "@ + join(
        p.authors.deep_view(),
        ", "@,
    ) + TAG_PROMPT_TAIL@
}

impl TaggingService {
    /// The request that asks the model for 3 to 5 tags of a paper (see
    /// `tag_prompt`); sending it and reading the JSON answer is done by the
    /// application.
    pub fn llm_tag_prompt(&self, paper: &Paper) -> (r: String)
        ensures
            r@ == tag_prompt(*paper),
    {
        let mut r = String::from_str(TAG_PROMPT_HEAD);
        r.append(paper.title.as_str());
        r.append("\n摘要: ");
        r.append(paper.abstract_text.as_str());
        r.append("\n作者: ");
        let authors = join_strings(&paper.authors, ", ");
        r.append(authors.as_str());
        r.append(TAG_PROMPT_TAIL);
        r
    }

    /// The configuration the service was made with.
    pub fn config(&self) -> (r: &Config)
        ensures
            *r == self.settings(),
    {
        &self.config
    }
}

} // verus!
