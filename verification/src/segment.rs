//! Greedy text packing shared by the paragraph, line and sentence chunkers.
//!
//! A text is cut into pieces (paragraphs, lines or sentences); the pieces are
//! packed, in order, into chunks whose piece content stays within a size
//! limit, the pieces of one chunk being joined by a separator. A paragraph
//! longer than the limit is cut on its own, preferably just after a sentence
//! end, into pieces of at most the limit.
use vstd::prelude::*;
use crate::text::{
    copy_range, is_space, is_space_char, literal, push_all, range_texts, ranges_within, split_by,
    split_ranges, string_of, trim, trim_bounds, chars_of, contains, matches_at, split_from,
    lemma_split_from_nonempty,
};

verus! {

broadcast use vstd::seq_lib::group_seq_properties;

// ---------------------------------------------------------------------------
// Cutting a long paragraph
// ---------------------------------------------------------------------------

/// Characters after which a long paragraph may be cut.
pub open spec fn is_break(c: char) -> bool {
    c == '.' || c == '!' || c == '?' || c == '\n'
}

/// The position just after the last break character of `c[start..end]`.
pub open spec fn last_break(c: Seq<char>, start: int, end: int) -> Option<int>
    decreases end - start,
{
    if end <= start {
        None
    } else if is_break(c[end - 1]) {
        Some(end)
    } else {
        last_break(c, start, end - 1)
    }
}

/// A found cut position lies in `(start, end]`.
pub proof fn lemma_last_break_bounds(c: Seq<char>, start: int, end: int)
    ensures
        last_break(c, start, end) matches Some(p) ==> start < p <= end,
    decreases end - start,
{
    if end <= start {
    } else if is_break(c[end - 1]) {
    } else {
        lemma_last_break_bounds(c, start, end - 1);
    }
}

/// Where the piece that starts at `start` ends: the window of `max`
/// characters is cut after its last break character, unless the window
/// reaches the end of the text or holds no break character.
pub open spec fn cut_end(c: Seq<char>, start: int, max: nat) -> int {
    let end = if start + max < c.len() {
        start + max
    } else {
        c.len() as int
    };
    if end < c.len() {
        match last_break(c, start, end) {
            Some(p) => p,
            None => end,
        }
    } else {
        end
    }
}

/// Where the next piece starts: `overlap` characters before the cut, so that
/// consecutive pieces share them, as long as that is still after the start
/// of the piece just cut; otherwise at the cut.
pub open spec fn cut_next(start: int, pos: int, overlap: nat) -> int {
    if pos - overlap > start {
        pos - overlap
    } else {
        pos
    }
}

/// The pieces of `c[start..]` for a limit `max` and an overlap of `overlap`.
pub open spec fn cut_from(c: Seq<char>, start: int, max: nat, overlap: nat) -> Seq<Seq<char>>
    decreases c.len() - start,
{
    if max == 0 || start < 0 || start >= c.len() {
        seq![]
    } else {
        let pos = cut_end(c, start, max);
        let piece = c.subrange(start, pos);
        if start + max >= c.len() {
            seq![piece]
        } else {
            proof {
                lemma_last_break_bounds(c, start, start + max);
            }
            seq![piece] + cut_from(c, cut_next(start, pos, overlap), max, overlap)
        }
    }
}

/// The pieces a paragraph longer than the limit is cut into.
pub open spec fn cut_paragraph(c: Seq<char>, max: nat, overlap: nat) -> Seq<Seq<char>> {
    cut_from(c, 0, max, overlap)
}

/// The character sequences held by a vector of character vectors.
pub open spec fn char_views(v: Seq<Vec<char>>) -> Seq<Seq<char>> {
    v.map_values(|x: Vec<char>| x@)
}

/// Cuts a paragraph into pieces of at most `max` characters, each ending,
/// where the window allows, just after a sentence end; each next piece
/// starts `overlap` characters before the previous one ends, when that still
/// moves forward.
pub fn cut_paragraph_exec(c: &Vec<char>, max: usize, overlap: usize) -> (r: Vec<Vec<char>>)
    requires
        max > 0,
    ensures
        char_views(r@) == cut_paragraph(c@, max as nat, overlap as nat),
{
    let len = c.len();
    let mut r: Vec<Vec<char>> = Vec::new();
    let mut start: usize = 0;
    while start < len
        invariant_except_break
            len == c.len(),
            max > 0,
            start <= len,
            char_views(r@) + cut_from(c@, start as int, max as nat, overlap as nat)
                == cut_paragraph(c@, max as nat, overlap as nat),
        ensures
            char_views(r@) == cut_paragraph(c@, max as nat, overlap as nat),
        decreases len - start,
    {
        let end = if max >= len - start {
            len
        } else {
            start + max
        };
        let mut split_pos = end;
        if end < len {
            let mut i = end;
            while i > start
                invariant_except_break
                    start <= i <= end < len == c.len(),
                    split_pos == end,
                    last_break(c@, start as int, end as int) == last_break(
                        c@,
                        start as int,
                        i as int,
                    ),
                ensures
                    split_pos == match last_break(c@, start as int, end as int) {
                        Some(p) => p,
                        None => end as int,
                    },
                decreases i - start,
            {
                let ch = c[i - 1];
                if ch == '.' || ch == '!' || ch == '?' || ch == '\n' {
                    split_pos = i;
                    break;
                }
                i = i - 1;
            }
            proof {
                lemma_last_break_bounds(c@, start as int, end as int);
            }
        }
        assert(split_pos == cut_end(c@, start as int, max as nat));
        proof {
            lemma_last_break_bounds(c@, start as int, end as int);
        }
        let piece = copy_range(c, start, split_pos);
        let ghost before = r@;
        r.push(piece);
        assert(char_views(r@) =~= char_views(before).push(c@.subrange(start as int, split_pos as int)));
        let next = if split_pos - start > overlap {
            split_pos - overlap
        } else {
            split_pos
        };
        if end >= len {
            assert(start + max >= len);
            assert(char_views(r@) =~= char_views(before) + cut_from(c@, start as int, max as nat, overlap as nat));
            break;
        }
        assert(end < len);
        assert(char_views(r@) + cut_from(c@, next as int, max as nat, overlap as nat) =~= char_views(before) + cut_from(c@, start as int, max as nat, overlap as nat));
        start = next;
    }
    r
}

// ---------------------------------------------------------------------------
// Greedy packing
// ---------------------------------------------------------------------------

/// The packer's state: the chunks already closed, the chunk being filled, and
/// how many piece characters it holds (separators not counted).
pub struct Packing {
    pub chunks: Seq<Seq<char>>,
    pub current: Seq<char>,
    pub size: nat,
}

/// The state before any piece.
pub open spec fn empty_packing() -> Packing {
    Packing { chunks: seq![], current: seq![], size: 0 }
}

/// Closes the chunk being filled, if it holds anything.
pub open spec fn flush(st: Packing) -> Packing {
    if st.current.len() > 0 {
        Packing { chunks: st.chunks.push(st.current), current: seq![], size: 0 }
    } else {
        st
    }
}

/// `a` and `b` joined by `sep`, or `b` alone when `a` is empty.
pub open spec fn join2(a: Seq<char>, sep: Seq<char>, b: Seq<char>) -> Seq<char> {
    if a.len() > 0 {
        a + sep + b
    } else {
        b
    }
}

/// Adds a piece: when it would push the chunk being filled past `max`, that
/// chunk is closed first; the piece then joins the chunk being filled.
pub open spec fn merge_step(st: Packing, piece: Seq<char>, max: nat, sep: Seq<char>) -> Packing {
    let f = if st.size + piece.len() > max && st.current.len() > 0 {
        flush(st)
    } else {
        st
    };
    Packing { chunks: f.chunks, current: join2(f.current, sep, piece), size: f.size + piece.len() }
}

/// The chunks a final state yields: the closed chunks and, if it holds
/// anything, the chunk being filled.
pub open spec fn finish(st: Packing) -> Seq<Seq<char>> {
    flush(st).chunks
}

/// The separator between the paragraphs of a text and of a chunk.
pub open spec fn para_sep() -> Seq<char> {
    seq!['\n', '\n']
}

/// Adds one piece of the text split at blank lines: it is trimmed and skipped
/// when empty; a paragraph over the limit closes the chunk being filled and
/// is cut on its own; any other is merged.
pub open spec fn para_step(st: Packing, piece: Seq<char>, max: nat, overlap: nat) -> Packing {
    let para = trim(piece);
    if para.len() == 0 {
        st
    } else if para.len() > max {
        let f = flush(st);
        Packing {
            chunks: f.chunks + cut_paragraph(para, max, overlap),
            current: f.current,
            size: f.size,
        }
    } else {
        merge_step(st, para, max, para_sep())
    }
}

/// The state after the first `pieces.len()` pieces.
pub open spec fn pack_paragraphs(pieces: Seq<Seq<char>>, max: nat, overlap: nat) -> Packing
    decreases pieces.len(),
{
    if pieces.len() == 0 {
        empty_packing()
    } else {
        para_step(pack_paragraphs(pieces.drop_last(), max, overlap), pieces.last(), max, overlap)
    }
}

/// The pieces of a text split at blank lines (`"\n\n"`).
pub open spec fn para_pieces(text: Seq<char>) -> Seq<Seq<char>> {
    split_by(text, para_sep())
}

/// The text holds a paragraph: a piece between blank lines that is not all
/// whitespace.
pub open spec fn has_paragraph(text: Seq<char>) -> bool {
    exists|k: int| 0 <= k < para_pieces(text).len() && #[trigger] trim(para_pieces(text)[k]).len() > 0
}

/// Paragraph chunking: the text split at blank lines, each piece trimmed,
/// empty ones dropped, paragraphs over the limit cut on their own and the
/// others packed greedily, joined by a blank line.
pub open spec fn paragraph_chunks(text: Seq<char>, max: nat, overlap: nat) -> Seq<Seq<char>> {
    finish(pack_paragraphs(para_pieces(text), max, overlap))
}

/// The exec view of a packing state.
pub open spec fn packing_of(chunks: Seq<Vec<char>>, current: Seq<char>, size: usize) -> Packing {
    Packing { chunks: char_views(chunks), current: current, size: size as nat }
}

/// Closes the chunk being filled (executable `flush`).
fn flush_exec(chunks: &mut Vec<Vec<char>>, current: &mut Vec<char>, size: &mut usize)
    ensures
        packing_of(final(chunks)@, final(current)@, *final(size)) == flush(
            packing_of(old(chunks)@, old(current)@, *old(size)),
        ),
{
    if current.len() > 0 {
        let c = copy_range(current, 0, current.len());
        let ghost before = chunks@;
        assert(c@ =~= current@);
        chunks.push(c);
        assert(char_views(chunks@) =~= char_views(before).push(old(current)@));
        *current = Vec::new();
        *size = 0;
    }
}

/// Merges a piece (executable `merge_step`).
fn merge_exec(
    chunks: &mut Vec<Vec<char>>,
    current: &mut Vec<char>,
    size: &mut usize,
    piece: &Vec<char>,
    max: usize,
    sep: &Vec<char>,
)
    requires
        *old(size) <= max || old(current)@.len() > 0,
        old(current)@.len() == 0 ==> *old(size) == 0,
        piece@.len() > 0,
    ensures
        packing_of(final(chunks)@, final(current)@, *final(size)) == merge_step(
            packing_of(old(chunks)@, old(current)@, *old(size)),
            piece@,
            max as nat,
            sep@,
        ),
        final(current)@.len() > 0,
        *final(size) <= max || final(current)@ == piece@,
{
    let over = *size > max || piece.len() > max - *size;
    if over && current.len() > 0 {
        flush_exec(chunks, current, size);
    }
    if current.len() > 0 {
        push_all(current, sep);
    }
    push_all(current, piece);
    *size = *size + piece.len();
}

/// Packs the paragraphs of `text` (see `paragraph_chunks`).
pub fn paragraph_chunks_exec(text: &str, max: usize, overlap: usize) -> (r: Vec<Vec<char>>)
    requires
        max > 0 || !has_paragraph(text@),
    ensures
        char_views(r@) == paragraph_chunks(text@, max as nat, overlap as nat),
{
    let chars = chars_of(text);
    let sep = literal("\n\n");
    proof {
        reveal_strlit("\n\n");
    }
    assert(sep@ =~= para_sep());
    let ranges = split_ranges(&chars, &sep);
    let ghost pieces = para_pieces(text@);
    let mut chunks: Vec<Vec<char>> = Vec::new();
    let mut current: Vec<char> = Vec::new();
    let mut size: usize = 0;
    let mut k: usize = 0;
    assert(char_views(chunks@) =~= seq![]);
    assert(pieces.take(0) =~= seq![]);
    while k < ranges.len()
        invariant
            chars@ == text@,
            sep@ == para_sep(),
            ranges_within(ranges@, chars.len() as nat),
            range_texts(chars@, ranges@) == pieces,
            pieces == para_pieces(text@),
            max > 0 || !has_paragraph(text@),
            k <= ranges.len(),
            size <= max,
            current@.len() == 0 ==> size == 0,
            packing_of(chunks@, current@, size) == pack_paragraphs(
                pieces.take(k as int),
                max as nat,
                overlap as nat,
            ),
        decreases ranges.len() - k,
    {
        let (lo, hi) = ranges[k];
        let (a, b) = trim_bounds(&chars, lo, hi);
        assert(pieces[k as int] == chars@.subrange(lo as int, hi as int));
        assert(pieces.take(k + 1).drop_last() =~= pieces.take(k as int));
        if a < b {
            let para = copy_range(&chars, a, b);
            if b - a > max {
                assert(trim(pieces[k as int]).len() > 0);
                flush_exec(&mut chunks, &mut current, &mut size);
                let cut = cut_paragraph_exec(&para, max, overlap);
                let mut j: usize = 0;
                let ghost base = chunks@;
                while j < cut.len()
                    invariant
                        j <= cut.len(),
                        char_views(chunks@) == char_views(base) + char_views(cut@).take(j as int),
                    decreases cut.len() - j,
                {
                    let piece = copy_range(&cut[j], 0, cut[j].len());
                    assert(piece@ =~= cut@[j as int]@);
                    let ghost before2 = chunks@;
                    chunks.push(piece);
                    assert(char_views(chunks@) =~= char_views(before2).push(cut@[j as int]@));
                    assert(char_views(cut@).take(j + 1) =~= char_views(cut@).take(j as int).push(cut@[j as int]@));
                    assert(char_views(chunks@) =~= char_views(base) + char_views(cut@).take(j + 1));
                    j = j + 1;
                }
                assert(char_views(cut@).take(j as int) =~= char_views(cut@));
            } else {
                merge_exec(&mut chunks, &mut current, &mut size, &para, max, &sep);
            }
        }
        k = k + 1;
    }
    assert(pieces.take(k as int) =~= pieces);
    flush_exec(&mut chunks, &mut current, &mut size);
    chunks
}

// ---------------------------------------------------------------------------
// Line packing
// ---------------------------------------------------------------------------

/// Adds one line of the text: trimmed, skipped when empty, merged otherwise.
pub open spec fn line_step(st: Packing, piece: Seq<char>, max: nat) -> Packing {
    let line = trim(piece);
    if line.len() == 0 {
        st
    } else {
        merge_step(st, line, max, seq!['\n'])
    }
}

/// The state after the first `pieces.len()` lines.
pub open spec fn pack_lines(pieces: Seq<Seq<char>>, max: nat) -> Packing
    decreases pieces.len(),
{
    if pieces.len() == 0 {
        empty_packing()
    } else {
        line_step(pack_lines(pieces.drop_last(), max), pieces.last(), max)
    }
}

/// Line chunking: the text split at line feeds, each piece trimmed, empty
/// ones dropped, the rest packed greedily and joined by a line feed. A line
/// longer than the limit forms a chunk of its own.
pub open spec fn line_chunks(text: Seq<char>, max: nat) -> Seq<Seq<char>> {
    finish(pack_lines(split_by(text, seq!['\n']), max))
}

/// Packs the lines of `text` (see `line_chunks`).
pub fn line_chunks_exec(text: &str, max: usize) -> (r: Vec<Vec<char>>)
    ensures
        char_views(r@) == line_chunks(text@, max as nat),
{
    let chars = chars_of(text);
    let sep = literal("\n");
    proof {
        reveal_strlit("\n");
    }
    assert(sep@ =~= seq!['\n']);
    let ranges = split_ranges(&chars, &sep);
    let ghost pieces = split_by(text@, seq!['\n']);
    let mut chunks: Vec<Vec<char>> = Vec::new();
    let mut current: Vec<char> = Vec::new();
    let mut size: usize = 0;
    let mut k: usize = 0;
    assert(char_views(chunks@) =~= seq![]);
    assert(pieces.take(0) =~= seq![]);
    while k < ranges.len()
        invariant
            chars@ == text@,
            sep@ == seq!['\n'],
            ranges_within(ranges@, chars.len() as nat),
            range_texts(chars@, ranges@) == pieces,
            pieces == split_by(text@, seq!['\n']),
            k <= ranges.len(),
            size <= max || current@.len() > 0,
            current@.len() == 0 ==> size == 0,
            packing_of(chunks@, current@, size) == pack_lines(pieces.take(k as int), max as nat),
        decreases ranges.len() - k,
    {
        let (lo, hi) = ranges[k];
        let (a, b) = trim_bounds(&chars, lo, hi);
        assert(pieces[k as int] == chars@.subrange(lo as int, hi as int));
        assert(pieces.take(k + 1).drop_last() =~= pieces.take(k as int));
        if a < b {
            let line = copy_range(&chars, a, b);
            merge_exec(&mut chunks, &mut current, &mut size, &line, max, &sep);
        }
        k = k + 1;
    }
    assert(pieces.take(k as int) =~= pieces);
    flush_exec(&mut chunks, &mut current, &mut size);
    chunks
}

// ---------------------------------------------------------------------------
// Sentence packing
// ---------------------------------------------------------------------------

/// Characters that end a sentence.
pub open spec fn is_terminal(c: char) -> bool {
    c == '.' || c == '?' || c == '!'
}

/// The first position at or after `j` that is not whitespace (or the end).
pub open spec fn skip_space(c: Seq<char>, j: int) -> int
    decreases c.len() - j,
{
    if 0 <= j < c.len() && is_space(c[j]) {
        skip_space(c, j + 1)
    } else {
        j
    }
}

/// `skip_space` never moves back, and stays inside the text.
pub proof fn lemma_skip_space(c: Seq<char>, j: int)
    ensures
        j <= skip_space(c, j),
        0 <= j <= c.len() ==> skip_space(c, j) <= c.len(),
    decreases c.len() - j,
{
    if 0 <= j < c.len() && is_space(c[j]) {
        lemma_skip_space(c, j + 1);
    }
}

/// The sentences of `c[start..]`, scanning from `i`: each runs through a
/// sentence end and the whitespace after it; text after the last sentence
/// end belongs to no sentence.
pub open spec fn sentences_from(c: Seq<char>, start: int, i: int) -> Seq<Seq<char>>
    decreases c.len() - i,
{
    if i < 0 || i >= c.len() {
        seq![]
    } else if is_terminal(c[i]) {
        let e = skip_space(c, i + 1);
        proof {
            lemma_skip_space(c, i + 1);
        }
        seq![c.subrange(start, e)] + sentences_from(c, e, e)
    } else {
        sentences_from(c, start, i + 1)
    }
}

/// The sentences of a text.
pub open spec fn sentences(c: Seq<char>) -> Seq<Seq<char>> {
    sentences_from(c, 0, 0)
}

/// The state after merging all `pieces`.
pub open spec fn pack_merge(pieces: Seq<Seq<char>>, max: nat, sep: Seq<char>) -> Packing
    decreases pieces.len(),
{
    if pieces.len() == 0 {
        empty_packing()
    } else {
        merge_step(pack_merge(pieces.drop_last(), max, sep), pieces.last(), max, sep)
    }
}

/// Sentence packing without carried context: the sentences of the text
/// packed greedily, joined by a space.
pub open spec fn sentence_chunks(text: Seq<char>, max: nat) -> Seq<Seq<char>> {
    finish(pack_merge(sentences(text), max, seq![' ']))
}

/// The last `overlap` characters of a chunk (all of a shorter one): the
/// context the next chunk starts with.
pub open spec fn tail_of(c: Seq<char>, overlap: nat) -> Seq<char> {
    if c.len() <= overlap {
        c
    } else {
        c.subrange(c.len() - overlap, c.len() as int)
    }
}

/// Closes the chunk being filled, if it holds anything, and starts the next
/// one with its tail.
pub open spec fn carry_flush(st: Packing, overlap: nat) -> Packing {
    if st.current.len() > 0 {
        let t = tail_of(st.current, overlap);
        Packing { chunks: st.chunks.push(st.current), current: t, size: t.len() }
    } else {
        st
    }
}

/// Adds a sentence: when it would push the chunk being filled past `max`,
/// that chunk is closed first and the next starts with its tail; the
/// sentence then joins the chunk being filled, after a space.
pub open spec fn sentence_step(st: Packing, piece: Seq<char>, max: nat, overlap: nat) -> Packing {
    let f = if st.size + piece.len() > max && st.current.len() > 0 {
        carry_flush(st, overlap)
    } else {
        st
    };
    Packing { chunks: f.chunks, current: join2(f.current, seq![' '], piece), size: f.size + piece.len() }
}

/// The state after adding all sentences.
pub open spec fn pack_sentences(pieces: Seq<Seq<char>>, max: nat, overlap: nat) -> Packing
    decreases pieces.len(),
{
    if pieces.len() == 0 {
        empty_packing()
    } else {
        sentence_step(pack_sentences(pieces.drop_last(), max, overlap), pieces.last(), max, overlap)
    }
}

/// Sentence chunking with context: the sentences of the text packed
/// greedily, joined by a space, each chunk after the first starting with
/// the last `overlap` characters of the one before.
pub open spec fn overlapping_sentence_chunks(text: Seq<char>, max: nat, overlap: nat) -> Seq<Seq<char>> {
    finish(pack_sentences(sentences(text), max, overlap))
}

/// Adds a sentence (executable `sentence_step`).
fn sentence_step_exec(
    chunks: &mut Vec<Vec<char>>,
    current: &mut Vec<char>,
    size: &mut usize,
    piece: &Vec<char>,
    max: usize,
    overlap: usize,
)
    requires
        *old(size) <= old(current)@.len(),
    ensures
        packing_of(final(chunks)@, final(current)@, *final(size)) == sentence_step(
            packing_of(old(chunks)@, old(current)@, *old(size)),
            piece@,
            max as nat,
            overlap as nat,
        ),
        *final(size) <= final(current)@.len(),
{
    let over = *size > max || piece.len() > max - *size;
    if over && current.len() > 0 {
        let c = copy_range(current, 0, current.len());
        assert(c@ =~= current@);
        let ghost before = chunks@;
        let n = current.len();
        let t = if n <= overlap {
            copy_range(current, 0, n)
        } else {
            copy_range(current, n - overlap, n)
        };
        assert(n <= overlap ==> t@ =~= current@);
        chunks.push(c);
        assert(char_views(chunks@) =~= char_views(before).push(old(current)@));
        *size = t.len();
        *current = t;
    }
    let ghost mid = current@;
    if current.len() > 0 {
        current.push(' ');
    }
    push_all(current, piece);
    assert(current@ =~= join2(mid, seq![' '], piece@));
    let total = current.len();
    assert(*size + piece@.len() <= total);
    *size = *size + piece.len();
}

/// Packs the sentences of `text` (see `overlapping_sentence_chunks`).
pub fn sentence_chunks_exec(text: &str, max: usize, overlap: usize) -> (r: Vec<Vec<char>>)
    ensures
        char_views(r@) == overlapping_sentence_chunks(text@, max as nat, overlap as nat),
{
    let chars = chars_of(text);
    let len = chars.len();
    let mut chunks: Vec<Vec<char>> = Vec::new();
    let mut current: Vec<char> = Vec::new();
    let mut size: usize = 0;
    let mut sentence_start: usize = 0;
    let mut sentence_end: usize = 0;
    let ghost mut done: Seq<Seq<char>> = seq![];
    assert(char_views(chunks@) =~= seq![]);
    while sentence_end < len
        invariant
            len == chars.len(),
            chars@ == text@,
            sentence_start <= sentence_end <= len,
            size <= current@.len(),
            done + sentences_from(chars@, sentence_start as int, sentence_end as int) == sentences(
                chars@,
            ),
            packing_of(chunks@, current@, size) == pack_sentences(done, max as nat, overlap as nat),
        decreases len - sentence_end,
    {
        let c = chars[sentence_end];
        if c == '.' || c == '?' || c == '!' {
            let ghost i = sentence_end as int;
            sentence_end = sentence_end + 1;
            while sentence_end < len && is_space_char(chars[sentence_end])
                invariant
                    len == chars.len(),
                    i < sentence_end <= len,
                    skip_space(chars@, i + 1) == skip_space(chars@, sentence_end as int),
                decreases len - sentence_end,
            {
                sentence_end = sentence_end + 1;
            }
            assert(sentence_end == skip_space(chars@, i + 1));
            let sentence = copy_range(&chars, sentence_start, sentence_end);
            proof {
                assert((done + sentences_from(chars@, sentence_start as int, i)) == (done.push(
                    sentence@,
                ) + sentences_from(chars@, sentence_end as int, sentence_end as int)));
                assert(done.push(sentence@).drop_last() =~= done);
                done = done.push(sentence@);
            }
            sentence_step_exec(&mut chunks, &mut current, &mut size, &sentence, max, overlap);
            sentence_start = sentence_end;
        } else {
            sentence_end = sentence_end + 1;
        }
    }
    assert(done =~= sentences(chars@));
    flush_exec(&mut chunks, &mut current, &mut size);
    chunks
}

// ---------------------------------------------------------------------------
// Laws
// ---------------------------------------------------------------------------

/// Pieces joined by a separator (`[T]::join`).
pub open spec fn join(ps: Seq<Seq<char>>, sep: Seq<char>) -> Seq<char>
    decreases ps.len(),
{
    if ps.len() == 0 {
        seq![]
    } else if ps.len() == 1 {
        ps[0]
    } else {
        join(ps.drop_last(), sep) + sep + ps.last()
    }
}

/// Strings joined by a separator.
pub fn join_strings(parts: &Vec<String>, sep: &str) -> (r: String)
    ensures
        r@ == join(parts.deep_view(), sep@),
{
    let mut r = String::new();
    let mut k: usize = 0;
    while k < parts.len()
        invariant
            k <= parts@.len(),
            r@ == join(parts.deep_view().take(k as int), sep@),
        decreases parts@.len() - k,
    {
        let ghost before = r@;
        let ghost ps = parts.deep_view();
        if k > 0 {
            r.append(sep);
        }
        r.append(parts[k].as_str());
        assert(ps.take(k + 1).drop_last() =~= ps.take(k as int));
        if k > 0 {
            assert(r@ =~= before + sep@ + ps[k as int]);
        } else {
            assert(r@ =~= ps[0]);
        }
        k = k + 1;
    }
    assert(parts.deep_view().take(k as int) =~= parts.deep_view());
    r
}

/// The strings of some character vectors.
pub fn strings_of_chars(parts: &Vec<Vec<char>>) -> (r: Vec<String>)
    ensures
        r.deep_view() == char_views(parts@),
{
    let mut r: Vec<String> = Vec::new();
    let mut i: usize = 0;
    while i < parts.len()
        invariant
            i <= parts.len(),
            r.deep_view() == char_views(parts@).take(i as int),
        decreases parts.len() - i,
    {
        let ghost before = r.deep_view();
        r.push(string_of(&parts[i]));
        assert(r.deep_view() =~= before.push(parts@[i as int]@));
        i = i + 1;
    }
    assert(char_views(parts@).take(i as int) =~= char_views(parts@));
    r
}

/// Cuts one long paragraph (see `cut_paragraph`); a zero limit is only
/// admitted for an empty paragraph, as cutting would otherwise never end.
pub fn split_paragraph(paragraph: &str, max: usize, overlap: usize) -> (r: Vec<String>)
    requires
        max > 0 || paragraph@.len() == 0,
    ensures
        r.deep_view() == cut_paragraph(paragraph@, max as nat, overlap as nat),
{
    let c = chars_of(paragraph);
    if c.len() == 0 {
        let r: Vec<String> = Vec::new();
        assert(cut_paragraph(c@, max as nat, overlap as nat) =~= Seq::<Seq<char>>::empty()) by {
            reveal_with_fuel(cut_from, 2);
        }
        assert(r.deep_view() =~= Seq::<Seq<char>>::empty());
        return r;
    }
    let parts = cut_paragraph_exec(&c, max, overlap);
    strings_of_chars(&parts)
}

/// The total number of characters of some pieces.
pub open spec fn total_len(ps: Seq<Seq<char>>) -> nat
    decreases ps.len(),
{
    if ps.len() == 0 {
        0
    } else {
        total_len(ps.drop_last()) + ps.last().len()
    }
}

/// The trimmed pieces that are not empty.
pub open spec fn nonblank(pieces: Seq<Seq<char>>) -> Seq<Seq<char>>
    decreases pieces.len(),
{
    if pieces.len() == 0 {
        seq![]
    } else {
        let rest = nonblank(pieces.drop_last());
        let p = trim(pieces.last());
        if p.len() > 0 {
            rest.push(p)
        } else {
            rest
        }
    }
}

/// The paragraphs of a text: its pieces between blank lines, trimmed, the
/// empty ones dropped.
pub open spec fn paragraphs(text: Seq<char>) -> Seq<Seq<char>> {
    nonblank(para_pieces(text))
}

/// The lines of a text as `line_chunks` sees them: trimmed, the empty ones
/// dropped.
pub open spec fn nonblank_lines(text: Seq<char>) -> Seq<Seq<char>> {
    nonblank(split_by(text, seq!['\n']))
}

/// `c` is made of the non-empty pieces `qs`, joined by `sep`, that together
/// stay within `max` characters unless there is a single one.
pub open spec fn packed_by(qs: Seq<Seq<char>>, c: Seq<char>, max: nat, sep: Seq<char>) -> bool {
    &&& qs.len() > 0
    &&& forall|j: int| 0 <= j < qs.len() ==> (#[trigger] qs[j]).len() > 0
    &&& join(qs, sep) == c
    &&& (total_len(qs) <= max || qs.len() == 1)
}

/// A chunk made of one or more pieces that together stay within the limit,
/// or of a single piece.
pub open spec fn packed(c: Seq<char>, max: nat, sep: Seq<char>) -> bool {
    exists|qs: Seq<Seq<char>>| packed_by(qs, c, max, sep)
}

/// A chunk made of one or more pieces that together stay within the limit.
pub open spec fn packed_within(c: Seq<char>, max: nat, sep: Seq<char>) -> bool {
    exists|qs: Seq<Seq<char>>| packed_by(qs, c, max, sep) && total_len(qs) <= max
}

/// A chunk's shape, strict or not about the limit.
pub open spec fn packed_as(c: Seq<char>, max: nat, sep: Seq<char>, strict: bool) -> bool {
    if strict {
        packed_within(c, max, sep)
    } else {
        packed(c, max, sep)
    }
}

/// What holds of every packing state along a run.
pub open spec fn packing_inv(st: Packing, max: nat, sep: Seq<char>, strict: bool) -> bool {
    &&& forall|i: int| 0 <= i < st.chunks.len() ==> packed_as(#[trigger] st.chunks[i], max, sep, strict)
    &&& st.current.len() == 0 ==> st.size == 0
    &&& st.current.len() > 0 ==> exists|qs: Seq<Seq<char>>|
        packed_by(qs, st.current, max, sep) && total_len(qs) == st.size && (strict ==> total_len(qs) <= max)
}

proof fn lemma_join_push(ps: Seq<Seq<char>>, sep: Seq<char>, x: Seq<char>)
    requires
        ps.len() > 0,
    ensures
        join(ps.push(x), sep) == join(ps, sep) + sep + x,
{
    assert(ps.push(x).drop_last() =~= ps);
}

proof fn lemma_total_push(ps: Seq<Seq<char>>, x: Seq<char>)
    ensures
        total_len(ps.push(x)) == total_len(ps) + x.len(),
{
    assert(ps.push(x).drop_last() =~= ps);
}

proof fn lemma_single(x: Seq<char>, max: nat, sep: Seq<char>)
    requires
        x.len() > 0,
    ensures
        packed_by(seq![x], x, max, sep),
        total_len(seq![x]) == x.len(),
{
    assert(seq![x].drop_last() =~= Seq::<Seq<char>>::empty());
    assert(total_len(Seq::<Seq<char>>::empty()) == 0);
    assert(seq![x].last() == x);
}

/// Closing the chunk being filled keeps the invariant.
proof fn lemma_flush_inv(st: Packing, max: nat, sep: Seq<char>, strict: bool)
    requires
        packing_inv(st, max, sep, strict),
    ensures
        packing_inv(flush(st), max, sep, strict),
        flush(st).current.len() == 0,
        flush(st).chunks.len() == st.chunks.len() + (if st.current.len() > 0 { 1int } else { 0int }),
{
    if st.current.len() > 0 {
        let qs = choose|qs: Seq<Seq<char>>|
            packed_by(qs, st.current, max, sep) && total_len(qs) == st.size && (strict
                ==> total_len(qs) <= max);
        let f = flush(st);
        assert forall|i: int| 0 <= i < f.chunks.len() implies packed_as(#[trigger] f.chunks[i], max, sep, strict) by {
            if i < st.chunks.len() {
                assert(f.chunks[i] == st.chunks[i]);
            } else {
                assert(f.chunks[i] == st.current);
                assert(packed_by(qs, st.current, max, sep));
            }
        }
    }
}

/// Merging a non-empty piece keeps the invariant; it never shrinks the
/// closed chunks and leaves a non-empty chunk being filled.
proof fn lemma_merge_inv(st: Packing, p: Seq<char>, max: nat, sep: Seq<char>, strict: bool)
    requires
        packing_inv(st, max, sep, strict),
        p.len() > 0,
        strict ==> p.len() <= max,
    ensures
        packing_inv(merge_step(st, p, max, sep), max, sep, strict),
        merge_step(st, p, max, sep).current.len() > 0,
        st.chunks.len() <= merge_step(st, p, max, sep).chunks.len(),
        merge_step(st, p, max, sep).chunks.len() <= st.chunks.len() + (if st.current.len() > 0 { 1int } else { 0int }),
        join(finish(merge_step(st, p, max, sep)), sep) == (if finish(st).len() == 0 { p } else { join(finish(st), sep) + sep + p }),
        finish(st).len() == 0 ==> finish(merge_step(st, p, max, sep)).len() == 1,
        finish(st).len() > 0 ==> finish(merge_step(st, p, max, sep)).len() <= finish(st).len() + 1,
{
    let r = merge_step(st, p, max, sep);
    let flushing = st.size + p.len() > max && st.current.len() > 0;
    let f = if flushing { flush(st) } else { st };
    lemma_flush_inv(st, max, sep, strict);
    assert(packing_inv(f, max, sep, strict));
    if f.current.len() == 0 {
        lemma_single(p, max, sep);
        assert(r.current == p);
        assert(packed_by(seq![p], r.current, max, sep) && total_len(seq![p]) == r.size);
    } else {
        let qs = choose|qs: Seq<Seq<char>>|
            packed_by(qs, st.current, max, sep) && total_len(qs) == st.size && (strict
                ==> total_len(qs) <= max);
        assert(f == st);
        lemma_join_push(qs, sep, p);
        lemma_total_push(qs, p);
        let qs2 = qs.push(p);
        assert forall|j: int| 0 <= j < qs2.len() implies (#[trigger] qs2[j]).len() > 0 by {
            if j < qs.len() {
                assert(qs2[j] == qs[j]);
            }
        }
        assert(packed_by(qs2, r.current, max, sep) && total_len(qs2) == r.size);
    }
    // contents
    if st.current.len() > 0 {
        if flushing {
            assert(finish(st) == st.chunks.push(st.current));
            assert(finish(r) == st.chunks.push(st.current).push(p));
            lemma_join_push(st.chunks.push(st.current), sep, p);
        } else {
            assert(finish(st) == st.chunks.push(st.current));
            assert(finish(r) == st.chunks.push(st.current + sep + p));
            if st.chunks.len() > 0 {
                lemma_join_push(st.chunks, sep, st.current);
                lemma_join_push(st.chunks, sep, st.current + sep + p);
                assert(join(st.chunks, sep) + sep + (st.current + sep + p) =~= join(st.chunks, sep) + sep + st.current + sep + p);
            } else {
                assert(st.chunks.push(st.current) =~= seq![st.current]);
                assert(st.chunks.push(st.current + sep + p) =~= seq![st.current + sep + p]);
            }
        }
    } else {
        assert(finish(st) == st.chunks);
        assert(finish(r) == st.chunks.push(p));
        if st.chunks.len() > 0 {
            lemma_join_push(st.chunks, sep, p);
        } else {
            assert(st.chunks.push(p) =~= seq![p]);
        }
    }
}

/// All pieces are non-empty.
pub open spec fn all_nonempty(ps: Seq<Seq<char>>) -> bool {
    forall|j: int| 0 <= j < ps.len() ==> (#[trigger] ps[j]).len() > 0
}

/// All pieces stay within `max` characters.
pub open spec fn all_within(ps: Seq<Seq<char>>, max: nat) -> bool {
    forall|j: int| 0 <= j < ps.len() ==> (#[trigger] ps[j]).len() <= max
}

/// Greedy merging of non-empty pieces: every chunk is packed (strictly when
/// every piece is within the limit), joining the chunks gives back the
/// pieces joined, there are no more chunks than pieces, and some chunk
/// exactly when some piece.
proof fn lemma_pack_merge(ps: Seq<Seq<char>>, max: nat, sep: Seq<char>, strict: bool)
    requires
        all_nonempty(ps),
        strict ==> all_within(ps, max),
    ensures
        packing_inv(pack_merge(ps, max, sep), max, sep, strict),
        ps.len() == 0 ==> pack_merge(ps, max, sep) == empty_packing(),
        ps.len() > 0 ==> pack_merge(ps, max, sep).current.len() > 0,
        join(finish(pack_merge(ps, max, sep)), sep) == join(ps, sep),
        finish(pack_merge(ps, max, sep)).len() <= ps.len(),
        finish(pack_merge(ps, max, sep)).len() > 0 <==> ps.len() > 0,
    decreases ps.len(),
{
    if ps.len() == 0 {
        assert(finish(empty_packing()) =~= Seq::<Seq<char>>::empty());
    } else {
        let pre = ps.drop_last();
        let p = ps.last();
        assert(all_nonempty(pre)) by {
            assert forall|j: int| 0 <= j < pre.len() implies (#[trigger] pre[j]).len() > 0 by {
                assert(pre[j] == ps[j]);
            }
        }
        assert(strict ==> all_within(pre, max)) by {
            if strict {
                assert forall|j: int| 0 <= j < pre.len() implies (#[trigger] pre[j]).len() <= max by {
                    assert(pre[j] == ps[j]);
                }
            }
        }
        assert(p == ps[ps.len() - 1]);
        lemma_pack_merge(pre, max, sep, strict);
        let st = pack_merge(pre, max, sep);
        lemma_merge_inv(st, p, max, sep, strict);
        assert(ps == pre.push(p));
        if pre.len() > 0 {
            lemma_join_push(pre, sep, p);
        } else {
            assert(ps =~= seq![p]);
        }
    }
}

/// The sentences of a text are never empty.
proof fn lemma_sentences_nonempty(c: Seq<char>, start: int, i: int)
    requires
        0 <= start <= i,
    ensures
        all_nonempty(sentences_from(c, start, i)),
    decreases c.len() - i,
{
    if i < 0 || i >= c.len() {
    } else if is_terminal(c[i]) {
        let e = skip_space(c, i + 1);
        lemma_skip_space(c, i + 1);
        lemma_sentences_nonempty(c, e, e);
        let r = sentences_from(c, start, i);
        let rest = sentences_from(c, e, e);
        assert forall|j: int| 0 <= j < r.len() implies (#[trigger] r[j]).len() > 0 by {
            if j > 0 {
                assert(r[j] == rest[j - 1]);
            }
        }
    } else {
        lemma_sentences_nonempty(c, start, i + 1);
    }
}

/// Sentence chunking keeps the text of every sentence, in order: joining the
/// chunks with a space gives the sentences joined with a space. Every chunk
/// is one sentence or several that together stay within the limit; there
/// are no more chunks than sentences, and some chunk exactly when the text
/// has a sentence.
pub proof fn law_sentence_chunks(text: Seq<char>, max: nat)
    ensures
        join(sentence_chunks(text, max), seq![' ']) == join(sentences(text), seq![' ']),
        forall|i: int|
            0 <= i < sentence_chunks(text, max).len() ==> packed(
                #[trigger] sentence_chunks(text, max)[i],
                max,
                seq![' '],
            ),
        sentence_chunks(text, max).len() <= sentences(text).len(),
        sentence_chunks(text, max).len() > 0 <==> sentences(text).len() > 0,
{
    lemma_sentences_nonempty(text, 0, 0);
    lemma_pack_merge(sentences(text), max, seq![' '], false);
    let st = pack_merge(sentences(text), max, seq![' ']);
    lemma_flush_inv(st, max, seq![' '], false);
    assert forall|i: int| 0 <= i < sentence_chunks(text, max).len() implies packed(
        #[trigger] sentence_chunks(text, max)[i],
        max,
        seq![' '],
    ) by {
        assert(packed_as(flush(st).chunks[i], max, seq![' '], false));
    }
}

/// The elements of `nonblank` are trimmed, non-empty pieces.
proof fn lemma_nonblank_nonempty(pieces: Seq<Seq<char>>)
    ensures
        all_nonempty(nonblank(pieces)),
        nonblank(pieces).len() <= pieces.len(),
    decreases pieces.len(),
{
    if pieces.len() > 0 {
        lemma_nonblank_nonempty(pieces.drop_last());
        let rest = nonblank(pieces.drop_last());
        let r = nonblank(pieces);
        assert forall|j: int| 0 <= j < r.len() implies (#[trigger] r[j]).len() > 0 by {
            if j < rest.len() {
                assert(r[j] == rest[j]);
            }
        }
    }
}

/// Line packing is greedy merging of the non-blank lines.
proof fn lemma_pack_lines(pieces: Seq<Seq<char>>, max: nat)
    ensures
        pack_lines(pieces, max) == pack_merge(nonblank(pieces), max, seq!['\n']),
    decreases pieces.len(),
{
    if pieces.len() > 0 {
        lemma_pack_lines(pieces.drop_last(), max);
        let rest = nonblank(pieces.drop_last());
        let p = trim(pieces.last());
        if p.len() > 0 {
            assert(rest.push(p).drop_last() =~= rest);
        }
    }
}

/// Line chunking keeps the text of every non-blank line, in order: joining
/// the chunks with line feeds gives the trimmed non-blank lines joined with
/// line feeds. Every chunk is one line or several that together stay within
/// the limit; there are no more chunks than such lines, and some chunk
/// exactly when there is such a line.
pub proof fn law_line_chunks(text: Seq<char>, max: nat)
    ensures
        join(line_chunks(text, max), seq!['\n']) == join(nonblank_lines(text), seq!['\n']),
        forall|i: int|
            0 <= i < line_chunks(text, max).len() ==> packed(
                #[trigger] line_chunks(text, max)[i],
                max,
                seq!['\n'],
            ),
        line_chunks(text, max).len() <= nonblank_lines(text).len(),
        line_chunks(text, max).len() > 0 <==> nonblank_lines(text).len() > 0,
{
    let pieces = split_by(text, seq!['\n']);
    lemma_pack_lines(pieces, max);
    lemma_nonblank_nonempty(pieces);
    lemma_pack_merge(nonblank(pieces), max, seq!['\n'], false);
    let st = pack_merge(nonblank(pieces), max, seq!['\n']);
    lemma_flush_inv(st, max, seq!['\n'], false);
    assert forall|i: int| 0 <= i < line_chunks(text, max).len() implies packed(
        #[trigger] line_chunks(text, max)[i],
        max,
        seq!['\n'],
    ) by {
        assert(packed_as(flush(st).chunks[i], max, seq!['\n'], false));
    }
}

proof fn lemma_join_prepend(x: Seq<char>, rest: Seq<Seq<char>>, sep: Seq<char>)
    ensures
        join(seq![x] + rest, sep) == (if rest.len() == 0 { x } else { x + sep + join(rest, sep) }),
    decreases rest.len(),
{
    if rest.len() == 0 {
        assert(seq![x] + rest =~= seq![x]);
    } else if rest.len() == 1 {
        assert((seq![x] + rest).drop_last() =~= seq![x]);
        assert(join(seq![x], sep) == x);
        assert((seq![x] + rest).last() == rest[0]);
        assert(join(rest, sep) == rest[0]);
    } else {
        lemma_join_prepend(x, rest.drop_last(), sep);
        assert((seq![x] + rest).drop_last() =~= seq![x] + rest.drop_last());
        assert((seq![x] + rest).len() > 1);
        assert((seq![x] + rest).last() == rest.last());
        assert(x + sep + (join(rest.drop_last(), sep) + sep + rest.last()) =~= x + sep + join(
            rest.drop_last(),
            sep,
        ) + sep + rest.last());
    }
}

/// The pieces of a long paragraph are non-empty and within the limit; there
/// is at least one when the text goes on; with no overlap they add up to
/// the text.
proof fn lemma_cut_from(c: Seq<char>, start: int, max: nat, overlap: nat)
    requires
        max > 0,
        0 <= start,
    ensures
        all_nonempty(cut_from(c, start, max, overlap)),
        all_within(cut_from(c, start, max, overlap), max),
        start < c.len() ==> cut_from(c, start, max, overlap).len() > 0,
        overlap == 0 && start <= c.len() ==> join(cut_from(c, start, max, overlap), seq![])
            == c.subrange(start, c.len() as int),
    decreases c.len() - start,
{
    if start >= c.len() {
        if start == c.len() {
            assert(c.subrange(start, c.len() as int) =~= seq![]);
        }
    } else {
        let pos = cut_end(c, start, max);
        lemma_last_break_bounds(c, start, start + max);
        assert(start < pos <= start + max);
        assert(pos <= c.len());
        let piece = c.subrange(start, pos);
        let r = cut_from(c, start, max, overlap);
        if start + max >= c.len() {
            assert(r == seq![piece]);
            assert(pos == c.len());
        } else {
            let next = cut_next(start, pos, overlap);
            lemma_cut_from(c, next, max, overlap);
            let rest = cut_from(c, next, max, overlap);
            assert(r == seq![piece] + rest);
            assert forall|j: int| 0 <= j < r.len() implies (#[trigger] r[j]).len() > 0 && r[j].len() <= max by {
                if j > 0 {
                    assert(r[j] == rest[j - 1]);
                }
            }
            if overlap == 0 {
                assert(next == pos);
                lemma_join_prepend(piece, rest, seq![]);
                assert(pos < c.len());
                assert(rest.len() > 0);
                assert(piece + seq![] + c.subrange(pos, c.len() as int) =~= c.subrange(start, c.len() as int));
            }
        }
    }
}

/// Cutting a paragraph: every piece is non-empty and has at most `max`
/// characters; a non-empty paragraph gives at least one piece; with no
/// overlap, the pieces put together are the paragraph.
pub proof fn law_cut_paragraph(c: Seq<char>, max: nat, overlap: nat)
    requires
        max > 0,
    ensures
        all_nonempty(cut_paragraph(c, max, overlap)),
        all_within(cut_paragraph(c, max, overlap), max),
        c.len() > 0 ==> cut_paragraph(c, max, overlap).len() > 0,
        overlap == 0 ==> join(cut_paragraph(c, max, 0), seq![]) == c,
{
    lemma_cut_from(c, 0, max, overlap);
    lemma_cut_from(c, 0, max, 0);
    assert(c.subrange(0, c.len() as int) =~= c);
}

/// Where the pieces of `c[start..]` begin and end, in order.
pub open spec fn cut_spans(c: Seq<char>, start: int, max: nat, overlap: nat) -> Seq<(int, int)>
    decreases c.len() - start,
{
    if max == 0 || start < 0 || start >= c.len() {
        seq![]
    } else {
        let pos = cut_end(c, start, max);
        if start + max >= c.len() {
            seq![(start, pos)]
        } else {
            proof {
                lemma_last_break_bounds(c, start, start + max);
            }
            seq![(start, pos)] + cut_spans(c, cut_next(start, pos, overlap), max, overlap)
        }
    }
}

proof fn lemma_cut_spans(c: Seq<char>, start: int, max: nat, overlap: nat)
    requires
        max > 0,
        0 <= start < c.len(),
    ensures
        ({
            let sp = cut_spans(c, start, max, overlap);
            &&& sp.len() > 0
            &&& cut_from(c, start, max, overlap) == sp.map_values(
                |s: (int, int)| c.subrange(s.0, s.1),
            )
            &&& sp[0].0 == start
            &&& sp.last().1 == c.len()
            &&& forall|k: int| 0 <= k < sp.len() ==> start <= (#[trigger] sp[k]).0 < sp[k].1 <= c.len()
            &&& forall|k: int|
                0 <= k < sp.len() - 1 ==> (#[trigger] sp[k + 1]).0 == cut_next(
                    sp[k].0,
                    sp[k].1,
                    overlap,
                )
        }),
    decreases c.len() - start,
{
    let pos = cut_end(c, start, max);
    lemma_last_break_bounds(c, start, start + max);
    let sp = cut_spans(c, start, max, overlap);
    if start + max >= c.len() {
        assert(sp.map_values(|s: (int, int)| c.subrange(s.0, s.1)) =~= seq![c.subrange(start, pos)]);
    } else {
        let next = cut_next(start, pos, overlap);
        lemma_cut_spans(c, next, max, overlap);
        let rest = cut_spans(c, next, max, overlap);
        assert(sp == seq![(start, pos)] + rest);
        assert(sp.map_values(|s: (int, int)| c.subrange(s.0, s.1)) =~= seq![c.subrange(start, pos)]
            + rest.map_values(|s: (int, int)| c.subrange(s.0, s.1)));
        assert forall|k: int| 0 <= k < sp.len() implies start <= (#[trigger] sp[k]).0 < sp[k].1 <= c.len() by {
            if k > 0 {
                assert(sp[k] == rest[k - 1]);
            }
        }
        assert forall|k: int| 0 <= k < sp.len() - 1 implies (#[trigger] sp[k + 1]).0 == cut_next(
            sp[k].0,
            sp[k].1,
            overlap,
        ) by {
            assert(sp[k + 1] == rest[k]);
            if k > 0 {
                assert(sp[k] == rest[k - 1]);
                let j = k - 1;
                assert(rest[j + 1].0 == cut_next(rest[j].0, rest[j].1, overlap));
            } else {
                assert(sp[0] == (start, pos));
                assert(rest[0].0 == next);
            }
        }
        assert(sp.last() == rest.last());
    }
}

/// A long paragraph loses nothing when it is cut: the pieces are the text
/// between their bounds, the first starts at the beginning, the last ends at
/// the end, and each next piece starts `overlap` characters before the
/// previous one ends (at its end when the previous piece is not longer than
/// `overlap`), so consecutive pieces share those characters and no
/// character falls between two pieces.
pub proof fn law_cut_keeps_text(c: Seq<char>, max: nat, overlap: nat)
    requires
        max > 0,
        c.len() > 0,
    ensures
        ({
            let sp = cut_spans(c, 0, max, overlap);
            &&& cut_paragraph(c, max, overlap) == sp.map_values(|s: (int, int)| c.subrange(s.0, s.1))
            &&& sp.len() > 0
            &&& sp[0].0 == 0
            &&& sp.last().1 == c.len()
            &&& forall|k: int| 0 <= k < sp.len() ==> 0 <= (#[trigger] sp[k]).0 < sp[k].1 <= c.len()
            &&& forall|k: int|
                0 <= k < sp.len() - 1 ==> (#[trigger] sp[k + 1]).0 <= sp[k].1 && sp[k + 1].0 > sp[k].0
                    && (sp[k].1 - sp[k].0 > overlap ==> sp[k + 1].0 == sp[k].1 - overlap)
        }),
{
    lemma_cut_spans(c, 0, max, overlap);
}

/// `s` begins with `t`.
pub open spec fn begins_with(s: Seq<char>, t: Seq<char>) -> bool {
    t.len() <= s.len() && s.subrange(0, t.len() as int) == t
}

/// Each closed chunk after the first begins with the tail of the one before,
/// and so does the chunk being filled.
pub open spec fn carries_context(st: Packing, overlap: nat) -> bool {
    &&& forall|i: int|
        0 <= i < st.chunks.len() - 1 ==> begins_with(
            #[trigger] st.chunks[i + 1],
            tail_of(st.chunks[i], overlap),
        )
    &&& st.chunks.len() > 0 ==> begins_with(st.current, tail_of(st.chunks.last(), overlap))
}

proof fn lemma_begins_with_join(a: Seq<char>, t: Seq<char>, piece: Seq<char>)
    requires
        begins_with(a, t),
    ensures
        begins_with(join2(a, seq![' '], piece), t),
{
    if a.len() > 0 {
        assert((a + seq![' '] + piece).subrange(0, t.len() as int) =~= a.subrange(0, t.len() as int));
    } else {
        assert(t.len() == 0);
        assert(join2(a, seq![' '], piece).subrange(0, 0) =~= t);
    }
}

proof fn lemma_pack_sentences(pieces: Seq<Seq<char>>, max: nat, overlap: nat)
    ensures
        carries_context(pack_sentences(pieces, max, overlap), overlap),
        overlap == 0 ==> pack_sentences(pieces, max, overlap) == pack_merge(pieces, max, seq![' ']),
    decreases pieces.len(),
{
    if pieces.len() > 0 {
        let st = pack_sentences(pieces.drop_last(), max, overlap);
        lemma_pack_sentences(pieces.drop_last(), max, overlap);
        let piece = pieces.last();
        let nx = pack_sentences(pieces, max, overlap);
        if st.size + piece.len() > max && st.current.len() > 0 {
            let t = tail_of(st.current, overlap);
            if st.current.len() <= overlap {
                assert(t.subrange(0, t.len() as int) =~= t);
            } else {
                assert(t.subrange(0, t.len() as int) =~= t);
            }
            lemma_begins_with_join(t, t, piece);
            assert forall|i: int| 0 <= i < nx.chunks.len() - 1 implies begins_with(
                #[trigger] nx.chunks[i + 1],
                tail_of(nx.chunks[i], overlap),
            ) by {
                if i < st.chunks.len() - 1 {
                    assert(nx.chunks[i + 1] == st.chunks[i + 1]);
                    assert(nx.chunks[i] == st.chunks[i]);
                } else {
                    assert(nx.chunks[i + 1] == st.current);
                    assert(nx.chunks[i] == st.chunks.last());
                }
            }
            if overlap == 0 {
                assert(t =~= seq![]);
            }
        } else {
            if st.chunks.len() > 0 {
                lemma_begins_with_join(st.current, tail_of(st.chunks.last(), overlap), piece);
            }
        }
    }
}

/// Sentence chunks keep context: each chunk after the first begins with the
/// last `overlap` characters of the one before (all of a shorter one); with
/// no overlap the chunks are the plain greedy packing of the sentences (see
/// `law_sentence_chunks`).
pub proof fn law_sentence_overlap(text: Seq<char>, max: nat, overlap: nat)
    ensures
        forall|i: int|
            0 <= i < overlapping_sentence_chunks(text, max, overlap).len() - 1 ==> begins_with(
                #[trigger] overlapping_sentence_chunks(text, max, overlap)[i + 1],
                tail_of(overlapping_sentence_chunks(text, max, overlap)[i], overlap),
            ),
        overlap == 0 ==> overlapping_sentence_chunks(text, max, overlap) == sentence_chunks(text, max),
{
    let st = pack_sentences(sentences(text), max, overlap);
    lemma_pack_sentences(sentences(text), max, overlap);
    let r = overlapping_sentence_chunks(text, max, overlap);
    assert forall|i: int| 0 <= i < r.len() - 1 implies begins_with(
        #[trigger] r[i + 1],
        tail_of(r[i], overlap),
    ) by {
        if st.current.len() > 0 {
            if i < st.chunks.len() - 1 {
                assert(r[i + 1] == st.chunks[i + 1]);
                assert(r[i] == st.chunks[i]);
            } else {
                assert(r[i + 1] == st.current);
                assert(r[i] == st.chunks.last());
            }
        }
    }
}

/// Paragraph packing keeps every chunk within the limit, and holds
/// something exactly when a paragraph has been seen.
proof fn lemma_pack_paragraphs(pieces: Seq<Seq<char>>, max: nat, overlap: nat)
    requires
        max > 0,
    ensures
        packing_inv(pack_paragraphs(pieces, max, overlap), max, para_sep(), true),
        (pack_paragraphs(pieces, max, overlap).chunks.len() > 0 || pack_paragraphs(
            pieces,
            max,
            overlap,
        ).current.len() > 0) <==> nonblank(pieces).len() > 0,
    decreases pieces.len(),
{
    if pieces.len() > 0 {
        let pre = pieces.drop_last();
        lemma_pack_paragraphs(pre, max, overlap);
        let st = pack_paragraphs(pre, max, overlap);
        let para = trim(pieces.last());
        if para.len() == 0 {
        } else if para.len() > max {
            lemma_flush_inv(st, max, para_sep(), true);
            let f = flush(st);
            let cut = cut_paragraph(para, max, overlap);
            law_cut_paragraph(para, max, overlap);
            let r = pack_paragraphs(pieces, max, overlap);
            assert(r.chunks == f.chunks + cut);
            assert forall|i: int| 0 <= i < r.chunks.len() implies packed_as(#[trigger] r.chunks[i], max, para_sep(), true) by {
                if i < f.chunks.len() {
                    assert(r.chunks[i] == f.chunks[i]);
                } else {
                    let x = cut[i - f.chunks.len()];
                    assert(r.chunks[i] == x);
                    lemma_single(x, max, para_sep());
                    assert(packed_by(seq![x], x, max, para_sep()) && total_len(seq![x]) <= max);
                }
            }
            assert(r.chunks.len() > 0);
        } else {
            lemma_merge_inv(st, para, max, para_sep(), true);
        }
    }
}

/// With every paragraph within the limit, paragraph packing is greedy
/// merging of the paragraphs.
proof fn lemma_pack_paragraphs_small(pieces: Seq<Seq<char>>, max: nat, overlap: nat)
    requires
        all_within(nonblank(pieces), max),
    ensures
        pack_paragraphs(pieces, max, overlap) == pack_merge(nonblank(pieces), max, para_sep()),
    decreases pieces.len(),
{
    if pieces.len() > 0 {
        let pre = pieces.drop_last();
        let rest = nonblank(pre);
        let p = trim(pieces.last());
        assert(all_within(rest, max)) by {
            assert forall|j: int| 0 <= j < rest.len() implies (#[trigger] rest[j]).len() <= max by {
                if p.len() > 0 {
                    assert(nonblank(pieces)[j] == rest[j]);
                } else {
                    assert(nonblank(pieces) == rest);
                }
            }
        }
        lemma_pack_paragraphs_small(pre, max, overlap);
        if p.len() > 0 {
            assert(nonblank(pieces)[rest.len() as int] == p);
            assert(rest.push(p).drop_last() =~= rest);
        }
    }
}

/// Without any paragraph, nothing is packed.
proof fn lemma_no_paragraph(pieces: Seq<Seq<char>>, max: nat, overlap: nat)
    requires
        forall|k: int| 0 <= k < pieces.len() ==> #[trigger] trim(pieces[k]).len() == 0,
    ensures
        pack_paragraphs(pieces, max, overlap) == empty_packing(),
        nonblank(pieces).len() == 0,
    decreases pieces.len(),
{
    if pieces.len() > 0 {
        let pre = pieces.drop_last();
        assert forall|k: int| 0 <= k < pre.len() implies #[trigger] trim(pre[k]).len() == 0 by {
            assert(pre[k] == pieces[k]);
        }
        lemma_no_paragraph(pre, max, overlap);
        assert(trim(pieces[pieces.len() - 1]).len() == 0);
    }
}

/// Paragraph chunking: every chunk is one or more paragraphs, or a piece of
/// a long paragraph, that together stay within the limit; there is a chunk
/// exactly when the text has a paragraph. When no paragraph is over the
/// limit, the text of every paragraph is kept, in order (joining the chunks
/// with a blank line gives the paragraphs joined with a blank line), and
/// there are no more chunks than paragraphs.
pub proof fn law_paragraph_chunks(text: Seq<char>, max: nat, overlap: nat)
    requires
        max > 0 || !has_paragraph(text),
    ensures
        forall|i: int|
            0 <= i < paragraph_chunks(text, max, overlap).len() ==> packed_within(
                #[trigger] paragraph_chunks(text, max, overlap)[i],
                max,
                para_sep(),
            ),
        paragraph_chunks(text, max, overlap).len() > 0 <==> paragraphs(text).len() > 0,
        all_within(paragraphs(text), max) ==> join(paragraph_chunks(text, max, overlap), para_sep())
            == join(paragraphs(text), para_sep()),
        all_within(paragraphs(text), max) ==> paragraph_chunks(text, max, overlap).len()
            <= paragraphs(text).len(),
{
    let pieces = para_pieces(text);
    if max == 0 {
        assert forall|k: int| 0 <= k < pieces.len() implies #[trigger] trim(pieces[k]).len() == 0 by {
            if trim(pieces[k]).len() > 0 {
                assert(has_paragraph(text));
            }
        }
        lemma_no_paragraph(pieces, max, overlap);
        assert(finish(empty_packing()) =~= Seq::<Seq<char>>::empty());
        assert(nonblank(pieces) =~= Seq::<Seq<char>>::empty());
    } else {
        lemma_pack_paragraphs(pieces, max, overlap);
        let st = pack_paragraphs(pieces, max, overlap);
        lemma_flush_inv(st, max, para_sep(), true);
        assert forall|i: int| 0 <= i < paragraph_chunks(text, max, overlap).len() implies packed_within(
            #[trigger] paragraph_chunks(text, max, overlap)[i],
            max,
            para_sep(),
        ) by {
            assert(packed_as(flush(st).chunks[i], max, para_sep(), true));
        }
        if all_within(paragraphs(text), max) {
            lemma_pack_paragraphs_small(pieces, max, overlap);
            lemma_nonblank_nonempty(pieces);
            lemma_pack_merge(nonblank(pieces), max, para_sep(), true);
        }
    }
}

/// The paragraphs as the chunks hold them, in text order: each paragraph
/// within the limit as it is, each paragraph over the limit as its pieces.
pub open spec fn expanded(paras: Seq<Seq<char>>, max: nat, overlap: nat) -> Seq<Seq<char>>
    decreases paras.len(),
{
    if paras.len() == 0 {
        seq![]
    } else {
        let rest = expanded(paras.drop_last(), max, overlap);
        let p = paras.last();
        if p.len() > max {
            rest + cut_paragraph(p, max, overlap)
        } else {
            rest.push(p)
        }
    }
}

proof fn lemma_join_concat(a: Seq<Seq<char>>, b: Seq<Seq<char>>, sep: Seq<char>)
    requires
        a.len() > 0,
        b.len() > 0,
    ensures
        join(a + b, sep) == join(a, sep) + sep + join(b, sep),
    decreases b.len(),
{
    if b.len() == 1 {
        assert(a + b =~= a.push(b[0]));
        lemma_join_push(a, sep, b[0]);
    } else {
        let b0 = b.drop_last();
        lemma_join_concat(a, b0, sep);
        assert(a + b =~= (a + b0).push(b.last()));
        lemma_join_push(a + b0, sep, b.last());
        lemma_join_push(b0, sep, b.last());
        assert(b0.push(b.last()) =~= b);
        assert(join(a, sep) + sep + join(b0, sep) + sep + b.last() =~= join(a, sep) + sep + (join(
            b0,
            sep,
        ) + sep + b.last()));
    }
}

/// Paragraph packing puts out the expanded paragraphs in order.
proof fn lemma_pack_paragraphs_order(pieces: Seq<Seq<char>>, max: nat, overlap: nat)
    requires
        max > 0,
    ensures
        join(finish(pack_paragraphs(pieces, max, overlap)), para_sep()) == join(
            expanded(nonblank(pieces), max, overlap),
            para_sep(),
        ),
        finish(pack_paragraphs(pieces, max, overlap)).len() == 0 <==> expanded(
            nonblank(pieces),
            max,
            overlap,
        ).len() == 0,
    decreases pieces.len(),
{
    if pieces.len() > 0 {
        let sep = para_sep();
        let pre = pieces.drop_last();
        lemma_pack_paragraphs_order(pre, max, overlap);
        lemma_pack_paragraphs(pre, max, overlap);
        let st = pack_paragraphs(pre, max, overlap);
        let e = expanded(nonblank(pre), max, overlap);
        let para = trim(pieces.last());
        let r = pack_paragraphs(pieces, max, overlap);
        if para.len() == 0 {
            assert(nonblank(pieces) == nonblank(pre));
        } else {
            let ps = nonblank(pieces);
            assert(ps == nonblank(pre).push(para));
            assert(ps.drop_last() =~= nonblank(pre));
            assert(ps.last() == para);
            if para.len() > max {
                let f = flush(st);
                let cut = cut_paragraph(para, max, overlap);
                law_cut_paragraph(para, max, overlap);
                assert(f.current.len() == 0);
                assert(finish(st) == f.chunks);
                assert(finish(r) == f.chunks + cut);
                assert(expanded(ps, max, overlap) == e + cut);
                if f.chunks.len() > 0 {
                    lemma_join_concat(f.chunks, cut, sep);
                    lemma_join_concat(e, cut, sep);
                } else {
                    assert(f.chunks + cut =~= cut);
                    assert(e + cut =~= cut);
                }
            } else {
                lemma_merge_inv(st, para, max, sep, true);
                assert(expanded(ps, max, overlap) == e.push(para));
                let m = merge_step(st, para, max, sep);
                assert(finish(m).len() > 0);
                if e.len() > 0 {
                    lemma_join_push(e, sep, para);
                } else {
                    assert(e.push(para) =~= seq![para]);
                }
            }
        }
    }
}

/// Paragraph chunking keeps the text's order, also around a paragraph over
/// the limit: the chunk being filled is closed before such a paragraph is
/// cut, so joining the chunks with a blank line gives the paragraphs joined
/// with a blank line, each paragraph over the limit given as its pieces.
pub proof fn law_paragraph_order(text: Seq<char>, max: nat, overlap: nat)
    requires
        max > 0,
    ensures
        join(paragraph_chunks(text, max, overlap), para_sep()) == join(
            expanded(paragraphs(text), max, overlap),
            para_sep(),
        ),
        paragraph_chunks(text, max, overlap).len() == 0 <==> paragraphs(text).len() == 0,
{
    lemma_pack_paragraphs_order(para_pieces(text), max, overlap);
    law_paragraph_chunks(text, max, overlap);
}

/// Pieces put one after the other.
pub open spec fn concat(ss: Seq<Seq<char>>) -> Seq<char>
    decreases ss.len(),
{
    if ss.len() == 0 {
        seq![]
    } else {
        ss[0] + concat(ss.drop_first())
    }
}

/// Every position skipped by `skip_space` holds whitespace, and where it
/// stops inside the text there is none.
proof fn lemma_skip_space_spaces(c: Seq<char>, j: int)
    requires
        0 <= j,
    ensures
        forall|m: int| j <= m < skip_space(c, j) ==> is_space(#[trigger] c[m]),
        skip_space(c, j) < c.len() ==> !is_space(c[skip_space(c, j)]),
    decreases c.len() - j,
{
    if 0 <= j < c.len() && is_space(c[j]) {
        lemma_skip_space_spaces(c, j + 1);
    }
}

/// The sentences of `c[start..]` put together are `c[start..n]`; no sentence
/// end follows `n`; when `n > start`, a sentence end comes before `n` with
/// only whitespace between, and none follows at `n`.
proof fn lemma_sentences_cover(c: Seq<char>, start: int, i: int)
    requires
        0 <= start <= i <= c.len(),
        forall|j: int| start <= j < i ==> !is_terminal(#[trigger] c[j]),
    ensures
        start + concat(sentences_from(c, start, i)).len() <= c.len(),
        concat(sentences_from(c, start, i)) == c.subrange(
            start,
            start + concat(sentences_from(c, start, i)).len(),
        ),
        forall|j: int|
            start + concat(sentences_from(c, start, i)).len() <= j < c.len() ==> !is_terminal(
                #[trigger] c[j],
            ),
        concat(sentences_from(c, start, i)).len() > 0 ==> {
            let n = start + concat(sentences_from(c, start, i)).len();
            &&& n < c.len() ==> !is_space(c[n])
            &&& exists|k: int|
                start <= k < n && is_terminal(#[trigger] c[k]) && forall|m: int|
                    k < m < n ==> is_space(#[trigger] c[m])
        },
    decreases c.len() - i,
{
    if i >= c.len() {
        assert(c.subrange(start, start) =~= seq![]);
    } else if is_terminal(c[i]) {
        let e = skip_space(c, i + 1);
        lemma_skip_space(c, i + 1);
        lemma_skip_space_spaces(c, i + 1);
        lemma_sentences_cover(c, e, e);
        let rest = sentences_from(c, e, e);
        let r = sentences_from(c, start, i);
        let x = c.subrange(start, e);
        assert(r == seq![x] + rest);
        assert((seq![x] + rest).drop_first() =~= rest);
        assert(concat(r) == x + concat(rest));
        let n = e + concat(rest).len();
        assert(x + c.subrange(e, n) =~= c.subrange(start, n));
        if concat(rest).len() == 0 {
            assert(is_terminal(c[i]));
            assert(forall|m: int| i < m < n ==> is_space(#[trigger] c[m]));
        } else {
            let k = choose|k: int|
                e <= k < n && is_terminal(#[trigger] c[k]) && forall|m: int|
                    k < m < n ==> is_space(#[trigger] c[m]);
            assert(start <= k < n && is_terminal(c[k]));
        }
    } else {
        lemma_sentences_cover(c, start, i + 1);
    }
}

/// Every '.', '?' and '!' of a text ends a sentence: the sentences put
/// together are the text up to and including its last '.', '?' or '!' and
/// the whitespace after it (nothing when it has none), and no sentence is
/// lost in chunking: with no overlap, joining the chunks with a space gives
/// the sentences joined with a space.
pub proof fn law_sentence_ends(text: Seq<char>, max: nat)
    ensures
        concat(sentences(text)) == text.take(concat(sentences(text)).len() as int),
        forall|j: int|
            concat(sentences(text)).len() <= j < text.len() ==> !(#[trigger] text[j] == '.'
                || text[j] == '?' || text[j] == '!'),
        concat(sentences(text)).len() > 0 ==> {
            let n = concat(sentences(text)).len() as int;
            &&& n < text.len() ==> !is_space(text[n])
            &&& exists|k: int|
                0 <= k < n && (text[k] == '.' || text[k] == '?' || text[k] == '!') && forall|m: int|
                    k < m < n ==> is_space(#[trigger] text[m])
        },
        join(overlapping_sentence_chunks(text, max, 0), seq![' ']) == join(
            sentences(text),
            seq![' '],
        ),
{
    lemma_sentences_cover(text, 0, 0);
    let n = concat(sentences(text)).len() as int;
    assert(text.take(n) =~= text.subrange(0, n));
    if n > 0 {
        let k = choose|k: int|
            0 <= k < n && is_terminal(#[trigger] text[k]) && forall|m: int|
                k < m < n ==> is_space(#[trigger] text[m]);
        assert(text[k] == '.' || text[k] == '?' || text[k] == '!');
    }
    law_sentence_overlap(text, max, 0);
    law_sentence_chunks(text, max);
}

/// Joined non-empty pieces, at least one, are not empty.
proof fn lemma_join_nonempty(ps: Seq<Seq<char>>, sep: Seq<char>)
    requires
        all_nonempty(ps),
        ps.len() > 0,
    ensures
        join(ps, sep).len() > 0,
{
    assert(ps[ps.len() - 1].len() > 0);
}

/// Pieces that together fit within the limit are never split: the packer
/// holds them all, joined, in the chunk being filled.
proof fn lemma_fits(ps: Seq<Seq<char>>, max: nat, sep: Seq<char>, overlap: nat)
    requires
        all_nonempty(ps),
        total_len(ps) <= max,
    ensures
        pack_merge(ps, max, sep) == (Packing { chunks: seq![], current: join(ps, sep), size: total_len(ps) }),
        pack_sentences(ps, max, overlap) == (Packing {
            chunks: seq![],
            current: join(ps, seq![' ']),
            size: total_len(ps),
        }),
    decreases ps.len(),
{
    if ps.len() > 0 {
        let pre = ps.drop_last();
        let p = ps.last();
        assert(all_nonempty(pre)) by {
            assert forall|j: int| 0 <= j < pre.len() implies (#[trigger] pre[j]).len() > 0 by {
                assert(pre[j] == ps[j]);
            }
        }
        assert(p == ps[ps.len() - 1]);
        lemma_fits(pre, max, sep, overlap);
        assert(ps == pre.push(p));
        if pre.len() > 0 {
            lemma_join_nonempty(pre, sep);
            lemma_join_nonempty(pre, seq![' ']);
            lemma_join_push(pre, sep, p);
            lemma_join_push(pre, seq![' '], p);
        } else {
            assert(ps =~= seq![p]);
        }
    }
}

/// The chunks of a state that holds only a non-empty chunk being filled.
proof fn lemma_finish_single(c: Seq<char>, n: nat)
    requires
        c.len() > 0,
    ensures
        finish(Packing { chunks: seq![], current: c, size: n }) == seq![c],
{
    assert(Seq::<Seq<char>>::empty().push(c) =~= seq![c]);
}

/// Packing is greedy: paragraphs that together fit within the limit share a
/// single chunk, the paragraphs joined with a blank line.
pub proof fn law_paragraphs_fit(text: Seq<char>, max: nat, overlap: nat)
    requires
        paragraphs(text).len() > 0,
        total_len(paragraphs(text)) <= max,
    ensures
        paragraph_chunks(text, max, overlap) == seq![join(paragraphs(text), para_sep())],
{
    let ps = paragraphs(text);
    lemma_nonblank_nonempty(para_pieces(text));
    lemma_total_bounds(ps);
    lemma_pack_paragraphs_small(para_pieces(text), max, overlap);
    lemma_fits(ps, max, para_sep(), overlap);
    lemma_join_nonempty(ps, para_sep());
    lemma_finish_single(join(ps, para_sep()), total_len(ps));
}

/// Packing is greedy: non-blank lines that together fit within the limit
/// share a single chunk, the trimmed lines joined with a line feed.
pub proof fn law_lines_fit(text: Seq<char>, max: nat)
    requires
        nonblank_lines(text).len() > 0,
        total_len(nonblank_lines(text)) <= max,
    ensures
        line_chunks(text, max) == seq![join(nonblank_lines(text), seq!['\n'])],
{
    let ls = nonblank_lines(text);
    lemma_nonblank_nonempty(split_by(text, seq!['\n']));
    lemma_pack_lines(split_by(text, seq!['\n']), max);
    lemma_fits(ls, max, seq!['\n'], 0);
    lemma_join_nonempty(ls, seq!['\n']);
    lemma_finish_single(join(ls, seq!['\n']), total_len(ls));
}

/// Packing is greedy: sentences that together fit within the limit share a
/// single chunk, the sentences joined with a space, whatever the overlap.
pub proof fn law_sentences_fit(text: Seq<char>, max: nat, overlap: nat)
    requires
        sentences(text).len() > 0,
        total_len(sentences(text)) <= max,
    ensures
        overlapping_sentence_chunks(text, max, overlap) == seq![join(sentences(text), seq![' '])],
        sentence_chunks(text, max) == seq![join(sentences(text), seq![' '])],
{
    let ss = sentences(text);
    lemma_sentences_nonempty(text, 0, 0);
    lemma_fits(ss, max, seq![' '], overlap);
    lemma_join_nonempty(ss, seq![' ']);
    lemma_finish_single(join(ss, seq![' ']), total_len(ss));
}

/// No piece is longer than all pieces together.
proof fn lemma_total_bounds(ps: Seq<Seq<char>>)
    ensures
        forall|j: int| 0 <= j < ps.len() ==> (#[trigger] ps[j]).len() <= total_len(ps),
    decreases ps.len(),
{
    if ps.len() > 0 {
        let pre = ps.drop_last();
        lemma_total_bounds(pre);
        assert forall|j: int| 0 <= j < ps.len() implies (#[trigger] ps[j]).len() <= total_len(ps) by {
            if j < pre.len() {
                assert(pre[j] == ps[j]);
            }
        }
    }
}

/// A sentence's shape: one sentence end, followed by whitespace only.
spec fn ends_once(s: Seq<char>) -> bool {
    exists|k: int|
        0 <= k < s.len() && is_terminal(#[trigger] s[k]) && (forall|m: int|
            0 <= m < k ==> !is_terminal(#[trigger] s[m])) && (forall|m: int|
            k < m < s.len() ==> is_space(#[trigger] s[m]))
}

/// Each sentence of `c[start..]` holds one sentence end, followed by
/// whitespace only; the first starts at `start`, every later one with a
/// character that is not whitespace.
proof fn lemma_sentence_shapes(c: Seq<char>, start: int, i: int)
    requires
        0 <= start <= i <= c.len(),
        forall|j: int| start <= j < i ==> !is_terminal(#[trigger] c[j]),
    ensures
        forall|q: int|
            0 <= q < sentences_from(c, start, i).len() ==> ends_once(
                #[trigger] sentences_from(c, start, i)[q],
            ),
        forall|q: int|
            1 <= q < sentences_from(c, start, i).len() ==> !is_space(
                #[trigger] sentences_from(c, start, i)[q][0],
            ),
        sentences_from(c, start, i).len() > 0 ==> sentences_from(c, start, i)[0].len() > 0
            && sentences_from(c, start, i)[0][0] == c[start],
    decreases c.len() - i,
{
    if i >= c.len() {
    } else if is_terminal(c[i]) {
        let e = skip_space(c, i + 1);
        lemma_skip_space(c, i + 1);
        lemma_skip_space_spaces(c, i + 1);
        lemma_sentence_shapes(c, e, e);
        lemma_sentences_nonempty(c, e, e);
        let rest = sentences_from(c, e, e);
        let r = sentences_from(c, start, i);
        let x = c.subrange(start, e);
        assert(r == seq![x] + rest);
        let k = i - start;
        assert(x[k] == c[i]);
        assert forall|m: int| 0 <= m < k implies !is_terminal(#[trigger] x[m]) by {
            assert(x[m] == c[start + m]);
        }
        assert forall|m: int| k < m < x.len() implies is_space(#[trigger] x[m]) by {
            assert(x[m] == c[start + m]);
        }
        assert(ends_once(x));
        assert forall|q: int| 0 <= q < r.len() implies ends_once(#[trigger] r[q]) by {
            if q > 0 {
                assert(r[q] == rest[q - 1]);
            }
        }
        if rest.len() > 0 {
            lemma_sentences_cover(c, e, e);
            assert(e < c.len());
        }
        assert forall|q: int| 1 <= q < r.len() implies !is_space(#[trigger] r[q][0]) by {
            assert(r[q] == rest[q - 1]);
            if q == 1 {
                assert(rest[0][0] == c[e]);
            }
        }
    } else {
        lemma_sentence_shapes(c, start, i + 1);
    }
}

/// `s` holds exactly one '.', '?' or '!', and only whitespace after it.
pub open spec fn one_mark_then_space(s: Seq<char>) -> bool {
    exists|k: int|
        0 <= k < s.len() && (#[trigger] s[k] == '.' || s[k] == '?' || s[k] == '!') && (forall|m: int|
            0 <= m < k ==> !(#[trigger] s[m] == '.' || s[m] == '?' || s[m] == '!')) && (forall|m: int|
            k < m < s.len() ==> is_space(#[trigger] s[m]))
}

/// Sentences are cut at every sentence end: each sentence of a text holds
/// exactly one '.', '?' or '!', followed by whitespace only, and each one
/// after the first starts with a character that is not whitespace (the
/// whitespace after a sentence end stays with that sentence).
pub proof fn law_sentence_shape(text: Seq<char>)
    ensures
        forall|q: int|
            0 <= q < sentences(text).len() ==> one_mark_then_space(#[trigger] sentences(text)[q]),
        forall|q: int|
            1 <= q < sentences(text).len() ==> !is_space(#[trigger] sentences(text)[q][0]),
{
    lemma_sentence_shapes(text, 0, 0);
    assert forall|q: int| 0 <= q < sentences(text).len() implies one_mark_then_space(
        #[trigger] sentences(text)[q],
    ) by {
        let s = sentences(text)[q];
        assert(ends_once(s));
        let k = choose|k: int|
            0 <= k < s.len() && is_terminal(#[trigger] s[k]) && (forall|m: int|
                0 <= m < k ==> !is_terminal(#[trigger] s[m])) && (forall|m: int|
                k < m < s.len() ==> is_space(#[trigger] s[m]));
        assert(s[k] == '.' || s[k] == '?' || s[k] == '!');
        assert forall|m: int| 0 <= m < k implies !(#[trigger] s[m] == '.' || s[m] == '?' || s[m] == '!') by {
            assert(!is_terminal(s[m]));
        }
    }
}

/// The pieces of `s[start..]` put back together with the pattern are
/// `s[start..]`, and none of them contains the pattern.
proof fn lemma_split_from_keeps(s: Seq<char>, p: Seq<char>, start: int, i: int)
    requires
        p.len() > 0,
        0 <= start <= i,
        start <= s.len(),
        forall|j: int| start <= j < i ==> !matches_at(s, p, j),
    ensures
        join(split_from(s, p, start, i), p) == s.subrange(start, s.len() as int),
        forall|k: int|
            0 <= k < split_from(s, p, start, i).len() ==> !contains(
                #[trigger] split_from(s, p, start, i)[k],
                p,
            ),
    decreases s.len() - i,
{
    let r = split_from(s, p, start, i);
    if i < 0 || i >= s.len() || i + p.len() > s.len() {
        let x = s.subrange(start, s.len() as int);
        assert(r == seq![x]);
        assert forall|j: int| !matches_at(x, p, j) by {
            if matches_at(x, p, j) {
                assert(x.subrange(j, j + p.len()) =~= s.subrange(start + j, start + j + p.len()));
                assert(matches_at(s, p, start + j));
            }
        }
        assert forall|k: int| 0 <= k < r.len() implies !contains(#[trigger] r[k], p) by {
            assert(r[k] == x);
        }
    } else if matches_at(s, p, i) {
        let e = i + p.len();
        lemma_split_from_keeps(s, p, e, e);
        lemma_split_from_nonempty(s, p, e, e);
        let rest = split_from(s, p, e, e);
        let x = s.subrange(start, i);
        assert(r == seq![x] + rest);
        lemma_join_prepend(x, rest, p);
        assert(x + p + s.subrange(e, s.len() as int) =~= s.subrange(start, s.len() as int));
        assert forall|j: int| !matches_at(x, p, j) by {
            if matches_at(x, p, j) {
                assert(x.subrange(j, j + p.len()) =~= s.subrange(start + j, start + j + p.len()));
                assert(matches_at(s, p, start + j));
            }
        }
        assert forall|k: int| 0 <= k < r.len() implies !contains(#[trigger] r[k], p) by {
            if k == 0 {
                assert(r[k] == x);
            } else {
                assert(r[k] == rest[k - 1]);
            }
        }
    } else {
        lemma_split_from_keeps(s, p, start, i + 1);
    }
}

/// Splitting at a pattern keeps the text: joining the pieces with the
/// pattern gives the text back, and no piece contains the pattern.
pub proof fn law_split_keeps_text(s: Seq<char>, p: Seq<char>)
    requires
        p.len() > 0,
    ensures
        join(split_by(s, p), p) == s,
        forall|k: int| 0 <= k < split_by(s, p).len() ==> !contains(#[trigger] split_by(s, p)[k], p),
{
    lemma_split_from_keeps(s, p, 0, 0);
    assert(s.subrange(0, s.len() as int) =~= s);
}

} // verus!
