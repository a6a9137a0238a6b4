//! Hierarchical chunking: paragraphs, then sentences, then a window over the
//! words of each paragraph that takes whole sentences and overlaps its neighbour.
use vstd::prelude::*;
use crate::models::{Chunk, ChunkedFile, LoadedFile};
use crate::text::{
    chars_of, join_words, keep_trimmed_nonempty, paragraphs_of, sentences_of, split_at_blank_lines,
    split_at_terminals, split_blank_lines, string_of, string_views, terminal_pieces, trim,
    trimmed_nonempty, views, words, words_of,
};

verus! {

pub type ChunkSize = i32;

pub type ChunkOverlap = i32;

/// A chunking configuration that cannot be used.
#[derive(Debug, Clone, Copy, PartialEq, Eq, Structural)]
pub enum ChunkConfigError {
    /// The window size is zero or negative.
    NonPositiveSize,
    /// The overlap is negative.
    NegativeOverlap,
}

/// How a document is cut into chunks: window size and overlap, in words.
#[derive(Debug, Clone, Copy, PartialEq, Eq, Structural)]
pub enum ChunkingStrategy {
    Hierarchical(ChunkSize, ChunkOverlap),
}

/// The words of sentences `ss`, in order.
pub open spec fn flat_words(ss: Seq<Seq<char>>) -> Seq<Seq<char>>
    decreases ss.len(),
{
    if ss.len() == 0 {
        Seq::empty()
    } else {
        flat_words(ss.drop_last()) + words_of(ss.last())
    }
}

/// For each word of `flat_words(ss)`, the index of its sentence.
pub open spec fn flat_ids(ss: Seq<Seq<char>>) -> Seq<usize>
    decreases ss.len(),
{
    if ss.len() == 0 {
        Seq::empty()
    } else {
        flat_ids(ss.drop_last()) + Seq::new(
            words_of(ss.last()).len(),
            |k: int| (ss.len() - 1) as usize,
        )
    }
}

/// How many words from position `i` on belong to sentence `t`, without a gap.
pub open spec fn run_len(ids: Seq<usize>, i: int, t: usize) -> nat
    decreases ids.len() - i,
{
    if 0 <= i < ids.len() && ids[i] == t {
        1 + run_len(ids, i + 1, t)
    } else {
        0
    }
}

/// Where a window that has reached position `e` with `count` words ends: it
/// takes the rest of the sentence at `e` while it holds fewer than `size` words.
pub open spec fn fill_end(ids: Seq<usize>, e: int, count: int, size: int) -> int
    decreases ids.len() - e
    via fill_end_decreases
{
    if 0 <= e < ids.len() && count < size {
        let k = 1 + run_len(ids, e + 1, ids[e]);
        fill_end(ids, e + k, count + k, size)
    } else {
        e
    }
}

#[via_fn]
proof fn fill_end_decreases(ids: Seq<usize>, e: int, count: int, size: int) {
    if 0 <= e < ids.len() && count < size {
        lemma_run_len_bound(ids, e + 1, ids[e]);
    }
}

/// The windows, as word ranges `(start, end)`, from start `s` on: each window
/// after the first starts `step` words after the one before it; the last one
/// reaches the end of the words.
pub open spec fn windows_from(ids: Seq<usize>, s: int, size: int, step: int) -> Seq<(int, int)>
    decreases ids.len() - s,
{
    if s < 0 || s >= ids.len() || step <= 0 {
        Seq::empty()
    } else {
        let e = fill_end(ids, s, 0, size);
        if e >= ids.len() || s + step >= ids.len() {
            seq![(s, e)]
        } else {
            seq![(s, e)] + windows_from(ids, s + step, size, step)
        }
    }
}

/// The texts of windows `ws` over `words`: each window's words joined by spaces.
pub open spec fn window_texts(words: Seq<Seq<char>>, ws: Seq<(int, int)>) -> Seq<Seq<char>> {
    ws.map_values(|w: (int, int)| join_words(words.subrange(w.0, w.1)))
}

/// The step between window starts: `size - overlap`, or one word where the
/// overlap is not smaller than the size.
pub open spec fn step_of(size: int, overlap: int) -> int {
    if size > overlap {
        size - overlap
    } else {
        1
    }
}

/// The chunk texts of one paragraph.
pub open spec fn paragraph_texts(p: Seq<char>, size: int, step: int) -> Seq<Seq<char>> {
    let ss = sentences_of(p);
    window_texts(flat_words(ss), windows_from(flat_ids(ss), 0, size, step))
}

/// The chunk texts of paragraphs `ps`, in order; numbering runs on across paragraphs.
pub open spec fn paragraphs_texts(ps: Seq<Seq<char>>, size: int, step: int) -> Seq<Seq<char>>
    decreases ps.len(),
{
    if ps.len() == 0 {
        Seq::empty()
    } else {
        paragraphs_texts(ps.drop_last(), size, step) + paragraph_texts(ps.last(), size, step)
    }
}

/// The chunk texts of a document.
pub open spec fn chunk_texts(content: Seq<char>, size: int, overlap: int) -> Seq<Seq<char>> {
    paragraphs_texts(paragraphs_of(content), size, step_of(size, overlap))
}

/// The chunks `cs` are numbered 0, 1, 2, ... and carry the texts `ts`.
pub open spec fn numbered(cs: Seq<Chunk>, ts: Seq<Seq<char>>) -> bool {
    &&& cs.len() == ts.len()
    &&& forall|i: int| 0 <= i < cs.len() ==> #[trigger] cs[i].seq_num == i && cs[i].text@ == ts[i]
}

/// Splits a text into paragraphs on blank lines; trims them and drops empty ones.
pub fn split_into_paragraphs(content: &str) -> (r: Vec<String>)
    ensures
        string_views(r@) == paragraphs_of(content@),
{
    let cs = chars_of(content);
    let ps = keep_trimmed_nonempty(&split_at_blank_lines(&cs));
    let mut out: Vec<String> = Vec::new();
    let mut i: usize = 0;
    while i < ps.len()
        invariant
            i <= ps@.len(),
            views(ps@) == paragraphs_of(content@),
            string_views(out@) == views(ps@).take(i as int),
        decreases ps.len() - i,
    {
        let s = string_of(&ps[i]);
        let ghost o0 = out@;
        out.push(s);
        assert(string_views(out@) =~= string_views(o0).push(s@));
        assert(views(ps@).take(i + 1) =~= views(ps@).take(i as int).push(ps@[i as int]@));
        i = i + 1;
    }
    assert(views(ps@).take(ps.len() as int) =~= views(ps@));
    out
}

/// The sentences of a paragraph as character vectors.
fn sentence_chars(p: &Vec<char>) -> (r: Vec<Vec<char>>)
    ensures
        views(r@) == sentences_of(p@),
{
    let mut ss = keep_trimmed_nonempty(&split_at_terminals(p));
    let ghost before = views(ss@);
    let mut i: usize = 0;
    while i < ss.len()
        invariant
            i <= ss@.len() == before.len(),
            forall|k: int| 0 <= k < i ==> #[trigger] ss@[k]@ == before[k].push('.'),
            forall|k: int| i <= k < ss@.len() ==> #[trigger] ss@[k]@ == before[k],
            before == trimmed_nonempty(terminal_pieces(p@)),
        decreases ss.len() - i,
    {
        let mut s = ss[i].clone();
        s.push('.');
        ss.set(i, s);
        i = i + 1;
    }
    assert(views(ss@) =~= sentences_of(p@));
    ss
}

/// Splits a paragraph into sentences on '.', '?' and '!'; trims them, drops
/// empty ones, and closes each with a period.
pub fn split_into_sentences(paragraph: &str) -> (r: Vec<String>)
    ensures
        string_views(r@) == sentences_of(paragraph@),
{
    let ss = sentence_chars(&chars_of(paragraph));
    let mut out: Vec<String> = Vec::new();
    let mut i: usize = 0;
    while i < ss.len()
        invariant
            i <= ss@.len(),
            views(ss@) == sentences_of(paragraph@),
            string_views(out@) == views(ss@).take(i as int),
        decreases ss.len() - i,
    {
        let s = string_of(&ss[i]);
        let ghost o0 = out@;
        out.push(s);
        assert(string_views(out@) =~= string_views(o0).push(s@));
        assert(views(ss@).take(i + 1) =~= views(ss@).take(i as int).push(ss@[i as int]@));
        i = i + 1;
    }
    assert(views(ss@).take(ss.len() as int) =~= views(ss@));
    out
}

proof fn lemma_run_len_bound(ids: Seq<usize>, i: int, t: usize)
    requires
        0 <= i,
    ensures
        i + run_len(ids, i, t) <= if i <= ids.len() { ids.len() as int } else { i },
    decreases ids.len() - i,
{
    if 0 <= i < ids.len() && ids[i] == t {
        lemma_run_len_bound(ids, i + 1, t);
    }
}

/// How many words from position `start` on belong to sentence `target_sentence_idx`.
pub fn count_words_in_sentence(
    sentence_ids: &Vec<usize>,
    start: usize,
    target_sentence_idx: usize,
) -> (r: usize)
    ensures
        r == run_len(sentence_ids@, start as int, target_sentence_idx),
{
    let n = sentence_ids.len();
    let mut k: usize = start;
    while k < n && sentence_ids[k] == target_sentence_idx
        invariant
            start <= k,
            n == sentence_ids@.len(),
            k <= n || k == start,
            run_len(sentence_ids@, start as int, target_sentence_idx) == (k - start) + run_len(
                sentence_ids@,
                k as int,
                target_sentence_idx,
            ),
        decreases n - k,
    {
        k = k + 1;
    }
    k - start
}

/// The words of sentences `ss` and, for each, the index of its sentence.
fn flatten(ss: &Vec<Vec<char>>) -> (r: (Vec<Vec<char>>, Vec<usize>))
    ensures
        views(r.0@) == flat_words(views(ss@)),
        r.1@ == flat_ids(views(ss@)),
        r.0@.len() == r.1@.len(),
{
    let mut ws: Vec<Vec<char>> = Vec::new();
    let mut ids: Vec<usize> = Vec::new();
    let mut k: usize = 0;
    assert(views(ss@).take(0) =~= Seq::<Seq<char>>::empty());
    while k < ss.len()
        invariant
            k <= ss@.len(),
            views(ws@) == flat_words(views(ss@).take(k as int)),
            ids@ == flat_ids(views(ss@).take(k as int)),
            ws@.len() == ids@.len(),
        decreases ss.len() - k,
    {
        let sw = words(&ss[k]);
        let ghost ws0 = views(ws@);
        let ghost ids0 = ids@;
        let mut m: usize = 0;
        while m < sw.len()
            invariant
                k < ss@.len(),
                m <= sw@.len(),
                views(sw@) == words_of(ss@[k as int]@),
                views(ws@) == ws0 + views(sw@).take(m as int),
                ids@ == ids0 + Seq::new(m as nat, |j: int| k),
                ws@.len() == ids@.len(),
            decreases sw.len() - m,
        {
            let w = sw[m].clone();
            let ghost wv = ws@;
            ws.push(w);
            assert(views(ws@) =~= views(wv).push(w@));
            assert(views(sw@).take(m + 1) =~= views(sw@).take(m as int).push(sw@[m as int]@));
            ids.push(k);
            assert(views(ws@) =~= ws0 + views(sw@).take(m + 1));
            assert(ids@ =~= ids0 + Seq::new((m + 1) as nat, |j: int| k));
            m = m + 1;
        }
        proof {
            let t = views(ss@).take(k + 1);
            assert(t.drop_last() =~= views(ss@).take(k as int));
            assert(t.last() == ss@[k as int]@);
            assert(views(sw@).take(m as int) =~= views(sw@));
            assert(Seq::new(m as nat, |j: int| k) =~= Seq::new(
                words_of(t.last()).len(),
                |j: int| (t.len() - 1) as usize,
            ));
        }
        k = k + 1;
    }
    assert(views(ss@).take(ss.len() as int) =~= views(ss@));
    (ws, ids)
}

/// The words `words[a..b]` joined by single spaces.
fn join_range(words: &Vec<Vec<char>>, a: usize, b: usize) -> (r: Vec<char>)
    requires
        a <= b <= words@.len(),
    ensures
        r@ == join_words(views(words@).subrange(a as int, b as int)),
{
    let mut r: Vec<char> = Vec::new();
    let mut i: usize = a;
    assert(views(words@).subrange(a as int, a as int) =~= Seq::<Seq<char>>::empty());
    while i < b
        invariant
            a <= i <= b <= words@.len(),
            r@ == join_words(views(words@).subrange(a as int, i as int)),
        decreases b - i,
    {
        let ghost r0 = r@;
        let ghost sub = views(words@).subrange(a as int, i + 1);
        assert(sub.drop_last() =~= views(words@).subrange(a as int, i as int));
        assert(sub.last() == words@[i as int]@);
        if i > a {
            r.push(' ');
        }
        let w = &words[i];
        let mut j: usize = 0;
        let ghost r1 = r@;
        while j < w.len()
            invariant
                j <= w@.len(),
                r@ == r1 + w@.take(j as int),
            decreases w.len() - j,
        {
            r.push(w[j]);
            assert(r@ =~= r1 + w@.take(j + 1));
            j = j + 1;
        }
        assert(w@.take(j as int) =~= w@);
        if i == a {
            assert(r@ =~= sub[0]);
        } else {
            assert(r@ =~= r0 + seq![' '] + sub.last());
        }
        i = i + 1;
    }
    r
}

/// The texts of the windows over one paragraph's words.
fn paragraph_windows(
    words: &Vec<Vec<char>>,
    ids: &Vec<usize>,
    size: usize,
    step: usize,
) -> (r: Vec<Vec<char>>)
    requires
        words@.len() == ids@.len(),
        size > 0,
        step > 0,
    ensures
        views(r@) == window_texts(views(words@), windows_from(ids@, 0, size as int, step as int)),
{
    let n = ids.len();
    let ghost ws = views(words@);
    let ghost total = window_texts(ws, windows_from(ids@, 0, size as int, step as int));
    let mut out: Vec<Vec<char>> = Vec::new();
    let mut start: usize = 0;
    assert(total =~= views(out@) + total);
    while start < n
        invariant
            n == ids@.len() == words@.len(),
            ws == views(words@),
            size > 0,
            step > 0,
            start <= n,
            total == views(out@) + window_texts(
                ws,
                windows_from(ids@, start as int, size as int, step as int),
            ),
        decreases n - start,
    {
        let mut end: usize = start;
        let mut count: usize = 0;
        while end < n && count < size
            invariant
                n == ids@.len(),
                start <= end <= n,
                count == end - start,
                fill_end(ids@, start as int, 0, size as int) == fill_end(
                    ids@,
                    end as int,
                    count as int,
                    size as int,
                ),
            decreases n - end,
        {
            let k = count_words_in_sentence(ids, end, ids[end]);
            proof {
                lemma_run_len_bound(ids@, end + 1, ids@[end as int]);
            }
            count = count + k;
            end = end + k;
        }
        let t = join_range(words, start, end);
        let ghost rest = windows_from(ids@, start as int, size as int, step as int);
        let ghost e = fill_end(ids@, start as int, 0, size as int);
        let ghost o0 = out@;
        out.push(t);
        proof {
            assert(views(out@) =~= views(o0).push(t@));
            assert(e == end);
            assert(rest[0] == (start as int, e));
        }
        if end >= n || step >= n - start {
            proof {
                assert(rest =~= seq![(start as int, e)]);
                assert(windows_from(ids@, n as int, size as int, step as int) =~= Seq::<(int, int)>::empty());
                assert(window_texts(ws, rest) =~= seq![t@]);
                assert(total =~= views(out@) + window_texts(ws, Seq::<(int, int)>::empty()));
            }
            start = n;
        } else {
            proof {
                let nxt = windows_from(ids@, start + step, size as int, step as int);
                assert(rest =~= seq![(start as int, e)] + nxt);
                assert(window_texts(ws, rest) =~= seq![t@] + window_texts(ws, nxt));
                assert(total =~= views(out@) + window_texts(ws, nxt));
            }
            start = start + step;
        }
    }
    out
}

/// The chunk texts of one paragraph.
fn paragraph_chunk_texts(p: &Vec<char>, size: usize, step: usize) -> (r: Vec<Vec<char>>)
    requires
        size > 0,
        step > 0,
    ensures
        views(r@) == paragraph_texts(p@, size as int, step as int),
{
    let ss = sentence_chars(p);
    let (ws, ids) = flatten(&ss);
    paragraph_windows(&ws, &ids, size, step)
}

/// Cuts a document into chunks: paragraphs on blank lines, sentences on '.',
/// '?' and '!', and in each paragraph a window that takes whole sentences until
/// it holds at least `chunk_size` words, the next window starting
/// `chunk_size - overlap` words later (one word later where the overlap is not
/// smaller than the size). Chunks are numbered from 0 across the whole document.
pub fn hierarchical_chunking(
    file: LoadedFile,
    chunk_size: &ChunkSize,
    overlap: &ChunkOverlap,
) -> (r: Result<ChunkedFile<Chunk>, ChunkConfigError>)
    ensures
        *chunk_size <= 0 ==> r == Err::<ChunkedFile<Chunk>, ChunkConfigError>(
            ChunkConfigError::NonPositiveSize,
        ),
        *chunk_size > 0 && *overlap < 0 ==> r == Err::<ChunkedFile<Chunk>, ChunkConfigError>(
            ChunkConfigError::NegativeOverlap,
        ),
        *chunk_size > 0 && *overlap >= 0 ==> r is Ok && r->Ok_0.file == file && numbered(
            r->Ok_0.chunks@,
            chunk_texts(file.content@, *chunk_size as int, *overlap as int),
        ),
{
    if *chunk_size <= 0 {
        return Err(ChunkConfigError::NonPositiveSize);
    }
    if *overlap < 0 {
        return Err(ChunkConfigError::NegativeOverlap);
    }
    let size = *chunk_size as usize;
    let ov = *overlap as usize;
    let step: usize = if size > ov {
        size - ov
    } else {
        1
    };
    let cs = chars_of(file.content.as_str());
    let ps = keep_trimmed_nonempty(&split_at_blank_lines(&cs));
    let ghost pv = views(ps@);
    let mut chunks: Vec<Chunk> = Vec::new();
    let mut j: usize = 0;
    assert(pv.take(0) =~= Seq::<Seq<char>>::empty());
    while j < ps.len()
        invariant
            j <= ps@.len(),
            pv == views(ps@),
            pv == paragraphs_of(file.content@),
            size > 0,
            step > 0,
            numbered(chunks@, paragraphs_texts(pv.take(j as int), size as int, step as int)),
        decreases ps.len() - j,
    {
        let texts = paragraph_chunk_texts(&ps[j], size, step);
        let ghost before = paragraphs_texts(pv.take(j as int), size as int, step as int);
        let mut m: usize = 0;
        while m < texts.len()
            invariant
                m <= texts@.len(),
                numbered(chunks@, before + views(texts@).take(m as int)),
            decreases texts.len() - m,
        {
            let text = string_of(&texts[m]);
            let c = Chunk { seq_num: chunks.len(), text };
            chunks.push(c);
            assert(before + views(texts@).take(m + 1) =~= (before + views(texts@).take(m as int)).push(
                texts@[m as int]@,
            ));
            m = m + 1;
        }
        proof {
            let t = pv.take(j + 1);
            assert(t.drop_last() =~= pv.take(j as int));
            assert(t.last() == ps@[j as int]@);
            assert(views(texts@).take(m as int) =~= views(texts@));
        }
        j = j + 1;
    }
    assert(pv.take(ps.len() as int) =~= pv);
    Ok(ChunkedFile { file, chunks })
}

/// Cuts a document into chunks with the given strategy.
pub fn chunk(file: LoadedFile, strategy: ChunkingStrategy) -> (r: Result<ChunkedFile<Chunk>, ChunkConfigError>)
    ensures
        match strategy {
            ChunkingStrategy::Hierarchical(size, overlap) => {
                &&& size <= 0 ==> r == Err::<ChunkedFile<Chunk>, ChunkConfigError>(
                    ChunkConfigError::NonPositiveSize,
                )
                &&& size > 0 && overlap < 0 ==> r == Err::<ChunkedFile<Chunk>, ChunkConfigError>(
                    ChunkConfigError::NegativeOverlap,
                )
                &&& size > 0 && overlap >= 0 ==> r is Ok && r->Ok_0.file == file && numbered(
                    r->Ok_0.chunks@,
                    chunk_texts(file.content@, size as int, overlap as int),
                )
            },
        },
{
    match strategy {
        ChunkingStrategy::Hierarchical(size, overlap) => hierarchical_chunking(file, &size, &overlap),
    }
}

/// The words at positions `a` up to `f` all belong to the sentence of the word at `a`.
pub open spec fn one_sentence(ids: Seq<usize>, a: int, f: int) -> bool {
    forall|m: int| a <= m < f ==> ids[m] == ids[a]
}

proof fn lemma_run_len_const(ids: Seq<usize>, i: int, t: usize)
    requires
        0 <= i,
    ensures
        forall|m: int|
            #![trigger ids[m]]
            i <= m < i + run_len(ids, i, t) ==> ids[m] == t,
    decreases ids.len() - i,
{
    if 0 <= i < ids.len() && ids[i] == t {
        lemma_run_len_const(ids, i + 1, t);
        assert(run_len(ids, i, t) == 1 + run_len(ids, i + 1, t));
        assert forall|m: int|
            #![trigger ids[m]]
            i <= m < i + run_len(ids, i, t) implies ids[m] == t by {
            if m > i {
                assert(i + 1 <= m < i + 1 + run_len(ids, i + 1, t));
                assert(ids[m] == t);
            }
        }
    } else {
        assert(run_len(ids, i, t) == 0);
    }
}

/// Facts on where a window that is being filled ends.
proof fn lemma_fill_end(ids: Seq<usize>, e: int, count: int, size: int)
    requires
        0 <= e <= ids.len(),
    ensures
        e <= fill_end(ids, e, count, size) <= ids.len(),
        fill_end(ids, e, count, size) < ids.len() ==> fill_end(ids, e, count, size) - e + count
            >= size,
        e < ids.len() && count < size ==> fill_end(ids, e, count, size) > e && exists|a: int|
            e <= a < fill_end(ids, e, count, size) && a - e + count < size && #[trigger] one_sentence(
                ids,
                a,
                fill_end(ids, e, count, size),
            ),
    decreases ids.len() - e,
{
    if 0 <= e < ids.len() && count < size {
        let k = 1 + run_len(ids, e + 1, ids[e]);
        lemma_run_len_bound(ids, e + 1, ids[e]);
        lemma_run_len_const(ids, e + 1, ids[e]);
        lemma_fill_end(ids, e + k, count + k, size);
        let f = fill_end(ids, e, count, size);
        assert(f == fill_end(ids, e + k, count + k, size));
        if e + k < ids.len() && count + k < size {
            let a = choose|a: int|
                e + k <= a < f && a - (e + k) + count + k < size && #[trigger] one_sentence(ids, a, f);
            assert(e <= a < f && a - e + count < size);
        } else {
            assert(f == e + k);
            assert forall|m: int| e <= m < f implies ids[m] == ids[e] by {
                if m > e {
                    assert(e + 1 <= m < e + 1 + run_len(ids, e + 1, ids[e]));
                }
            }
            assert(one_sentence(ids, e, f));
        }
    }
}

/// The windows over a paragraph's words tile them in order: the first starts at
/// the first word, each next one starts `step` words later but no later than
/// where the one before it ended, so no word is skipped, and the last one ends
/// at the last word. Every window holds at least one word.
pub proof fn lemma_windows_tile(ids: Seq<usize>, s: int, size: int, step: int)
    requires
        0 <= s < ids.len(),
        0 < step <= size,
    ensures
        ({
            let ws = windows_from(ids, s, size, step);
            &&& ws.len() >= 1
            &&& ws[0].0 == s
            &&& ws.last().1 == ids.len()
            &&& forall|i: int| 0 <= i < ws.len() ==> s <= (#[trigger] ws[i]).0 < ws[i].1 <= ids.len()
            &&& forall|i: int|
                0 <= i < ws.len() - 1 ==> ws[i + 1].0 == (#[trigger] ws[i]).0 + step && ws[i + 1].0
                    <= ws[i].1
        }),
    decreases ids.len() - s,
{
    let ws = windows_from(ids, s, size, step);
    let e = fill_end(ids, s, 0, size);
    lemma_fill_end(ids, s, 0, size);
    if e >= ids.len() || s + step >= ids.len() {
        assert(ws =~= seq![(s, e)]);
        assert(ws[0] == (s, e));
        assert(e == ids.len());
    } else {
        let rest = windows_from(ids, s + step, size, step);
        lemma_windows_tile(ids, s + step, size, step);
        assert(ws =~= seq![(s, e)] + rest);
        assert(ws[0] == (s, e));
        assert forall|i: int| 0 <= i < ws.len() implies s <= (#[trigger] ws[i]).0 < ws[i].1
            <= ids.len() by {
            if i > 0 {
                assert(ws[i] == rest[i - 1]);
            }
        }
        assert forall|i: int| 0 <= i < ws.len() - 1 implies ws[i + 1].0 == (#[trigger] ws[i]).0
            + step && ws[i + 1].0 <= ws[i].1 by {
            if i > 0 {
                assert(ws[i] == rest[i - 1] && ws[i + 1] == rest[i]);
                assert(rest[i - 1 + 1] == rest[i]);
            } else {
                assert(ws[1] == rest[0]);
                assert(e - s >= size);
            }
        }
        assert(ws.last() == rest.last());
    }
}

/// A window holds fewer than `size` words followed by the rest of a single
/// sentence: it exceeds `size` by less than the length of the one sentence it
/// had to take whole.
pub open spec fn within_size_but_one_sentence(ids: Seq<usize>, s: int, e: int, size: int) -> bool {
    exists|a: int| s <= a < e && a - s < size && #[trigger] one_sentence(ids, a, e)
}

/// No window exceeds `size` words by more than the rest of one sentence.
pub proof fn lemma_windows_bounded(ids: Seq<usize>, s: int, size: int, step: int)
    requires
        0 <= s < ids.len(),
        0 < step <= size,
    ensures
        ({
            let ws = windows_from(ids, s, size, step);
            forall|i: int|
                0 <= i < ws.len() ==> within_size_but_one_sentence(
                    ids,
                    (#[trigger] ws[i]).0,
                    ws[i].1,
                    size,
                )
        }),
    decreases ids.len() - s,
{
    let ws = windows_from(ids, s, size, step);
    let e = fill_end(ids, s, 0, size);
    lemma_fill_end(ids, s, 0, size);
    assert(within_size_but_one_sentence(ids, s, e, size));
    if e >= ids.len() || s + step >= ids.len() {
        assert(ws =~= seq![(s, e)]);
    } else {
        let rest = windows_from(ids, s + step, size, step);
        lemma_windows_tile(ids, s + step, size, step);
        lemma_windows_bounded(ids, s + step, size, step);
        assert(ws =~= seq![(s, e)] + rest);
        assert forall|i: int| 0 <= i < ws.len() implies within_size_but_one_sentence(
            ids,
            (#[trigger] ws[i]).0,
            ws[i].1,
            size,
        ) by {
            if i > 0 {
                assert(ws[i] == rest[i - 1]);
            }
        }
    }
}

/// `flat_ids` numbers every word of `flat_words`.
proof fn lemma_flat_len(ss: Seq<Seq<char>>)
    ensures
        flat_ids(ss).len() == flat_words(ss).len(),
    decreases ss.len(),
{
    if ss.len() > 0 {
        lemma_flat_len(ss.drop_last());
    }
}

proof fn lemma_paragraphs_texts_len(ps: Seq<Seq<char>>, size: int, step: int, j: int)
    requires
        0 <= j < ps.len(),
    ensures
        paragraphs_texts(ps, size, step).len() >= paragraph_texts(ps[j], size, step).len(),
    decreases ps.len(),
{
    if j < ps.len() - 1 {
        lemma_paragraphs_texts_len(ps.drop_last(), size, step, j);
    }
}

/// Chunking with a valid configuration gives at least one chunk for a document
/// in which some paragraph has a word.
pub proof fn lemma_nonempty_document(content: Seq<char>, size: int, overlap: int, j: int)
    requires
        size > 0,
        overlap >= 0,
        0 <= j < paragraphs_of(content).len(),
        flat_words(sentences_of(paragraphs_of(content)[j])).len() > 0,
    ensures
        chunk_texts(content, size, overlap).len() > 0,
{
    let ps = paragraphs_of(content);
    let step = step_of(size, overlap);
    let ss = sentences_of(ps[j]);
    lemma_flat_len(ss);
    lemma_windows_tile(flat_ids(ss), 0, size, step);
    lemma_paragraphs_texts_len(ps, size, step, j);
}

/// Chunking an empty document gives no chunk.
pub proof fn lemma_empty_document(size: int, overlap: int)
    ensures
        chunk_texts(Seq::empty(), size, overlap).len() == 0,
{
    assert(split_blank_lines(Seq::<char>::empty()) =~= seq![Seq::<char>::empty()]);
    assert(trim(Seq::<char>::empty()).len() == 0);
    assert(seq![Seq::<char>::empty()].skip(1) =~= Seq::<Seq<char>>::empty());
    assert(trimmed_nonempty(Seq::<Seq<char>>::empty()) == Seq::<Seq<char>>::empty());
    assert(seq![Seq::<char>::empty()][0] == Seq::<char>::empty());
    assert(paragraphs_of(Seq::empty()) =~= Seq::<Seq<char>>::empty());
}

/// A window that has counted fewer words ends no earlier.
proof fn lemma_fill_end_count_mono(ids: Seq<usize>, e: int, c1: int, c2: int, size: int)
    requires
        0 <= e <= ids.len(),
        c1 <= c2,
    ensures
        fill_end(ids, e, c1, size) >= fill_end(ids, e, c2, size),
    decreases ids.len() - e,
{
    lemma_fill_end(ids, e, c1, size);
    if e < ids.len() && c2 < size {
        let k = 1 + run_len(ids, e + 1, ids[e]);
        lemma_run_len_bound(ids, e + 1, ids[e]);
        lemma_fill_end_count_mono(ids, e + k, c1 + k, c2 + k, size);
    }
}

/// Where the run of the sentence at `e` ends: from any later word of the same
/// run, the run ends at the same place.
proof fn lemma_run_end_shared(ids: Seq<usize>, e: int, y: int)
    requires
        0 <= e <= y < e + 1 + run_len(ids, e + 1, ids[e]),
        e < ids.len(),
    ensures
        y + 1 + run_len(ids, y + 1, ids[y]) == e + 1 + run_len(ids, e + 1, ids[e]),
        ids[y] == ids[e],
    decreases y - e,
{
    lemma_run_len_const(ids, e + 1, ids[e]);
    if y > e {
        assert(ids[y] == ids[e]);
        assert(run_len(ids, e + 1, ids[e]) == 1 + run_len(ids, e + 2, ids[e]));
        if y > e + 1 {
            lemma_run_len_bound(ids, e + 1, ids[e]);
            lemma_run_end_shared(ids, e + 1, y);
        }
    }
}

/// A window started inside another, having counted no more words than that one
/// had at the same place, ends no earlier than it.
proof fn lemma_fill_end_later_start(ids: Seq<usize>, e: int, c: int, y: int, cy: int, size: int)
    requires
        0 <= e <= y < fill_end(ids, e, c, size),
        c < size,
        cy < size,
        cy <= c + (y - e),
    ensures
        fill_end(ids, y, cy, size) >= fill_end(ids, e, c, size),
    decreases ids.len() - e,
{
    lemma_fill_end(ids, e, c, size);
    let k = 1 + run_len(ids, e + 1, ids[e]);
    lemma_run_len_bound(ids, e + 1, ids[e]);
    let e1 = e + k;
    if y < e1 {
        lemma_run_end_shared(ids, e, y);
        let ky = 1 + run_len(ids, y + 1, ids[y]);
        assert(y + ky == e1);
        assert(fill_end(ids, y, cy, size) == fill_end(ids, e1, cy + ky, size));
        lemma_fill_end_count_mono(ids, e1, cy + ky, c + k, size);
    } else {
        assert(fill_end(ids, e, c, size) == fill_end(ids, e1, c + k, size));
        if c + k >= size || e1 >= ids.len() {
            assert(fill_end(ids, e1, c + k, size) == e1);
        }
        lemma_fill_end_later_start(ids, e1, c + k, y, cy, size);
    }
}

/// Consecutive windows end in order: a window never ends before the one before it.
pub proof fn lemma_window_ends_ordered(ids: Seq<usize>, s: int, size: int, step: int)
    requires
        0 <= s < ids.len(),
        0 < step <= size,
    ensures
        ({
            let ws = windows_from(ids, s, size, step);
            forall|i: int| 0 <= i < ws.len() - 1 ==> (#[trigger] ws[i]).1 <= ws[i + 1].1
        }),
    decreases ids.len() - s,
{
    let ws = windows_from(ids, s, size, step);
    let e = fill_end(ids, s, 0, size);
    lemma_fill_end(ids, s, 0, size);
    if !(e >= ids.len() || s + step >= ids.len()) {
        let rest = windows_from(ids, s + step, size, step);
        lemma_windows_tile(ids, s + step, size, step);
        lemma_window_ends_ordered(ids, s + step, size, step);
        assert(ws =~= seq![(s, e)] + rest);
        assert(rest[0].1 == fill_end(ids, s + step, 0, size));
        if s + step < e {
            lemma_fill_end_later_start(ids, s, 0, s + step, 0, size);
        } else {
            lemma_fill_end(ids, s + step, 0, size);
        }
        assert forall|i: int| 0 <= i < ws.len() - 1 implies (#[trigger] ws[i]).1 <= ws[i + 1].1 by {
            if i > 0 {
                assert(ws[i] == rest[i - 1] && ws[i + 1] == rest[i]);
                assert(rest[i - 1 + 1] == rest[i]);
            } else {
                assert(ws[0] == (s, e) && ws[1] == rest[0]);
            }
        }
    }
}

/// The words of windows `ws` with the overlap removed: the first window whole,
/// then from each next window only the words past the end of the one before it.
pub open spec fn rejoin(words: Seq<Seq<char>>, ws: Seq<(int, int)>) -> Seq<Seq<char>>
    decreases ws.len(),
{
    if ws.len() == 0 {
        Seq::empty()
    } else if ws.len() == 1 {
        words.subrange(ws[0].0, ws[0].1)
    } else {
        rejoin(words, ws.drop_last()) + words.subrange(ws[ws.len() - 2].1, ws.last().1)
    }
}

proof fn lemma_rejoin_prefix(words: Seq<Seq<char>>, ws: Seq<(int, int)>, k: int)
    requires
        1 <= k <= ws.len(),
        forall|i: int| 0 <= i < ws.len() ==> 0 <= (#[trigger] ws[i]).0 < ws[i].1 <= words.len(),
        forall|i: int| 0 <= i < ws.len() - 1 ==> (#[trigger] ws[i]).1 <= ws[i + 1].1,
    ensures
        rejoin(words, ws.take(k)) == words.subrange(ws[0].0, ws[k - 1].1),
        ws[0].0 <= ws[k - 1].1,
    decreases k,
{
    let t = ws.take(k);
    if k == 1 {
        assert(t[0] == ws[0]);
    } else {
        lemma_rejoin_prefix(words, ws, k - 1);
        assert(t.drop_last() =~= ws.take(k - 1));
        assert(t[t.len() - 2] == ws[k - 2] && t.last() == ws[k - 1]);
        assert(ws[k - 2].1 <= ws[k - 1].1);
        assert(words.subrange(ws[0].0, ws[k - 2].1) + words.subrange(ws[k - 2].1, ws[k - 1].1)
            =~= words.subrange(ws[0].0, ws[k - 1].1));
    }
}

/// The chunks of a paragraph give back its words, in order, once the overlap
/// is removed: the words of the first window, then of each next window those
/// past the end of the window before it, are exactly the paragraph's words.
pub proof fn lemma_rejoin_windows(words: Seq<Seq<char>>, ids: Seq<usize>, size: int, step: int)
    requires
        words.len() == ids.len(),
        0 < step <= size,
    ensures
        rejoin(words, windows_from(ids, 0, size, step)) == words,
{
    let ws = windows_from(ids, 0, size, step);
    if ids.len() == 0 {
        assert(words =~= Seq::<Seq<char>>::empty());
    } else {
        lemma_windows_tile(ids, 0, size, step);
        lemma_window_ends_ordered(ids, 0, size, step);
        lemma_rejoin_prefix(words, ws, ws.len() as int);
        assert(ws.take(ws.len() as int) =~= ws);
        assert(words.subrange(0, words.len() as int) =~= words);
    }
}

/// The round trip for a whole paragraph's chunk texts: the windows the texts
/// are cut from, with the overlap removed, give back the words of the
/// paragraph's sentences in order.
pub proof fn lemma_paragraph_round_trip(p: Seq<char>, size: int, overlap: int)
    requires
        size > 0,
        overlap >= 0,
    ensures
        ({
            let ss = sentences_of(p);
            rejoin(flat_words(ss), windows_from(flat_ids(ss), 0, size, step_of(size, overlap)))
                == flat_words(ss)
        }),
{
    let ss = sentences_of(p);
    lemma_flat_len(ss);
    lemma_rejoin_windows(flat_words(ss), flat_ids(ss), size, step_of(size, overlap));
}

} // verus!
