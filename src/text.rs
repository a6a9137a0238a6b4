//! Character-level text handling: whitespace, trimming and splitting,
//! each stated as a recursive spec function over `Seq<char>`.
use vstd::prelude::*;

verus! {

/// The Unicode `White_Space` property, which `char::is_whitespace` follows.
pub open spec fn is_ws(c: char) -> bool {
    ||| c == '\t' || c == '\n' || c == '\u{B}' || c == '\u{C}' || c == '\r' || c == ' '
    ||| c == '\u{85}' || c == '\u{A0}' || c == '\u{1680}'
    ||| ('\u{2000}' <= c && c <= '\u{200A}')
    ||| c == '\u{2028}' || c == '\u{2029}' || c == '\u{202F}' || c == '\u{205F}'
    ||| c == '\u{3000}'
}

/// Sentence-terminal punctuation.
pub open spec fn is_terminal(c: char) -> bool {
    c == '.' || c == '?' || c == '!'
}

/// Views of a sequence of character vectors.
pub open spec fn views(v: Seq<Vec<char>>) -> Seq<Seq<char>> {
    v.map_values(|x: Vec<char>| x@)
}

/// Views of a sequence of strings.
pub open spec fn string_views(v: Seq<String>) -> Seq<Seq<char>> {
    v.map_values(|x: String| x@)
}

/// `s` with leading whitespace removed.
pub open spec fn trim_start(s: Seq<char>) -> Seq<char>
    decreases s.len(),
{
    if s.len() > 0 && is_ws(s[0]) {
        trim_start(s.skip(1))
    } else {
        s
    }
}

/// `s` with trailing whitespace removed.
pub open spec fn trim_end(s: Seq<char>) -> Seq<char>
    decreases s.len(),
{
    if s.len() > 0 && is_ws(s.last()) {
        trim_end(s.drop_last())
    } else {
        s
    }
}

/// `s` with whitespace removed at both ends.
pub open spec fn trim(s: Seq<char>) -> Seq<char> {
    trim_end(trim_start(s))
}

/// The pieces of `s` between the separators chosen by `sep` (empty pieces kept).
pub open spec fn split_by(s: Seq<char>, sep: spec_fn(char) -> bool) -> Seq<Seq<char>>
    decreases s.len(),
{
    if s.len() == 0 {
        seq![Seq::empty()]
    } else {
        let r = split_by(s.skip(1), sep);
        if sep(s[0]) {
            seq![Seq::empty()] + r
        } else {
            r.update(0, seq![s[0]] + r[0])
        }
    }
}

/// The pieces of `s` between occurrences of a blank line ("\n\n"), scanned left to right.
pub open spec fn split_blank_lines(s: Seq<char>) -> Seq<Seq<char>>
    decreases s.len(),
{
    if s.len() == 0 {
        seq![Seq::empty()]
    } else if s.len() >= 2 && s[0] == '\n' && s[1] == '\n' {
        seq![Seq::empty()] + split_blank_lines(s.skip(2))
    } else {
        let r = split_blank_lines(s.skip(1));
        r.update(0, seq![s[0]] + r[0])
    }
}

/// The pieces of `ps`, trimmed, that are not empty after trimming.
pub open spec fn trimmed_nonempty(ps: Seq<Seq<char>>) -> Seq<Seq<char>>
    decreases ps.len(),
{
    if ps.len() == 0 {
        Seq::empty()
    } else {
        let r = trimmed_nonempty(ps.skip(1));
        if trim(ps[0]).len() == 0 {
            r
        } else {
            seq![trim(ps[0])] + r
        }
    }
}

/// The pieces of `ps` that are not empty.
pub open spec fn nonempty(ps: Seq<Seq<char>>) -> Seq<Seq<char>>
    decreases ps.len(),
{
    if ps.len() == 0 {
        Seq::empty()
    } else {
        let r = nonempty(ps.skip(1));
        if ps[0].len() == 0 {
            r
        } else {
            seq![ps[0]] + r
        }
    }
}

/// The maximal runs of non-whitespace characters of `s`, in order.
pub open spec fn words_of(s: Seq<char>) -> Seq<Seq<char>> {
    nonempty(ws_pieces(s))
}

/// The pieces of `s` between whitespace characters.
pub open spec fn ws_pieces(s: Seq<char>) -> Seq<Seq<char>> {
    split_by(s, |c: char| is_ws(c))
}

/// The pieces of `s` between sentence-terminal marks.
pub open spec fn terminal_pieces(s: Seq<char>) -> Seq<Seq<char>> {
    split_by(s, |c: char| is_terminal(c))
}

/// The paragraphs of a text: pieces between blank lines, trimmed, empty ones dropped.
pub open spec fn paragraphs_of(s: Seq<char>) -> Seq<Seq<char>> {
    trimmed_nonempty(split_blank_lines(s))
}

/// Adds a closing period to every sentence.
pub open spec fn with_periods(ss: Seq<Seq<char>>) -> Seq<Seq<char>> {
    ss.map_values(|t: Seq<char>| t.push('.'))
}

/// The sentences of a paragraph: pieces between terminal punctuation, trimmed,
/// empty ones dropped, each closed by a period (the split removes every terminal
/// mark, so none of them already ends with one).
pub open spec fn sentences_of(p: Seq<char>) -> Seq<Seq<char>> {
    with_periods(trimmed_nonempty(terminal_pieces(p)))
}

/// The words of `ws` joined by single spaces.
pub open spec fn join_words(ws: Seq<Seq<char>>) -> Seq<char>
    decreases ws.len(),
{
    if ws.len() == 0 {
        Seq::empty()
    } else if ws.len() == 1 {
        ws[0]
    } else {
        join_words(ws.drop_last()) + seq![' '] + ws.last()
    }
}

/// Whether `c` is whitespace, as `char::is_whitespace` decides.
pub fn is_whitespace(c: char) -> (r: bool)
    ensures
        r == is_ws(c),
{
    c == '\t' || c == '\n' || c == '\u{B}' || c == '\u{C}' || c == '\r' || c == ' '
        || c == '\u{85}' || c == '\u{A0}' || c == '\u{1680}' || ('\u{2000}' <= c && c
        <= '\u{200A}') || c == '\u{2028}' || c == '\u{2029}' || c == '\u{202F}' || c
        == '\u{205F}' || c == '\u{3000}'
}

/// Relies on `str::chars`: the characters of `s`, in order.
#[verifier::external_body]
pub(crate) fn chars_of(s: &str) -> (r: Vec<char>)
    ensures
        r@ == s@,
{
    s.chars().collect()
}

/// Relies on `String: FromIterator<char>`: the string of the given characters.
#[verifier::external_body]
pub(crate) fn string_of(cs: &Vec<char>) -> (r: String)
    ensures
        r@ == cs@,
{
    cs.iter().collect()
}

/// `s` with whitespace removed at both ends.
pub fn trim_chars(s: &Vec<char>) -> (r: Vec<char>)
    ensures
        r@ == trim(s@),
{
    let n = s.len();
    let mut a: usize = 0;
    assert(s@.subrange(0, n as int) =~= s@);
    while a < n && is_whitespace(s[a])
        invariant
            a <= n == s@.len(),
            trim_start(s@) == trim_start(s@.subrange(a as int, n as int)),
        decreases n - a,
    {
        assert(s@.subrange(a as int, n as int).skip(1) =~= s@.subrange(a as int + 1, n as int));
        a = a + 1;
    }
    assert(trim_start(s@) == s@.subrange(a as int, n as int));
    let mut b: usize = n;
    while b > a && is_whitespace(s[b - 1])
        invariant
            a <= b <= n == s@.len(),
            trim(s@) == trim_end(s@.subrange(a as int, b as int)),
        decreases b,
    {
        assert(s@.subrange(a as int, b as int).drop_last() =~= s@.subrange(a as int, b - 1));
        b = b - 1;
    }
    let mut r: Vec<char> = Vec::new();
    let mut i: usize = a;
    while i < b
        invariant
            a <= i <= b <= n == s@.len(),
            r@ == s@.subrange(a as int, i as int),
        decreases b - i,
    {
        r.push(s[i]);
        assert(r@ =~= s@.subrange(a as int, i + 1));
        i = i + 1;
    }
    r
}

/// The pieces seen so far, the open piece, and the pieces of what is left.
pub open spec fn glue(out: Seq<Seq<char>>, cur: Seq<char>, rest: Seq<Seq<char>>) -> Seq<Seq<char>> {
    out + rest.update(0, cur + rest[0])
}

proof fn lemma_split_by_len(s: Seq<char>, sep: spec_fn(char) -> bool)
    ensures
        split_by(s, sep).len() >= 1,
    decreases s.len(),
{
    if s.len() > 0 {
        lemma_split_by_len(s.skip(1), sep);
    }
}

proof fn lemma_split_blank_lines_len(s: Seq<char>)
    ensures
        split_blank_lines(s).len() >= 1,
    decreases s.len(),
{
    if s.len() >= 2 && s[0] == '\n' && s[1] == '\n' {
        lemma_split_blank_lines_len(s.skip(2));
    } else if s.len() > 0 {
        lemma_split_blank_lines_len(s.skip(1));
    }
}

/// One step of a left-to-right split: character `c` joins the open piece.
proof fn lemma_glue_keep(out: Seq<Seq<char>>, cur: Seq<char>, c: char, rest: Seq<Seq<char>>)
    requires
        rest.len() >= 1,
    ensures
        glue(out, cur, rest.update(0, seq![c] + rest[0])) == glue(out, cur.push(c), rest),
{
    assert(cur + (seq![c] + rest[0]) =~= cur.push(c) + rest[0]);
    assert(rest.update(0, seq![c] + rest[0]).update(0, cur + (seq![c] + rest[0])) =~= rest.update(
        0,
        cur.push(c) + rest[0],
    ));
}

/// One step of a left-to-right split: a separator closes the open piece.
proof fn lemma_glue_close(out: Seq<Seq<char>>, cur: Seq<char>, rest: Seq<Seq<char>>)
    requires
        rest.len() >= 1,
    ensures
        glue(out, cur, seq![Seq::empty()] + rest) == glue(out.push(cur), Seq::empty(), rest),
{
    assert(Seq::<char>::empty() + rest[0] =~= rest[0]);
    assert(rest.update(0, Seq::<char>::empty() + rest[0]) =~= rest);
    assert((seq![Seq::<char>::empty()] + rest).update(0, cur + Seq::<char>::empty()) =~= seq![cur]
        + rest);
}

proof fn lemma_glue_start(rest: Seq<Seq<char>>)
    requires
        rest.len() >= 1,
    ensures
        glue(Seq::empty(), Seq::empty(), rest) == rest,
{
    assert(Seq::<char>::empty() + rest[0] =~= rest[0]);
    assert(Seq::<Seq<char>>::empty() + rest.update(0, Seq::<char>::empty() + rest[0]) =~= rest);
}

proof fn lemma_glue_end(out: Seq<Seq<char>>, cur: Seq<char>)
    ensures
        glue(out, cur, seq![Seq::empty()]) == out.push(cur),
{
    assert(cur + Seq::<char>::empty() =~= cur);
    assert(seq![Seq::<char>::empty()].update(0, cur + Seq::<char>::empty()) =~= seq![cur]);
}

proof fn lemma_views_push(v: Seq<Vec<char>>, x: Vec<char>)
    ensures
        views(v.push(x)) == views(v).push(x@),
{
    assert(views(v.push(x)) =~= views(v).push(x@));
}

/// Splits `s` at each sentence-terminal mark.
pub fn split_at_terminals(s: &Vec<char>) -> (r: Vec<Vec<char>>)
    ensures
        views(r@) == terminal_pieces(s@),
{
    let n = s.len();
    let mut out: Vec<Vec<char>> = Vec::new();
    let mut cur: Vec<char> = Vec::new();
    let mut i: usize = 0;
    assert(s@.skip(0) =~= s@);
    proof {
        lemma_split_by_len(s@, |c: char| is_terminal(c));
        lemma_glue_start(terminal_pieces(s@));
    }
    while i < n
        invariant
            i <= n == s@.len(),
            terminal_pieces(s@) == glue(views(out@), cur@, terminal_pieces(s@.skip(i as int))),
        decreases n - i,
    {
        let c = s[i];
        proof {
            assert(s@.skip(i as int).skip(1) =~= s@.skip(i + 1));
            lemma_split_by_len(s@.skip(i + 1), |c: char| is_terminal(c));
            assert(s@.skip(i as int)[0] == c);
        }
        if c == '.' || c == '?' || c == '!' {
            proof {
                lemma_glue_close(views(out@), cur@, terminal_pieces(s@.skip(i + 1)));
                lemma_views_push(out@, cur);
            }
            out.push(cur);
            cur = Vec::new();
        } else {
            proof {
                lemma_glue_keep(views(out@), cur@, c, terminal_pieces(s@.skip(i + 1)));
            }
            cur.push(c);
        }
        i = i + 1;
    }
    proof {
        assert(s@.skip(n as int) =~= Seq::<char>::empty());
        lemma_glue_end(views(out@), cur@);
        lemma_views_push(out@, cur);
    }
    out.push(cur);
    out
}

/// Splits `s` at each whitespace character.
pub fn split_at_whitespace(s: &Vec<char>) -> (r: Vec<Vec<char>>)
    ensures
        views(r@) == ws_pieces(s@),
{
    let n = s.len();
    let mut out: Vec<Vec<char>> = Vec::new();
    let mut cur: Vec<char> = Vec::new();
    let mut i: usize = 0;
    assert(s@.skip(0) =~= s@);
    proof {
        lemma_split_by_len(s@, |c: char| is_ws(c));
        lemma_glue_start(ws_pieces(s@));
    }
    while i < n
        invariant
            i <= n == s@.len(),
            ws_pieces(s@) == glue(views(out@), cur@, ws_pieces(s@.skip(i as int))),
        decreases n - i,
    {
        let c = s[i];
        proof {
            assert(s@.skip(i as int).skip(1) =~= s@.skip(i + 1));
            lemma_split_by_len(s@.skip(i + 1), |c: char| is_ws(c));
            assert(s@.skip(i as int)[0] == c);
        }
        if is_whitespace(c) {
            proof {
                lemma_glue_close(views(out@), cur@, ws_pieces(s@.skip(i + 1)));
                lemma_views_push(out@, cur);
            }
            out.push(cur);
            cur = Vec::new();
        } else {
            proof {
                lemma_glue_keep(views(out@), cur@, c, ws_pieces(s@.skip(i + 1)));
            }
            cur.push(c);
        }
        i = i + 1;
    }
    proof {
        assert(s@.skip(n as int) =~= Seq::<char>::empty());
        lemma_glue_end(views(out@), cur@);
        lemma_views_push(out@, cur);
    }
    out.push(cur);
    out
}

/// Splits `s` at each blank line ("\n\n"), scanning left to right.
pub fn split_at_blank_lines(s: &Vec<char>) -> (r: Vec<Vec<char>>)
    ensures
        views(r@) == split_blank_lines(s@),
{
    let n = s.len();
    let mut out: Vec<Vec<char>> = Vec::new();
    let mut cur: Vec<char> = Vec::new();
    let mut i: usize = 0;
    assert(s@.skip(0) =~= s@);
    proof {
        lemma_split_blank_lines_len(s@);
        lemma_glue_start(split_blank_lines(s@));
    }
    while i < n
        invariant
            i <= n == s@.len(),
            split_blank_lines(s@) == glue(views(out@), cur@, split_blank_lines(s@.skip(i as int))),
        decreases n - i,
    {
        if i + 1 < n && s[i] == '\n' && s[i + 1] == '\n' {
            proof {
                assert(s@.skip(i as int).skip(2) =~= s@.skip(i + 2));
                lemma_split_blank_lines_len(s@.skip(i + 2));
                lemma_glue_close(views(out@), cur@, split_blank_lines(s@.skip(i + 2)));
                lemma_views_push(out@, cur);
            }
            out.push(cur);
            cur = Vec::new();
            i = i + 2;
        } else {
            let c = s[i];
            proof {
                assert(s@.skip(i as int).skip(1) =~= s@.skip(i + 1));
                lemma_split_blank_lines_len(s@.skip(i + 1));
                lemma_glue_keep(views(out@), cur@, c, split_blank_lines(s@.skip(i + 1)));
            }
            cur.push(c);
            i = i + 1;
        }
    }
    proof {
        assert(s@.skip(n as int) =~= Seq::<char>::empty());
        lemma_glue_end(views(out@), cur@);
        lemma_views_push(out@, cur);
    }
    out.push(cur);
    out
}

/// The pieces of `ps`, trimmed, that are not empty after trimming.
pub fn keep_trimmed_nonempty(ps: &Vec<Vec<char>>) -> (r: Vec<Vec<char>>)
    ensures
        views(r@) == trimmed_nonempty(views(ps@)),
{
    let n = ps.len();
    let mut out: Vec<Vec<char>> = Vec::new();
    let mut i: usize = 0;
    assert(views(ps@).skip(0) =~= views(ps@));
    while i < n
        invariant
            i <= n == ps@.len(),
            trimmed_nonempty(views(ps@)) == views(out@) + trimmed_nonempty(views(ps@).skip(i as int)),
        decreases n - i,
    {
        assert(views(ps@).skip(i as int).skip(1) =~= views(ps@).skip(i + 1));
        assert(views(ps@).skip(i as int)[0] == ps@[i as int]@);
        let t = trim_chars(&ps[i]);
        if t.len() > 0 {
            proof {
                lemma_views_push(out@, t);
                assert(views(out@.push(t)) + trimmed_nonempty(views(ps@).skip(i + 1)) =~= views(out@)
                    + (seq![t@] + trimmed_nonempty(views(ps@).skip(i + 1))));
            }
            out.push(t);
        }
        i = i + 1;
    }
    assert(views(ps@).skip(n as int) =~= Seq::<Seq<char>>::empty());
    assert(views(out@) + Seq::<Seq<char>>::empty() =~= views(out@));
    out
}

/// The pieces of `ps` that are not empty.
pub fn keep_nonempty(ps: Vec<Vec<char>>) -> (r: Vec<Vec<char>>)
    ensures
        views(r@) == nonempty(views(ps@)),
{
    let n = ps.len();
    let mut out: Vec<Vec<char>> = Vec::new();
    let mut i: usize = 0;
    assert(views(ps@).skip(0) =~= views(ps@));
    while i < n
        invariant
            i <= n == ps@.len(),
            nonempty(views(ps@)) == views(out@) + nonempty(views(ps@).skip(i as int)),
        decreases n - i,
    {
        assert(views(ps@).skip(i as int).skip(1) =~= views(ps@).skip(i + 1));
        assert(views(ps@).skip(i as int)[0] == ps@[i as int]@);
        if ps[i].len() > 0 {
            let t = ps[i].clone();
            proof {
                assert(t@ == ps@[i as int]@);
                lemma_views_push(out@, t);
                assert(views(out@.push(t)) + nonempty(views(ps@).skip(i + 1)) =~= views(out@) + (
                seq![t@] + nonempty(views(ps@).skip(i + 1))));
            }
            out.push(t);
        }
        i = i + 1;
    }
    assert(views(ps@).skip(n as int) =~= Seq::<Seq<char>>::empty());
    assert(views(out@) + Seq::<Seq<char>>::empty() =~= views(out@));
    out
}

/// The words of `s`: maximal runs of non-whitespace characters.
pub fn words(s: &Vec<char>) -> (r: Vec<Vec<char>>)
    ensures
        views(r@) == words_of(s@),
{
    keep_nonempty(split_at_whitespace(s))
}

} // verus!
