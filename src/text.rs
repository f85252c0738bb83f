use vstd::prelude::*;
use vstd::std_specs::iter::IteratorSpec;

verus! {

/// ASCII whitespace: space, tab, line feed, form feed and carriage return.
pub open spec fn is_space(c: char) -> bool {
    c == ' ' || c == '\t' || c == '\n' || c == '\r' || c == '\x0C'
}

/// The text cut at each `sep`; the separators themselves are dropped.
/// Text with `n` separators has `n + 1` pieces.
pub open spec fn split_on(s: Seq<char>, sep: char) -> Seq<Seq<char>>
    decreases s.len(),
{
    if s.len() == 0 {
        seq![Seq::empty()]
    } else {
        let prev = split_on(s.drop_last(), sep);
        if s.last() == sep {
            prev.push(Seq::empty())
        } else {
            prev.update(prev.len() - 1, prev.last().push(s.last()))
        }
    }
}

/// The lines of a text: it is cut at each line feed.
pub open spec fn split_lines(s: Seq<char>) -> Seq<Seq<char>> {
    split_on(s, '\n')
}

/// `s` without its leading whitespace.
pub open spec fn trim_start(s: Seq<char>) -> Seq<char>
    decreases s.len(),
{
    if s.len() > 0 && is_space(s[0]) {
        trim_start(s.drop_first())
    } else {
        s
    }
}

/// `s` without its trailing whitespace.
pub open spec fn trim_end(s: Seq<char>) -> Seq<char>
    decreases s.len(),
{
    if s.len() > 0 && is_space(s.last()) {
        trim_end(s.drop_last())
    } else {
        s
    }
}

/// `s` without its leading and trailing whitespace.
pub open spec fn trim(s: Seq<char>) -> Seq<char> {
    trim_end(trim_start(s))
}

/// The maximal runs of non-whitespace characters of `s`, in order.
pub open spec fn words(s: Seq<char>) -> Seq<Seq<char>>
    decreases s.len(),
{
    if s.len() == 0 {
        Seq::empty()
    } else if is_space(s.last()) {
        words(s.drop_last())
    } else if s.len() >= 2 && !is_space(s[s.len() - 2]) {
        let prev = words(s.drop_last());
        prev.update(prev.len() - 1, prev.last().push(s.last()))
    } else {
        words(s.drop_last()).push(seq![s.last()])
    }
}

/// The words joined with one space between each two.
pub open spec fn join_words(ws: Seq<Seq<char>>) -> Seq<char>
    decreases ws.len(),
{
    if ws.len() == 0 {
        Seq::empty()
    } else if ws.len() == 1 {
        ws[0]
    } else {
        join_words(ws.drop_last()) + seq![' '] + ws.last()
    }
}

/// Each two-character sequence backslash, `n` replaced by a line feed,
/// scanning from the left.
pub open spec fn expand_newlines(s: Seq<char>) -> Seq<char>
    decreases s.len(),
{
    if s.len() == 0 {
        s
    } else if s.len() >= 2 && s[0] == '\\' && s[1] == 'n' {
        seq!['\n'] + expand_newlines(s.subrange(2, s.len() as int))
    } else {
        seq![s[0]] + expand_newlines(s.drop_first())
    }
}

/// The pieces of `s` that the spans mark out.
pub open spec fn spans_text(s: Seq<char>, spans: Seq<(usize, usize)>) -> Seq<Seq<char>> {
    spans.map_values(|p: (usize, usize)| s.subrange(p.0 as int, p.1 as int))
}

/// Every span lies inside `[lo, hi)` and is ordered.
pub open spec fn spans_within(spans: Seq<(usize, usize)>, lo: int, hi: int) -> bool {
    forall|k: int|
        0 <= k < spans.len() ==> lo <= (#[trigger] spans[k]).0 <= spans[k].1 <= hi
}

/// Expanding escapes does not reach across a boundary that is not followed
/// by `n`.
proof fn lemma_expand_concat(a: Seq<char>, r: Seq<char>)
    requires
        r.len() == 0 || r[0] != 'n',
    ensures
        expand_newlines(a + r) == expand_newlines(a) + expand_newlines(r),
    decreases a.len(),
{
    if a.len() == 0 {
        assert(a + r =~= r);
    } else if a.len() >= 2 && a[0] == '\\' && a[1] == 'n' {
        lemma_expand_concat(a.subrange(2, a.len() as int), r);
        assert((a + r).subrange(2, (a + r).len() as int) =~= a.subrange(2, a.len() as int) + r);
        assert(expand_newlines(a + r) =~= expand_newlines(a) + expand_newlines(r));
    } else if a.len() == 1 {
        assert((a + r).drop_first() =~= r);
        assert(a.drop_first() =~= Seq::<char>::empty());
        assert(expand_newlines(a.drop_first()) =~= Seq::<char>::empty());
        assert(expand_newlines(a) =~= seq![a[0]]);
        assert(expand_newlines(a + r) =~= expand_newlines(a) + expand_newlines(r));
    } else {
        lemma_expand_concat(a.drop_first(), r);
        assert((a + r).drop_first() =~= a.drop_first() + r);
        assert(expand_newlines(a + r) =~= expand_newlines(a) + expand_newlines(r));
    }
}

/// Expanding the joined words is joining the expanded words.
proof fn lemma_expand_join(ws: Seq<Seq<char>>)
    ensures
        expand_newlines(join_words(ws)) == join_words(
            ws.map_values(|w: Seq<char>| expand_newlines(w)),
        ),
    decreases ws.len(),
{
    let ex = ws.map_values(|w: Seq<char>| expand_newlines(w));
    if ws.len() >= 2 {
        let init = ws.drop_last();
        lemma_expand_join(init);
        assert(ex.drop_last() =~= init.map_values(|w: Seq<char>| expand_newlines(w)));
        let tail = seq![' '] + ws.last();
        lemma_expand_concat(join_words(init), tail);
        assert(join_words(ws) =~= join_words(init) + tail);
        assert(tail.drop_first() =~= ws.last());
        assert(expand_newlines(tail) =~= seq![' '] + expand_newlines(ws.last()));
    }
}

/// The characters of `s`, in order.
pub fn chars_of(s: &str) -> (r: Vec<char>)
    ensures
        r@ == s@,
{
    let mut out: Vec<char> = Vec::new();
    let mut it = s.chars();
    loop
        invariant
            it.obeys_prophetic_iter_laws(),
            it.decrease() is Some,
            out@ + it.remaining() == s@,
        ensures
            out@ == s@,
        decreases it.decrease()->0,
    {
        match it.next() {
            Some(c) => {
                out.push(c);
            },
            None => {
                assert(it.remaining().len() == 0);
                assert(out@ =~= s@);
                break;
            },
        }
    }
    out
}

/// The spans of the pieces of `s[lo..hi]` cut at each `sep`, as
/// [`split_on`] cuts them.
pub fn split_spans(s: &Vec<char>, lo: usize, hi: usize, sep: char) -> (r: Vec<(usize, usize)>)
    requires
        lo <= hi <= s@.len(),
    ensures
        spans_within(r@, lo as int, hi as int),
        spans_text(s@, r@) == split_on(s@.subrange(lo as int, hi as int), sep),
{
    let mut r: Vec<(usize, usize)> = Vec::new();
    let mut start: usize = lo;
    let mut i: usize = lo;
    assert(s@.subrange(lo as int, lo as int) =~= Seq::<char>::empty());
    assert(spans_text(s@, r@).push(s@.subrange(lo as int, lo as int)) =~= seq![Seq::<char>::empty()]);
    while i < hi
        invariant
            lo <= start <= i <= hi <= s@.len(),
            spans_within(r@, lo as int, start as int),
            split_on(s@.subrange(lo as int, i as int), sep) == spans_text(s@, r@).push(
                s@.subrange(start as int, i as int),
            ),
        decreases hi - i,
    {
        let ghost old_r = r@;
        let ghost old_start = start;
        let ghost sub = s@.subrange(lo as int, i + 1);
        assert(sub.drop_last() =~= s@.subrange(lo as int, i as int));
        assert(sub.last() == s@[i as int]);
        if s[i] == sep {
            r.push((start, i));
            start = i + 1;
            assert(spans_text(s@, r@) =~= spans_text(s@, old_r).push(
                s@.subrange(old_start as int, i as int),
            ));
            assert(s@.subrange(start as int, i + 1) =~= Seq::<char>::empty());
        } else {
            assert(s@.subrange(start as int, i as int).push(s@[i as int]) =~= s@.subrange(
                start as int,
                i + 1,
            ));
            assert(split_on(sub, sep) =~= spans_text(s@, r@).push(
                s@.subrange(start as int, i + 1),
            ));
        }
        i = i + 1;
    }
    let ghost old_r = r@;
    r.push((start, i));
    assert(spans_text(s@, r@) =~= spans_text(s@, old_r).push(s@.subrange(start as int, i as int)));
    r
}

/// The spans of the words of `s[lo..hi]`, as [`words`] finds them.
pub fn word_spans(s: &Vec<char>, lo: usize, hi: usize) -> (r: Vec<(usize, usize)>)
    requires
        lo <= hi <= s@.len(),
    ensures
        spans_within(r@, lo as int, hi as int),
        spans_text(s@, r@) == words(s@.subrange(lo as int, hi as int)),
{
    let mut r: Vec<(usize, usize)> = Vec::new();
    let mut ws: usize = lo;
    let mut in_word = false;
    let mut i: usize = lo;
    while i < hi
        invariant
            lo <= ws <= i <= hi <= s@.len(),
            spans_within(r@, lo as int, ws as int),
            in_word == (i > lo && !is_space(s@[i - 1])),
            in_word ==> ws < i && words(s@.subrange(lo as int, i as int)) == spans_text(
                s@,
                r@,
            ).push(s@.subrange(ws as int, i as int)),
            !in_word ==> words(s@.subrange(lo as int, i as int)) == spans_text(s@, r@),
        decreases hi - i,
    {
        let ghost old_r = r@;
        let ghost sub = s@.subrange(lo as int, i + 1);
        assert(sub.drop_last() =~= s@.subrange(lo as int, i as int));
        assert(sub.last() == s@[i as int]);
        let c = s[i];
        if is_space_char(c) {
            if in_word {
                r.push((ws, i));
                assert(spans_text(s@, r@) =~= spans_text(s@, old_r).push(
                    s@.subrange(ws as int, i as int),
                ));
            }
            ws = i + 1;
            in_word = false;
        } else {
            if in_word {
                assert(sub[sub.len() - 2] == s@[i - 1]);
                assert(s@.subrange(ws as int, i as int).push(c) =~= s@.subrange(ws as int, i + 1));
                assert(words(sub) =~= spans_text(s@, r@).push(s@.subrange(ws as int, i + 1)));
            } else {
                if i > lo {
                    assert(sub[sub.len() - 2] == s@[i - 1]);
                }
                ws = i;
                assert(seq![c] =~= s@.subrange(ws as int, i + 1));
            }
            in_word = true;
        }
        i = i + 1;
    }
    if in_word {
        let ghost old_r = r@;
        r.push((ws, i));
        assert(spans_text(s@, r@) =~= spans_text(s@, old_r).push(
            s@.subrange(ws as int, i as int),
        ));
    }
    r
}

/// Whether `s[a..b]` is exactly the text `kw`.
pub fn span_is(s: &Vec<char>, a: usize, b: usize, kw: &str) -> (r: bool)
    requires
        a <= b <= s@.len(),
    ensures
        r == (s@.subrange(a as int, b as int) == kw@),
{
    let n = kw.unicode_len();
    if b - a != n {
        assert(s@.subrange(a as int, b as int).len() != kw@.len());
        return false;
    }
    let mut k: usize = 0;
    while k < n
        invariant
            k <= n,
            n == b - a,
            n == kw@.len(),
            a <= b <= s@.len(),
            forall|j: int| 0 <= j < k ==> s@[a + j] == kw@[j],
        decreases n - k,
    {
        if s[a + k] != kw.get_char(k) {
            assert(s@.subrange(a as int, b as int)[k as int] != kw@[k as int]);
            return false;
        }
        k = k + 1;
    }
    assert(s@.subrange(a as int, b as int) =~= kw@);
    true
}

/// Appends `s[a..b]` to `out`, each backslash-`n` pair turned into a line
/// feed when `escapes` is set.
fn append_piece(out: &mut String, src: &str, s: &Vec<char>, a: usize, b: usize, escapes: bool)
    requires
        src@ == s@,
        a <= b <= s@.len(),
    ensures
        final(out)@ == old(out)@ + (if escapes {
            expand_newlines(s@.subrange(a as int, b as int))
        } else {
            s@.subrange(a as int, b as int)
        }),
{
    if !escapes {
        out.append(src.substring_char(a, b));
        return;
    }
    let ghost target = old(out)@ + expand_newlines(s@.subrange(a as int, b as int));
    let mut chunk: usize = a;
    let mut i: usize = a;
    while i < b
        invariant
            a <= chunk <= i <= b <= s@.len(),
            src@ == s@,
            target == out@ + s@.subrange(chunk as int, i as int) + expand_newlines(
                s@.subrange(i as int, b as int),
            ),
        decreases b - i,
    {
        let ghost rest = s@.subrange(i as int, b as int);
        if s[i] == '\\' && i + 1 < b && s[i + 1] == 'n' {
            let ghost before = out@;
            out.append(src.substring_char(chunk, i));
            out.append("\n");
            proof {
                reveal_strlit("\n");
                assert("\n"@ =~= seq!['\n']);
            }
            assert(rest[0] == s@[i as int] && rest[1] == s@[i + 1]);
            assert(rest.subrange(2, rest.len() as int) =~= s@.subrange(i + 2, b as int));
            assert(out@ =~= before + s@.subrange(chunk as int, i as int) + seq!['\n']);
            assert(target =~= out@ + expand_newlines(s@.subrange(i + 2, b as int)));
            i = i + 2;
            chunk = i;
            assert(s@.subrange(chunk as int, i as int) =~= Seq::<char>::empty());
        } else {
            assert(rest.drop_first() =~= s@.subrange(i + 1, b as int));
            assert(rest[0] == s@[i as int]);
            assert(!(rest.len() >= 2 && rest[0] == '\\' && rest[1] == 'n'));
            assert(s@.subrange(chunk as int, i as int) + seq![s@[i as int]] =~= s@.subrange(
                chunk as int,
                i + 1,
            ));
            i = i + 1;
        }
    }
    out.append(src.substring_char(chunk, i));
    assert(s@.subrange(i as int, b as int) =~= Seq::<char>::empty());
}

/// The words that `spans[from..]` mark out in `s`, joined with single
/// spaces; with `escapes` set, each backslash-`n` pair in the result becomes
/// a line feed.
pub fn join_spans(src: &str, s: &Vec<char>, spans: &Vec<(usize, usize)>, from: usize, escapes: bool) -> (r: String)
    requires
        src@ == s@,
        from <= spans@.len(),
        spans_within(spans@, 0, s@.len() as int),
    ensures
        r@ == (if escapes {
            expand_newlines(join_words(spans_text(s@, spans@).subrange(from as int, spans@.len() as int)))
        } else {
            join_words(spans_text(s@, spans@).subrange(from as int, spans@.len() as int))
        }),
{
    let ghost ws = spans_text(s@, spans@);
    let ghost ex = if escapes {
        ws.map_values(|w: Seq<char>| expand_newlines(w))
    } else {
        ws
    };
    let mut out = String::new();
    let mut k: usize = from;
    while k < spans.len()
        invariant
            from <= k <= spans@.len(),
            src@ == s@,
            spans_within(spans@, 0, s@.len() as int),
            ws == spans_text(s@, spans@),
            ex == (if escapes { ws.map_values(|w: Seq<char>| expand_newlines(w)) } else { ws }),
            out@ == join_words(ex.subrange(from as int, k as int)),
        decreases spans@.len() - k,
    {
        let ghost before = out@;
        if k > from {
            out.append(" ");
            proof {
                reveal_strlit(" ");
                assert(" "@ =~= seq![' ']);
            }
        }
        let ghost mid = out@;
        let (a, b) = spans[k];
        assert(ws[k as int] == s@.subrange(a as int, b as int));
        append_piece(&mut out, src, s, a, b, escapes);
        assert(out@ == mid + ex[k as int]);
        let ghost part = ex.subrange(from as int, k + 1);
        assert(part.drop_last() =~= ex.subrange(from as int, k as int));
        if k > from {
            assert(out@ =~= before + seq![' '] + ex[k as int]);
        } else {
            assert(out@ =~= ex[k as int]);
        }
        k = k + 1;
    }
    proof {
        if escapes {
            let sub = ws.subrange(from as int, spans@.len() as int);
            lemma_expand_join(sub);
            assert(sub.map_values(|w: Seq<char>| expand_newlines(w)) =~= ex.subrange(
                from as int,
                spans@.len() as int,
            ));
        }
    }
    out
}

/// The piece `s[a..b]` as a string.
pub fn span_string(src: &str, s: &Vec<char>, a: usize, b: usize) -> (r: String)
    requires
        src@ == s@,
        a <= b <= s@.len(),
    ensures
        r@ == s@.subrange(a as int, b as int),
{
    String::from_str(src.substring_char(a, b))
}

/// The pieces that `spans` mark out in `s`, as strings.
pub fn span_strings(src: &str, s: &Vec<char>, spans: &Vec<(usize, usize)>) -> (r: Vec<String>)
    requires
        src@ == s@,
        spans_within(spans@, 0, s@.len() as int),
    ensures
        r@.map_values(|t: String| t@) == spans_text(s@, spans@),
{
    let mut r: Vec<String> = Vec::new();
    let mut k: usize = 0;
    while k < spans.len()
        invariant
            k <= spans@.len(),
            r@.len() == k,
            src@ == s@,
            spans_within(spans@, 0, s@.len() as int),
            r@.map_values(|t: String| t@) == spans_text(s@, spans@).subrange(0, k as int),
        decreases spans@.len() - k,
    {
        let (a, b) = spans[k];
        let t = span_string(src, s, a, b);
        let ghost old_r = r@;
        r.push(t);
        assert(r@.map_values(|t: String| t@) =~= spans_text(s@, spans@).subrange(0, k + 1)) by {
            assert(old_r.map_values(|t: String| t@) =~= spans_text(s@, spans@).subrange(0, k as int));
            assert(spans_text(s@, spans@)[k as int] == s@.subrange(a as int, b as int));
            assert(r@[k as int]@ == s@.subrange(a as int, b as int));
            assert forall|j: int| 0 <= j < k implies r@[j]@ == old_r[j]@ by {}
        }
        k = k + 1;
    }
    assert(spans_text(s@, spans@).subrange(0, spans@.len() as int) =~= spans_text(s@, spans@));
    r
}

/// Whether `c` is ASCII whitespace.
pub fn is_space_char(c: char) -> (r: bool)
    ensures
        r == is_space(c),
{
    c == ' ' || c == '\t' || c == '\n' || c == '\r' || c == '\x0C'
}

/// The span of `s[lo..hi]` once trimmed.
pub fn trim_span(s: &Vec<char>, lo: usize, hi: usize) -> (r: (usize, usize))
    requires
        lo <= hi <= s@.len(),
    ensures
        lo <= r.0 <= r.1 <= hi,
        s@.subrange(r.0 as int, r.1 as int) == trim(s@.subrange(lo as int, hi as int)),
{
    let mut i: usize = lo;
    while i < hi && is_space_char(s[i])
        invariant
            lo <= i <= hi <= s@.len(),
            trim_start(s@.subrange(lo as int, hi as int)) == trim_start(s@.subrange(i as int, hi as int)),
        decreases hi - i,
    {
        assert(s@.subrange(i as int, hi as int).drop_first() =~= s@.subrange(i + 1, hi as int));
        i = i + 1;
    }
    let mut j: usize = hi;
    while j > i && is_space_char(s[j - 1])
        invariant
            lo <= i <= j <= hi <= s@.len(),
            trim(s@.subrange(lo as int, hi as int)) == trim_end(s@.subrange(i as int, j as int)),
        decreases j - i,
    {
        assert(s@.subrange(i as int, j as int).drop_last() =~= s@.subrange(i as int, j - 1));
        j = j - 1;
    }
    (i, j)
}

} // verus!
