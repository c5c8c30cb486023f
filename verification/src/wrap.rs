//! Fitting text to the printer's line width: splitting over-long words and
//! greedy word wrapping.
use vstd::prelude::*;
use vstd::string::*;
use crate::text::{
    clean_parts, concat, is_white_space, lemma_concat_append, lemma_concat_single,
    lemma_letters_append, lemma_letters_clean, lemma_words, letters, no_white_space, views, words,
    chars_of, string_from_chars, split_whitespace, char_count, push_char,
};

verus! {

/// `w` cut into consecutive pieces of `m` characters, the last one possibly
/// shorter; no pieces for an empty `w`.
pub open spec fn chunks(w: Seq<char>, m: nat) -> Seq<Seq<char>>
    decreases w.len(),
{
    if m == 0 || w.len() == 0 {
        seq![]
    } else if w.len() <= m {
        seq![w]
    } else {
        seq![w.take(m as int)] + chunks(w.skip(m as int), m)
    }
}

/// What `split_long_word` returns: the whole word when `m` is zero, its
/// pieces of `m` characters otherwise.
pub open spec fn split_long_word_spec(w: Seq<char>, m: nat) -> Seq<Seq<char>> {
    if m == 0 {
        seq![w]
    } else {
        chunks(w, m)
    }
}

/// Every character is a space or not whitespace at all.
pub open spec fn spaced(s: Seq<char>) -> bool {
    forall|j: int| 0 <= j < s.len() ==> !is_white_space(#[trigger] s[j]) || s[j] == ' '
}

/// A line that the wrapper may emit: between one and `m` characters, with no
/// whitespace but plain spaces.
pub open spec fn fitting_line(l: Seq<char>, m: nat) -> bool {
    0 < l.len() <= m && spaced(l)
}

/// The pieces of a word put back together give the word; each piece is
/// non-empty and at most `m` long, and all but the last are exactly `m` long.
pub proof fn lemma_chunks(w: Seq<char>, m: nat)
    requires
        m > 0,
    ensures
        concat(chunks(w, m)) == w,
        forall|i: int|
            0 <= i < chunks(w, m).len() ==> 0 < (#[trigger] chunks(w, m)[i]).len() <= m,
        forall|i: int|
            0 <= i < chunks(w, m).len() - 1 ==> (#[trigger] chunks(w, m)[i]).len() == m,
        w.len() > 0 ==> chunks(w, m).len() > 0,
    decreases w.len(),
{
    if w.len() == 0 {
    } else if w.len() <= m {
        lemma_concat_single(w);
    } else {
        let head = w.take(m as int);
        let rest = w.skip(m as int);
        lemma_chunks(rest, m);
        lemma_concat_append(seq![head], chunks(rest, m));
        lemma_concat_single(head);
        assert(head + rest =~= w);
        let c = chunks(w, m);
        assert(c =~= seq![head] + chunks(rest, m));
        assert forall|i: int| 0 <= i < c.len() implies 0 < (#[trigger] c[i]).len() <= m by {
            if i > 0 {
                assert(c[i] == chunks(rest, m)[i - 1]);
            }
        }
        assert forall|i: int| 0 <= i < c.len() - 1 implies (#[trigger] c[i]).len() == m by {
            if i > 0 {
                assert(c[i] == chunks(rest, m)[i - 1]);
            }
        }
    }
}

/// The pieces of a word without whitespace hold no whitespace either, and
/// each is a line that fits.
pub proof fn lemma_chunks_clean(w: Seq<char>, m: nat)
    requires
        m > 0,
        no_white_space(w),
    ensures
        forall|i: int| 0 <= i < chunks(w, m).len() ==> fitting_line(#[trigger] chunks(w, m)[i], m),
        forall|i: int| 0 <= i < chunks(w, m).len() ==> no_white_space(#[trigger] chunks(w, m)[i]),
    decreases w.len(),
{
    lemma_chunks(w, m);
    let c = chunks(w, m);
    if w.len() == 0 {
    } else if w.len() <= m {
        assert(c[0] == w);
    } else {
        let head = w.take(m as int);
        let rest = w.skip(m as int);
        assert(no_white_space(rest)) by {
            assert forall|j: int| 0 <= j < rest.len() implies !is_white_space(#[trigger] rest[j]) by {
                assert(rest[j] == w[j + m]);
            }
        }
        assert(no_white_space(head)) by {
            assert forall|j: int| 0 <= j < head.len() implies !is_white_space(#[trigger] head[j]) by {
                assert(head[j] == w[j]);
            }
        }
        lemma_chunks_clean(rest, m);
        assert(c =~= seq![head] + chunks(rest, m));
        assert forall|i: int| 0 <= i < c.len() implies no_white_space(#[trigger] c[i]) by {
            if i > 0 {
                assert(c[i] == chunks(rest, m)[i - 1]);
            }
        }
    }
    assert forall|i: int| 0 <= i < c.len() implies fitting_line(#[trigger] c[i], m) by {
        assert(no_white_space(c[i]));
    }
}

/// Splits a word into pieces of `max_chars` characters; the last piece may be
/// shorter. With `max_chars == 0` the word is returned whole.
pub fn split_long_word(word: &str, max_chars: usize) -> (parts: Vec<String>)
    ensures
        views(parts@) == split_long_word_spec(word@, max_chars as nat),
{
    if max_chars == 0 {
        let whole = word.to_owned();
        let parts = vec![whole];
        assert(views(parts@) =~= seq![word@]);
        return parts;
    }
    let ghost m = max_chars as nat;
    let chars = chars_of(word);
    let n = chars.len();
    let mut parts: Vec<String> = Vec::new();
    let mut start: usize = 0;
    assert(word@.skip(0) =~= word@);
    while start < n
        invariant
            start <= n == chars.len(),
            chars@ == word@,
            m == max_chars > 0,
            views(parts@) + chunks(word@.skip(start as int), m) == chunks(word@, m),
        decreases n - start,
    {
        let end = if n - start > max_chars {
            start + max_chars
        } else {
            n
        };
        let piece = string_from_chars(&chars, start, end);
        let ghost rest = word@.skip(start as int);
        let ghost before = views(parts@);
        parts.push(piece);
        proof {
            assert(views(parts@) =~= before.push(piece@));
            if rest.len() <= m {
                assert(piece@ =~= rest);
                assert(word@.skip(end as int).len() == 0);
                assert(chunks(word@.skip(end as int), m) =~= Seq::<Seq<char>>::empty());
                assert(before.push(piece@) + chunks(word@.skip(end as int), m) =~= before + seq![
                    rest,
                ]);
            } else {
                assert(piece@ =~= rest.take(m as int));
                assert(rest.skip(m as int) =~= word@.skip(end as int));
                assert(before.push(piece@) + chunks(word@.skip(end as int), m) =~= before + (seq![
                    rest.take(m as int),
                ] + chunks(rest.skip(m as int), m)));
            }
        }
        start = end;
    }
    assert(chunks(word@.skip(n as int), m) =~= Seq::<Seq<char>>::empty());
    assert(views(parts@) + Seq::<Seq<char>>::empty() =~= views(parts@));
    parts
}

/// The wrapper's state after one more word: the finished lines and the line
/// being filled.
pub open spec fn wrap_step(st: (Seq<Seq<char>>, Seq<char>), w: Seq<char>, m: nat) -> (
    Seq<Seq<char>>,
    Seq<char>,
) {
    let (lines, cur) = st;
    if cur.len() == 0 {
        if w.len() <= m {
            (lines, w)
        } else {
            (lines + chunks(w, m), seq![])
        }
    } else if cur.len() + 1 + w.len() <= m {
        (lines, cur + seq![' '] + w)
    } else if w.len() <= m {
        (lines.push(cur), w)
    } else if chunks(w, m).len() == 0 {
        (lines.push(cur), seq![])
    } else {
        (lines.push(cur) + chunks(w, m).drop_last(), chunks(w, m).last())
    }
}

/// The wrapper's state after the words `ws`, taken in order.
pub open spec fn wrap_fold(ws: Seq<Seq<char>>, m: nat) -> (Seq<Seq<char>>, Seq<char>)
    decreases ws.len(),
{
    if ws.len() == 0 {
        (seq![], seq![])
    } else {
        wrap_step(wrap_fold(ws.drop_last(), m), ws.last(), m)
    }
}

/// What `wrap_text` returns: the text whole when `m` is zero; otherwise its
/// words filled greedily into lines of at most `m` characters, joined by
/// single spaces, with words longer than a line cut into pieces; a single
/// empty line when there is no word.
pub open spec fn wrap_spec(text: Seq<char>, m: nat) -> Seq<Seq<char>> {
    if m == 0 {
        seq![text]
    } else {
        let (lines, cur) = wrap_fold(words(text), m);
        let all = if cur.len() > 0 {
            lines.push(cur)
        } else {
            lines
        };
        if all.len() == 0 {
            seq![seq![]]
        } else {
            all
        }
    }
}

/// The wrapper's state is sound: finished lines fit, the current line fits.
pub open spec fn wrap_state_ok(st: (Seq<Seq<char>>, Seq<char>), m: nat) -> bool {
    &&& forall|i: int| 0 <= i < st.0.len() ==> fitting_line(#[trigger] st.0[i], m)
    &&& st.1.len() <= m
    &&& spaced(st.1)
}

proof fn lemma_spaced_concat_space(a: Seq<char>, b: Seq<char>)
    requires
        spaced(a),
        spaced(b),
    ensures
        spaced(a + seq![' '] + b),
{
    let s = a + seq![' '] + b;
    assert forall|j: int| 0 <= j < s.len() implies !is_white_space(#[trigger] s[j]) || s[j] == ' ' by {
        if j < a.len() {
            assert(s[j] == a[j]);
        } else if j == a.len() {
        } else {
            assert(s[j] == b[j - a.len() - 1]);
        }
    }
}

proof fn lemma_letters_three(x: Seq<char>, w: Seq<char>)
    requires
        no_white_space(w),
    ensures
        letters(x + seq![' '] + w) == letters(x) + w,
{
    lemma_letters_clean(w);
    lemma_letters_append(x, seq![' ']);
    lemma_letters_append(x + seq![' '], w);
    assert(is_white_space(' '));
    assert(seq![' '].drop_last() =~= Seq::<char>::empty());
    assert(letters(seq![' ']) =~= letters(Seq::<char>::empty()));
    assert(letters(x) + letters(seq![' ']) =~= letters(x));
}

proof fn lemma_lines_push_ok(lines: Seq<Seq<char>>, cur: Seq<char>, m: nat)
    requires
        forall|i: int| 0 <= i < lines.len() ==> fitting_line(#[trigger] lines[i], m),
        fitting_line(cur, m),
    ensures
        forall|i: int| 0 <= i < lines.push(cur).len() ==> fitting_line(#[trigger] lines.push(cur)[i], m),
        concat(lines.push(cur)) == concat(lines) + cur,
{
    assert(lines.push(cur).drop_last() =~= lines);
    assert forall|i: int| 0 <= i < lines.push(cur).len() implies fitting_line(
        #[trigger] lines.push(cur)[i],
        m,
    ) by {
        if i < lines.len() {
            assert(lines.push(cur)[i] == lines[i]);
        }
    }
}

proof fn lemma_lines_append_ok(lines: Seq<Seq<char>>, more: Seq<Seq<char>>, m: nat)
    requires
        forall|i: int| 0 <= i < lines.len() ==> fitting_line(#[trigger] lines[i], m),
        forall|i: int| 0 <= i < more.len() ==> fitting_line(#[trigger] more[i], m),
    ensures
        forall|i: int| 0 <= i < (lines + more).len() ==> fitting_line(#[trigger] (lines + more)[i], m),
        concat(lines + more) == concat(lines) + concat(more),
{
    lemma_concat_append(lines, more);
    assert forall|i: int| 0 <= i < (lines + more).len() implies fitting_line(
        #[trigger] (lines + more)[i],
        m,
    ) by {
        if i < lines.len() {
            assert((lines + more)[i] == lines[i]);
        } else {
            assert((lines + more)[i] == more[i - lines.len()]);
        }
    }
}

proof fn lemma_wrap_step(st: (Seq<Seq<char>>, Seq<char>), w: Seq<char>, m: nat)
    requires
        m > 0,
        wrap_state_ok(st, m),
        w.len() > 0,
        no_white_space(w),
    ensures
        wrap_state_ok(wrap_step(st, w, m), m),
        letters(concat(wrap_step(st, w, m).0) + wrap_step(st, w, m).1) == letters(
            concat(st.0) + st.1,
        ) + w,
{
    let (lines, cur) = st;
    lemma_letters_clean(w);
    lemma_chunks_clean(w, m);
    lemma_chunks(w, m);
    let parts = chunks(w, m);
    assert(spaced(w));
    if cur.len() == 0 {
        assert(concat(lines) + cur =~= concat(lines));
        if w.len() <= m {
            lemma_letters_append(concat(lines), w);
        } else {
            lemma_lines_append_ok(lines, parts, m);
            assert(concat(lines + parts) + seq![] =~= concat(lines) + w);
            lemma_letters_append(concat(lines), w);
        }
    } else if cur.len() + 1 + w.len() <= m {
        lemma_spaced_concat_space(cur, w);
        assert(concat(lines) + (cur + seq![' '] + w) =~= (concat(lines) + cur) + seq![' '] + w);
        lemma_letters_three(concat(lines) + cur, w);
    } else {
        lemma_lines_push_ok(lines, cur, m);
        if w.len() <= m {
            lemma_letters_append(concat(lines) + cur, w);
        } else {
            let pl = parts.drop_last();
            assert forall|i: int| 0 <= i < pl.len() implies fitting_line(#[trigger] pl[i], m) by {
                assert(pl[i] == parts[i]);
            }
            lemma_lines_append_ok(lines.push(cur), pl, m);
            assert(concat(parts) == concat(pl) + parts.last());
            assert(concat(lines.push(cur) + pl) + parts.last() =~= (concat(lines) + cur) + w);
            lemma_letters_append(concat(lines) + cur, w);
            assert(fitting_line(parts[parts.len() - 1], m));
        }
    }
}

proof fn lemma_wrap_fold(ws: Seq<Seq<char>>, m: nat)
    requires
        m > 0,
        clean_parts(ws),
    ensures
        wrap_state_ok(wrap_fold(ws, m), m),
        letters(concat(wrap_fold(ws, m).0) + wrap_fold(ws, m).1) == concat(ws),
    decreases ws.len(),
{
    if ws.len() == 0 {
        assert(letters(concat(Seq::<Seq<char>>::empty()) + Seq::<char>::empty()) =~= Seq::<
            char,
        >::empty());
    } else {
        let prev = ws.drop_last();
        assert(clean_parts(prev)) by {
            assert forall|i: int| 0 <= i < prev.len() implies (#[trigger] prev[i]).len() > 0
                && no_white_space(prev[i]) by {
                assert(prev[i] == ws[i]);
            }
        }
        lemma_wrap_fold(prev, m);
        assert(ws[ws.len() - 1] == ws.last());
        lemma_wrap_step(wrap_fold(prev, m), ws.last(), m);
    }
}

/// What a wrapped text is made of: with a positive width, every line is
/// between one and `m` characters long and holds no whitespace but spaces;
/// the lines hold exactly the letters of the text, in order; and the result
/// is a single empty line just when the text has no letters.
pub proof fn lemma_wrap_properties(text: Seq<char>, m: nat)
    requires
        m > 0,
    ensures
        letters(concat(wrap_spec(text, m))) == letters(text),
        letters(text).len() == 0 ==> wrap_spec(text, m) == seq![Seq::<char>::empty()],
        letters(text).len() > 0 ==> forall|i: int|
            0 <= i < wrap_spec(text, m).len() ==> fitting_line(#[trigger] wrap_spec(text, m)[i], m),
        forall|i: int|
            0 <= i < wrap_spec(text, m).len() ==> (#[trigger] wrap_spec(text, m)[i]).len() <= m
                && spaced(wrap_spec(text, m)[i]),
{
    lemma_words(text);
    let ws = words(text);
    lemma_wrap_fold(ws, m);
    let (lines, cur) = wrap_fold(ws, m);
    let all = if cur.len() > 0 {
        lines.push(cur)
    } else {
        lines
    };
    if cur.len() > 0 {
        assert(lines.push(cur).drop_last() =~= lines);
        assert forall|i: int| 0 <= i < all.len() implies fitting_line(#[trigger] all[i], m) by {
            if i < lines.len() {
                assert(all[i] == lines[i]);
            }
        }
    } else {
        assert(concat(lines) + cur =~= concat(lines));
    }
    assert(letters(concat(all)) == letters(text));
    if letters(text).len() == 0 {
        if ws.len() > 0 {
            assert(concat(ws) == concat(ws.drop_last()) + ws.last());
            assert(ws[ws.len() - 1].len() > 0);
            assert(false);
        }
        assert(all =~= Seq::<Seq<char>>::empty());
        let e = seq![Seq::<char>::empty()];
        assert(wrap_spec(text, m) == e);
        assert(spaced(e[0]));
        lemma_concat_single(Seq::<char>::empty());
    } else {
        if all.len() == 0 {
            assert(concat(all) =~= Seq::<char>::empty());
            assert(letters(Seq::<char>::empty()) =~= Seq::<char>::empty());
            assert(false);
        }
    }
}

/// Lines put back into one text, with a single space between two lines.
pub open spec fn joined(ls: Seq<Seq<char>>) -> Seq<char>
    decreases ls.len(),
{
    if ls.len() == 0 {
        seq![]
    } else if ls.len() == 1 {
        ls[0]
    } else {
        joined(ls.drop_last()) + seq![' '] + ls.last()
    }
}

/// What a line starts with up to its first space: the whole line where it
/// has no space.
pub open spec fn first_word(l: Seq<char>) -> Seq<char>
    decreases l.len(),
{
    if l.len() == 0 || l[0] == ' ' {
        seq![]
    } else {
        seq![l[0]] + first_word(l.drop_first())
    }
}

/// The words in order, each one longer than `m` replaced by its pieces of
/// `m` characters.
pub open spec fn pieces(ws: Seq<Seq<char>>, m: nat) -> Seq<Seq<char>>
    decreases ws.len(),
{
    if ws.len() == 0 {
        seq![]
    } else {
        pieces(ws.drop_last(), m) + chunks(ws.last(), m)
    }
}

/// The lines of a wrapper's state, the line being filled included where it
/// holds something.
pub open spec fn with_current(lines: Seq<Seq<char>>, cur: Seq<char>) -> Seq<Seq<char>> {
    if cur.len() > 0 {
        lines.push(cur)
    } else {
        lines
    }
}

proof fn lemma_joined_push(ls: Seq<Seq<char>>, x: Seq<char>)
    ensures
        ls.len() == 0 ==> joined(ls.push(x)) == x,
        ls.len() > 0 ==> joined(ls.push(x)) == joined(ls) + seq![' '] + x,
{
    assert(ls.push(x).drop_last() =~= ls);
    assert(ls.push(x).last() == x);
    if ls.len() == 0 {
        assert(ls.push(x)[0] == x);
    }
}

proof fn lemma_joined_append(a: Seq<Seq<char>>, b: Seq<Seq<char>>)
    requires
        a.len() > 0,
        b.len() > 0,
    ensures
        joined(a + b) == joined(a) + seq![' '] + joined(b),
    decreases b.len(),
{
    if b.len() == 1 {
        assert(a + b =~= a.push(b[0]));
        lemma_joined_push(a, b[0]);
    } else {
        let front = b.drop_last();
        assert(a + b =~= (a + front).push(b.last()));
        lemma_joined_push(a + front, b.last());
        lemma_joined_append(a, front);
        assert(joined(a) + seq![' '] + joined(front) + seq![' '] + b.last() =~= joined(a) + seq![' ']
            + (joined(front) + seq![' '] + b.last()));
    }
}

proof fn lemma_first_word_space(a: Seq<char>, b: Seq<char>)
    ensures
        first_word(a + seq![' '] + b) == first_word(a),
    decreases a.len(),
{
    let s = a + seq![' '] + b;
    if a.len() == 0 {
        assert(s[0] == ' ');
    } else {
        assert(s[0] == a[0]);
        if a[0] != ' ' {
            assert(s.drop_first() =~= a.drop_first() + seq![' '] + b);
            lemma_first_word_space(a.drop_first(), b);
        }
    }
}

proof fn lemma_first_word_clean(w: Seq<char>)
    requires
        no_white_space(w),
    ensures
        first_word(w) == w,
    decreases w.len(),
{
    if w.len() > 0 {
        assert(is_white_space(' '));
        assert(w[0] != ' ');
        let rest = w.drop_first();
        assert(no_white_space(rest)) by {
            assert forall|j: int| 0 <= j < rest.len() implies !is_white_space(#[trigger] rest[j]) by {
                assert(rest[j] == w[j + 1]);
            }
        }
        lemma_first_word_clean(rest);
        assert(seq![w[0]] + rest =~= w);
    }
}

/// A word that fits on a line is its own single piece; a longer one starts
/// with a piece of exactly `m` characters.
proof fn lemma_chunks_front(w: Seq<char>, m: nat)
    requires
        m > 0,
        w.len() > 0,
    ensures
        w.len() <= m ==> chunks(w, m) == seq![w],
        w.len() > m ==> chunks(w, m).len() > 1 && chunks(w, m)[0].len() == m,
{
    if w.len() > m {
        lemma_chunks(w.skip(m as int), m);
        assert(chunks(w, m) =~= seq![w.take(m as int)] + chunks(w.skip(m as int), m));
    }
}

/// From position `from` on, each finished line is followed by one whose
/// first word would not have fitted behind it.
pub open spec fn greedy_lines(lines: Seq<Seq<char>>, cur: Seq<char>, m: nat, from: int) -> bool {
    forall|i: int|
        from <= i < lines.len() ==> (#[trigger] lines[i]).len() + 1 + first_word(
            lines.push(cur)[i + 1],
        ).len() > m
}

proof fn lemma_greedy_step(lines: Seq<Seq<char>>, cur: Seq<char>, w: Seq<char>, m: nat, from: int)
    requires
        m > 0,
        0 <= from,
        cur.len() > 0,
        w.len() > 0,
        no_white_space(w),
        greedy_lines(lines, cur, m, from),
    ensures
        wrap_step((lines, cur), w, m).1.len() > 0,
        wrap_step((lines, cur), w, m).0.len() >= lines.len(),
        forall|i: int| 0 <= i < lines.len() ==> #[trigger] wrap_step((lines, cur), w, m).0[i] == lines[i],
        greedy_lines(wrap_step((lines, cur), w, m).0, wrap_step((lines, cur), w, m).1, m, from),
{
    let (lines2, cur2) = wrap_step((lines, cur), w, m);
    let all = lines.push(cur);
    let all2 = lines2.push(cur2);
    lemma_chunks(w, m);
    lemma_chunks_clean(w, m);
    lemma_chunks_front(w, m);
    lemma_first_word_clean(w);
    let parts = chunks(w, m);
    if cur.len() + 1 + w.len() <= m {
        lemma_first_word_space(cur, w);
        assert forall|i: int| from <= i < lines2.len() implies (#[trigger] lines2[i]).len() + 1
            + first_word(all2[i + 1]).len() > m by {
            assert(lines2[i] == lines[i]);
            if i + 1 < lines.len() {
                assert(all2[i + 1] == all[i + 1]);
            } else {
                assert(all2[i + 1] == cur2);
                assert(all[i + 1] == cur);
            }
        }
    } else if w.len() <= m {
        assert forall|i: int| 0 <= i < lines.len() implies #[trigger] lines2[i] == lines[i] by {
            assert(lines2 == lines.push(cur));
        }
        assert forall|i: int| from <= i < lines2.len() implies (#[trigger] lines2[i]).len() + 1
            + first_word(all2[i + 1]).len() > m by {
            if i < lines.len() {
                assert(lines2[i] == lines[i]);
                assert(all2[i + 1] == all[i + 1]);
            } else {
                assert(lines2[i] == cur);
                assert(all2[i + 1] == w);
            }
        }
    } else {
        assert(all2 =~= all + parts);
        assert(lines2 =~= all + parts.drop_last());
        assert(no_white_space(parts[0]));
        lemma_first_word_clean(parts[0]);
        assert forall|i: int| 0 <= i < lines.len() implies #[trigger] lines2[i] == lines[i] by {
            assert(lines2[i] == all[i]);
        }
        assert forall|i: int| from <= i < lines2.len() implies (#[trigger] lines2[i]).len() + 1
            + first_word(all2[i + 1]).len() > m by {
            if i < lines.len() {
                assert(lines2[i] == lines[i]);
                assert(all2[i + 1] == all[i + 1]);
            } else if i == lines.len() {
                assert(lines2[i] == cur);
                assert(all2[i + 1] == parts[0]);
            } else {
                assert(lines2[i] == parts[i - lines.len() - 1]);
            }
        }
        assert(cur2 == parts[parts.len() - 1]);
    }
}

/// Words that are all too long for a line leave their pieces as finished
/// lines and nothing being filled.
proof fn lemma_wrap_fold_long(ws: Seq<Seq<char>>, m: nat)
    requires
        m > 0,
        clean_parts(ws),
        forall|j: int| 0 <= j < ws.len() ==> (#[trigger] ws[j]).len() > m,
    ensures
        wrap_fold(ws, m) == (pieces(ws, m), Seq::<char>::empty()),
    decreases ws.len(),
{
    if ws.len() > 0 {
        let prev = ws.drop_last();
        assert(ws[ws.len() - 1] == ws.last());
        assert(clean_parts(prev)) by {
            assert forall|i: int| 0 <= i < prev.len() implies (#[trigger] prev[i]).len() > 0
                && no_white_space(prev[i]) by {
                assert(prev[i] == ws[i]);
            }
        }
        assert forall|j: int| 0 <= j < prev.len() implies (#[trigger] prev[j]).len() > m by {
            assert(prev[j] == ws[j]);
        }
        lemma_wrap_fold_long(prev, m);
    }
}

proof fn lemma_take_clean(ws: Seq<Seq<char>>, n: int)
    requires
        clean_parts(ws),
        0 <= n <= ws.len(),
    ensures
        clean_parts(ws.take(n)),
{
    assert forall|i: int| 0 <= i < ws.take(n).len() implies (#[trigger] ws.take(n)[i]).len() > 0
        && no_white_space(ws.take(n)[i]) by {
        assert(ws.take(n)[i] == ws[i]);
    }
}

/// After the words up to `n`, where the words before `k` are too long for a
/// line and word `k` fits: the pieces of the words before `k` stand first,
/// and from there on the lines are filled greedily.
proof fn lemma_wrap_fold_greedy(ws: Seq<Seq<char>>, m: nat, k: int, n: int)
    requires
        m > 0,
        clean_parts(ws),
        0 <= k < n <= ws.len(),
        forall|j: int| 0 <= j < k ==> (#[trigger] ws[j]).len() > m,
        ws[k].len() <= m,
    ensures
        wrap_fold(ws.take(n), m).1.len() > 0,
        wrap_fold(ws.take(n), m).0.len() >= pieces(ws.take(k), m).len(),
        wrap_fold(ws.take(n), m).0.take(pieces(ws.take(k), m).len() as int) == pieces(ws.take(k), m),
        greedy_lines(
            wrap_fold(ws.take(n), m).0,
            wrap_fold(ws.take(n), m).1,
            m,
            pieces(ws.take(k), m).len() as int,
        ),
    decreases n,
{
    let t = ws.take(n);
    let front = ws.take(k);
    let p = pieces(front, m);
    assert(t.drop_last() =~= ws.take(n - 1));
    assert(t.last() == ws[n - 1]);
    lemma_take_clean(ws, n - 1);
    if n == k + 1 {
        assert(ws.take(n - 1) == front);
        assert forall|j: int| 0 <= j < front.len() implies (#[trigger] front[j]).len() > m by {
            assert(front[j] == ws[j]);
        }
        lemma_wrap_fold_long(front, m);
        assert(wrap_fold(t, m) == (p, ws[k]));
        assert(p.take(p.len() as int) =~= p);
    } else {
        lemma_wrap_fold_greedy(ws, m, k, n - 1);
        let (lines, cur) = wrap_fold(ws.take(n - 1), m);
        assert(ws[n - 1].len() > 0 && no_white_space(ws[n - 1]));
        lemma_greedy_step(lines, cur, ws[n - 1], m, p.len() as int);
        let lines2 = wrap_fold(t, m).0;
        assert(lines2.take(p.len() as int) =~= lines.take(p.len() as int)) by {
            assert forall|i: int| 0 <= i < p.len() implies lines2.take(p.len() as int)[i] == lines.take(
                p.len() as int,
            )[i] by {
                assert(lines2[i] == lines[i]);
            }
        }
    }
}

proof fn lemma_joined_step(lines: Seq<Seq<char>>, cur: Seq<char>, w: Seq<char>, m: nat)
    requires
        m > 0,
        w.len() > 0,
        no_white_space(w),
    ensures
        with_current(wrap_step((lines, cur), w, m).0, wrap_step((lines, cur), w, m).1).len() > 0,
        with_current(lines, cur).len() == 0 ==> joined(
            with_current(wrap_step((lines, cur), w, m).0, wrap_step((lines, cur), w, m).1),
        ) == joined(chunks(w, m)),
        with_current(lines, cur).len() > 0 ==> joined(
            with_current(wrap_step((lines, cur), w, m).0, wrap_step((lines, cur), w, m).1),
        ) == joined(with_current(lines, cur)) + seq![' '] + joined(chunks(w, m)),
{
    let (lines2, cur2) = wrap_step((lines, cur), w, m);
    let all = with_current(lines, cur);
    let all2 = with_current(lines2, cur2);
    lemma_chunks(w, m);
    lemma_chunks_front(w, m);
    let parts = chunks(w, m);
    if w.len() <= m {
        assert(joined(parts) == w);
    }
    if cur.len() == 0 {
        if w.len() <= m {
            lemma_joined_push(lines, w);
        } else {
            assert(all2 == lines + parts);
            if lines.len() > 0 {
                lemma_joined_append(lines, parts);
            } else {
                assert(lines + parts =~= parts);
            }
        }
    } else if cur.len() + 1 + w.len() <= m {
        lemma_joined_push(lines, cur + seq![' '] + w);
        lemma_joined_push(lines, cur);
        if lines.len() > 0 {
            assert(joined(all2) =~= joined(all) + seq![' '] + w);
        } else {
            assert(joined(all2) =~= joined(all) + seq![' '] + w);
        }
    } else if w.len() <= m {
        lemma_joined_push(all, w);
    } else {
        assert(parts[parts.len() - 1].len() > 0);
        assert(all2 =~= all + parts);
        lemma_joined_append(all, parts);
    }
}

proof fn lemma_wrap_fold_joined(ws: Seq<Seq<char>>, m: nat)
    requires
        m > 0,
        clean_parts(ws),
    ensures
        joined(with_current(wrap_fold(ws, m).0, wrap_fold(ws, m).1)) == joined(pieces(ws, m)),
        ws.len() == 0 ==> with_current(wrap_fold(ws, m).0, wrap_fold(ws, m).1).len() == 0
            && pieces(ws, m).len() == 0,
        ws.len() > 0 ==> with_current(wrap_fold(ws, m).0, wrap_fold(ws, m).1).len() > 0
            && pieces(ws, m).len() > 0,
    decreases ws.len(),
{
    if ws.len() > 0 {
        let prev = ws.drop_last();
        let w = ws.last();
        assert(ws[ws.len() - 1] == w);
        assert(clean_parts(prev)) by {
            assert forall|i: int| 0 <= i < prev.len() implies (#[trigger] prev[i]).len() > 0
                && no_white_space(prev[i]) by {
                assert(prev[i] == ws[i]);
            }
        }
        lemma_wrap_fold_joined(prev, m);
        let (lines, cur) = wrap_fold(prev, m);
        lemma_joined_step(lines, cur, w, m);
        lemma_chunks(w, m);
        let parts = chunks(w, m);
        if prev.len() == 0 {
            assert(pieces(ws, m) =~= parts);
        } else {
            lemma_joined_append(pieces(prev, m), parts);
        }
    }
}

proof fn lemma_pieces_fitting(ws: Seq<Seq<char>>, m: nat)
    requires
        m > 0,
        clean_parts(ws),
        forall|i: int| 0 <= i < ws.len() ==> (#[trigger] ws[i]).len() <= m,
    ensures
        pieces(ws, m) == ws,
    decreases ws.len(),
{
    if ws.len() > 0 {
        let prev = ws.drop_last();
        assert(ws[ws.len() - 1] == ws.last());
        assert(clean_parts(prev)) by {
            assert forall|i: int| 0 <= i < prev.len() implies (#[trigger] prev[i]).len() > 0
                && no_white_space(prev[i]) by {
                assert(prev[i] == ws[i]);
            }
        }
        assert forall|i: int| 0 <= i < prev.len() implies (#[trigger] prev[i]).len() <= m by {
            assert(prev[i] == ws[i]);
        }
        lemma_pieces_fitting(prev, m);
        lemma_chunks_front(ws.last(), m);
        assert(prev.push(ws.last()) =~= ws);
    }
}

/// How a text is laid out in lines of `m` characters: put back together
/// with single spaces, the lines give the text's words, in order and with
/// single spaces, each word longer than a line cut into pieces of `m`
/// characters (so just the words where every word fits on a line).
pub proof fn lemma_wrap_joined(text: Seq<char>, m: nat)
    requires
        m > 0,
    ensures
        joined(wrap_spec(text, m)) == joined(pieces(words(text), m)),
        (forall|i: int| 0 <= i < words(text).len() ==> (#[trigger] words(text)[i]).len() <= m)
            ==> pieces(words(text), m) == words(text),
{
    lemma_words(text);
    let ws = words(text);
    lemma_wrap_fold_joined(ws, m);
    if ws.len() == 0 {
        assert(wrap_spec(text, m) == seq![Seq::<char>::empty()]);
        assert(joined(seq![Seq::<char>::empty()]) == Seq::<char>::empty());
    }
    if forall|i: int| 0 <= i < ws.len() ==> (#[trigger] ws[i]).len() <= m {
        lemma_pieces_fitting(ws, m);
    }
}

/// The lines are filled greedily. Where the first `k` words are each too
/// long for a line, their pieces come first, each on a line of its own
/// (and make up the whole layout where there is no other word); from the
/// first word that fits on a line on, every line but the last is followed
/// by a line whose first word would have made it longer than `m` had it
/// been added behind a space: a word starts a new line only when it does
/// not fit on the current one. With `k` zero and a first word that fits,
/// this holds of every two consecutive lines.
pub proof fn lemma_wrap_greedy(text: Seq<char>, m: nat, k: int)
    requires
        m > 0,
        0 <= k <= words(text).len(),
        forall|j: int| 0 <= j < k ==> (#[trigger] words(text)[j]).len() > m,
    ensures
        wrap_spec(text, m).len() >= pieces(words(text).take(k), m).len(),
        wrap_spec(text, m).take(pieces(words(text).take(k), m).len() as int) == pieces(
            words(text).take(k),
            m,
        ),
        k == words(text).len() > 0 ==> wrap_spec(text, m) == pieces(words(text), m),
        k < words(text).len() && words(text)[k].len() <= m ==> forall|i: int|
            pieces(words(text).take(k), m).len() <= i < wrap_spec(text, m).len() - 1 ==> (
            #[trigger] wrap_spec(text, m)[i]).len() + 1 + first_word(wrap_spec(text, m)[i + 1]).len()
                > m,
    decreases words(text).len() - k,
{
    lemma_words(text);
    let ws = words(text);
    let front = ws.take(k);
    let p = pieces(front, m);
    if k < ws.len() && ws[k].len() <= m {
        lemma_wrap_fold_greedy(ws, m, k, ws.len() as int);
        assert(ws.take(ws.len() as int) =~= ws);
        let (lines, cur) = wrap_fold(ws, m);
        assert(wrap_spec(text, m) == lines.push(cur));
        assert(lines.push(cur).take(p.len() as int) =~= lines.take(p.len() as int));
    } else {
        if k < ws.len() {
            lemma_wrap_greedy(text, m, k + 1);
            let next = ws.take(k + 1);
            assert(next.drop_last() =~= front);
            assert(next.last() == ws[k]);
            let q = pieces(next, m);
            assert(q == p + chunks(ws[k], m));
            let w = wrap_spec(text, m);
            assert(w.take(p.len() as int) =~= w.take(q.len() as int).take(p.len() as int));
            assert(q.take(p.len() as int) =~= p);
        } else {
            assert(front =~= ws);
            lemma_wrap_fold_long(ws, m);
            lemma_wrap_fold_joined(ws, m);
            if ws.len() == 0 {
                assert(p =~= Seq::<Seq<char>>::empty());
                assert(wrap_spec(text, m).take(0) =~= Seq::<Seq<char>>::empty());
            } else {
                assert(wrap_spec(text, m) == p);
                assert(p.take(p.len() as int) =~= p);
            }
        }
    }
}

/// Moves every string of `more` to the end of `lines`.
fn extend_lines(lines: &mut Vec<String>, more: Vec<String>)
    ensures
        views(final(lines)@) == views(old(lines)@) + views(more@),
{
    let mut more = more;
    let ghost before = views(lines@);
    let ghost added = views(more@);
    lines.append(&mut more);
    assert(views(lines@) =~= before + added);
}

/// Wraps `text` into lines of at most `max_chars` characters, filling each
/// line greedily with whole words separated by single spaces and cutting a
/// word longer than a line into pieces. A text without words gives a single
/// empty line; `max_chars == 0` gives the text unchanged.
pub fn wrap_text(text: &str, max_chars: usize) -> (lines: Vec<String>)
    ensures
        views(lines@) == wrap_spec(text@, max_chars as nat),
        max_chars > 0 ==> letters(concat(views(lines@))) == letters(text@),
        max_chars > 0 ==> forall|i: int|
            0 <= i < lines.len() ==> (#[trigger] lines@[i])@.len() <= max_chars && spaced(
                lines@[i]@,
            ),
        max_chars > 0 && letters(text@).len() > 0 ==> forall|i: int|
            0 <= i < lines.len() ==> fitting_line(#[trigger] lines@[i]@, max_chars as nat),
        letters(text@).len() == 0 && max_chars > 0 ==> views(lines@) == seq![Seq::<char>::empty()],
        max_chars > 0 ==> joined(views(lines@)) == joined(pieces(words(text@), max_chars as nat)),
        max_chars > 0 && words(text@).len() > 0 && words(text@)[0].len() <= max_chars ==> forall|i: int|
            0 <= i < lines.len() - 1 ==> (#[trigger] lines@[i])@.len() + 1 + first_word(
                lines@[i + 1]@,
            ).len() > max_chars,
{
    if max_chars == 0 {
        let whole = text.to_owned();
        let lines = vec![whole];
        assert(views(lines@) =~= seq![text@]);
        return lines;
    }
    let ghost m = max_chars as nat;
    let ws = split_whitespace(text);
    proof {
        lemma_words(text@);
    }
    let mut lines: Vec<String> = Vec::new();
    let mut current = String::new();
    let mut cur_len: usize = 0;
    let mut i: usize = 0;
    while i < ws.len()
        invariant
            i <= ws.len(),
            m == max_chars > 0,
            views(ws@) == words(text@),
            clean_parts(words(text@)),
            (views(lines@), current@) == wrap_fold(words(text@).take(i as int), m),
            cur_len == current@.len(),
            cur_len <= max_chars,
        decreases ws.len() - i,
    {
        let word = &ws[i];
        let wlen = char_count(word.as_str());
        let ghost st = (views(lines@), current@);
        let ghost w = word@;
        proof {
            assert(words(text@).take(i + 1).drop_last() =~= words(text@).take(i as int));
            assert(words(text@).take(i + 1).last() == w);
            assert(words(text@)[i as int] == w);
        }
        if cur_len == 0 {
            if wlen <= max_chars {
                current = word.clone();
                cur_len = wlen;
            } else {
                let parts = split_long_word(word.as_str(), max_chars);
                extend_lines(&mut lines, parts);
            }
        } else if cur_len < max_chars && wlen <= max_chars - cur_len - 1 {
            push_char(&mut current, ' ');
            current.append(word.as_str());
            cur_len = cur_len + 1 + wlen;
            assert(current@ =~= st.1 + seq![' '] + w);
        } else {
            let finished = current;
            lines.push(finished);
            current = String::new();
            cur_len = 0;
            assert(views(lines@) =~= st.0.push(st.1));
            if wlen <= max_chars {
                current = word.clone();
                cur_len = wlen;
            } else {
                let mut parts = split_long_word(word.as_str(), max_chars);
                proof {
                    lemma_chunks(w, m);
                }
                let ghost pv = views(parts@);
                let last = parts.pop();
                match last {
                    Some(l) => {
                        proof {
                            assert(views(parts@) =~= pv.drop_last());
                        }
                        extend_lines(&mut lines, parts);
                        cur_len = char_count(l.as_str());
                        proof {
                            lemma_chunks(w, m);
                            assert(l@ == pv.last());
                        }
                        current = l;
                    },
                    None => {
                        assert(pv.len() == 0);
                    },
                }
            }
        }
        i = i + 1;
        proof {
            lemma_chunks(w, m);
            if cur_len > 0 {
                assert(current@.len() <= m);
            }
        }
    }
    assert(words(text@).take(ws.len() as int) =~= words(text@));
    if cur_len > 0 {
        let ghost before = views(lines@);
        lines.push(current);
        assert(views(lines@) =~= before.push(wrap_fold(words(text@), m).1));
    }
    if lines.len() == 0 {
        lines.push(String::new());
        assert(views(lines@) =~= seq![Seq::<char>::empty()]);
    }
    proof {
        lemma_wrap_properties(text@, m);
        lemma_wrap_joined(text@, m);
        if words(text@).len() > 0 && words(text@)[0].len() <= m {
            lemma_wrap_greedy(text@, m, 0);
            assert(words(text@).take(0) =~= Seq::<Seq<char>>::empty());
        }
        assert forall|i: int| 0 <= i < lines.len() implies (#[trigger] lines@[i])@ == views(
            lines@,
        )[i] by {}
    }
    lines
}

} // verus!
