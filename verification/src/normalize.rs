//! Reducing text to what the printer's character set can show.
use vstd::prelude::*;
use crate::text::{chars_of, push_char};

verus! {

/// What one character becomes on paper: German umlauts and sharp s are
/// transliterated, carriage returns dropped, other ASCII kept, and anything
/// else shown as a question mark.
pub open spec fn normalize_char(c: char) -> Seq<char> {
    if c == '\u{e4}' {
        seq!['a', 'e']
    } else if c == '\u{f6}' {
        seq!['o', 'e']
    } else if c == '\u{fc}' {
        seq!['u', 'e']
    } else if c == '\u{c4}' {
        seq!['A', 'E']
    } else if c == '\u{d6}' {
        seq!['O', 'E']
    } else if c == '\u{dc}' {
        seq!['U', 'E']
    } else if c == '\u{df}' {
        seq!['s', 's']
    } else if c == '\n' {
        seq!['\n']
    } else if c == '\r' {
        seq![]
    } else if (c as u32) < 128 {
        seq![c]
    } else {
        seq!['?']
    }
}

/// The text with every character replaced as `normalize_char` says.
pub open spec fn normalized(s: Seq<char>) -> Seq<char>
    decreases s.len(),
{
    if s.len() == 0 {
        seq![]
    } else {
        normalized(s.drop_last()) + normalize_char(s.last())
    }
}

/// Every character is ASCII and none is a carriage return.
pub open spec fn printable_ascii(s: Seq<char>) -> bool {
    forall|i: int| 0 <= i < s.len() ==> (#[trigger] s[i] as u32) < 128 && s[i] != '\r'
}

proof fn lemma_normalize_char(c: char)
    ensures
        printable_ascii(normalize_char(c)),
        printable_ascii(seq![c]) ==> normalize_char(c) == seq![c],
{
    let r = normalize_char(c);
    assert(('a' as u32) == 97 && ('e' as u32) == 101 && ('o' as u32) == 111 && ('u' as u32) == 117);
    assert(('A' as u32) == 65 && ('E' as u32) == 69 && ('O' as u32) == 79 && ('U' as u32) == 85);
    assert(('s' as u32) == 115 && ('\n' as u32) == 10 && ('?' as u32) == 63 && ('\r' as u32) == 13);
    assert(('\u{e4}' as u32) == 0xe4 && ('\u{f6}' as u32) == 0xf6 && ('\u{fc}' as u32) == 0xfc);
    assert(('\u{c4}' as u32) == 0xc4 && ('\u{d6}' as u32) == 0xd6 && ('\u{dc}' as u32) == 0xdc);
    assert(('\u{df}' as u32) == 0xdf);
    if printable_ascii(seq![c]) {
        assert(seq![c][0] == c);
    }
}

proof fn lemma_printable_append(a: Seq<char>, b: Seq<char>)
    requires
        printable_ascii(a),
        printable_ascii(b),
    ensures
        printable_ascii(a + b),
{
    assert forall|i: int| 0 <= i < (a + b).len() implies (#[trigger] (a + b)[i] as u32) < 128 && (a
        + b)[i] != '\r' by {
        if i < a.len() {
            assert((a + b)[i] == a[i]);
        } else {
            assert((a + b)[i] == b[i - a.len()]);
        }
    }
}

/// Normalized text is printable ASCII: only ASCII characters and no
/// carriage returns.
pub proof fn lemma_normalized_printable(s: Seq<char>)
    ensures
        printable_ascii(normalized(s)),
    decreases s.len(),
{
    if s.len() > 0 {
        lemma_normalized_printable(s.drop_last());
        lemma_normalize_char(s.last());
        lemma_printable_append(normalized(s.drop_last()), normalize_char(s.last()));
    }
}

/// Printable ASCII text is left as it is by normalization.
pub proof fn lemma_normalized_fixes_printable(s: Seq<char>)
    requires
        printable_ascii(s),
    ensures
        normalized(s) == s,
    decreases s.len(),
{
    if s.len() > 0 {
        assert(printable_ascii(s.drop_last())) by {
            assert forall|i: int| 0 <= i < s.drop_last().len() implies (#[trigger] s.drop_last()[i] as u32)
                < 128 && s.drop_last()[i] != '\r' by {
                assert(s.drop_last()[i] == s[i]);
            }
        }
        lemma_normalized_fixes_printable(s.drop_last());
        assert(printable_ascii(seq![s.last()])) by {
            assert(seq![s.last()][0] == s[s.len() - 1]);
        }
        lemma_normalize_char(s.last());
        assert(s.drop_last() + seq![s.last()] =~= s);
    }
}

/// Normalizing twice gives what normalizing once gives.
pub proof fn lemma_normalize_idempotent(s: Seq<char>)
    ensures
        normalized(normalized(s)) == normalized(s),
{
    lemma_normalized_printable(s);
    lemma_normalized_fixes_printable(normalized(s));
}

/// Normalization works character by character: the text of two pieces
/// put together is normalized to the two normalized pieces put together.
pub proof fn lemma_normalized_append(a: Seq<char>, b: Seq<char>)
    ensures
        normalized(a + b) == normalized(a) + normalized(b),
    decreases b.len(),
{
    if b.len() == 0 {
        assert(a + b =~= a);
        assert(normalized(a) + normalized(b) =~= normalized(a));
    } else {
        lemma_normalized_append(a, b.drop_last());
        assert((a + b).drop_last() =~= a + b.drop_last());
        assert((a + b).last() == b.last());
        assert(normalized(a + b) =~= normalized(a) + (normalized(b.drop_last()) + normalize_char(
            b.last(),
        )));
    }
}

/// The text of a single character, normalized.
proof fn lemma_normalized_single(c: char)
    ensures
        normalized(seq![c]) == normalize_char(c),
{
    assert(seq![c].drop_last() =~= Seq::<char>::empty());
    assert(normalized(Seq::<char>::empty()) =~= Seq::<char>::empty());
    assert(seq![c].last() == c);
    assert(Seq::<char>::empty() + normalize_char(c) =~= normalize_char(c));
}

/// What each character becomes wherever it stands in a text, the text
/// around it being normalized on its own: `ä ö ü Ä Ö Ü` become `ae oe ue
/// AE OE UE`, `ß` becomes `ss`, a carriage return disappears, any other
/// ASCII character stays, and every other non-ASCII character becomes
/// exactly one `?`.
pub proof fn lemma_normalized_character(a: Seq<char>, c: char, b: Seq<char>)
    ensures
        c == '\u{e4}' ==> normalized(a + seq![c] + b) == normalized(a) + seq!['a', 'e'] + normalized(b),
        c == '\u{f6}' ==> normalized(a + seq![c] + b) == normalized(a) + seq!['o', 'e'] + normalized(b),
        c == '\u{fc}' ==> normalized(a + seq![c] + b) == normalized(a) + seq!['u', 'e'] + normalized(b),
        c == '\u{c4}' ==> normalized(a + seq![c] + b) == normalized(a) + seq!['A', 'E'] + normalized(b),
        c == '\u{d6}' ==> normalized(a + seq![c] + b) == normalized(a) + seq!['O', 'E'] + normalized(b),
        c == '\u{dc}' ==> normalized(a + seq![c] + b) == normalized(a) + seq!['U', 'E'] + normalized(b),
        c == '\u{df}' ==> normalized(a + seq![c] + b) == normalized(a) + seq!['s', 's'] + normalized(b),
        c == '\r' ==> normalized(a + seq![c] + b) == normalized(a) + normalized(b),
        (c as u32) < 128 && c != '\r' ==> normalized(a + seq![c] + b) == normalized(a) + seq![c]
            + normalized(b),
        (c as u32) >= 128 && c != '\u{e4}' && c != '\u{f6}' && c != '\u{fc}' && c != '\u{c4}' && c
            != '\u{d6}' && c != '\u{dc}' && c != '\u{df}' ==> normalized(a + seq![c] + b)
            == normalized(a) + seq!['?'] + normalized(b),
{
    lemma_normalized_append(a + seq![c], b);
    lemma_normalized_append(a, seq![c]);
    lemma_normalized_single(c);
    assert(('\n' as u32) == 10);
    if c == '\r' {
        assert(normalized(a) + normalize_char(c) =~= normalized(a));
    }
}

/// Replaces the characters the printer cannot show: umlauts and sharp s are
/// transliterated (`ä` to `ae`, `ß` to `ss`, ...), carriage returns are
/// dropped, newlines and other ASCII are kept, anything else becomes `?`.
pub fn normalize_text(text: &str) -> (normalized_text: String)
    ensures
        normalized_text@ == normalized(text@),
        printable_ascii(normalized_text@),
{
    let chars = chars_of(text);
    let mut out = String::new();
    let mut i: usize = 0;
    while i < chars.len()
        invariant
            i <= chars.len(),
            chars@ == text@,
            out@ == normalized(text@.take(i as int)),
        decreases chars.len() - i,
    {
        let ch = chars[i];
        let ghost before = out@;
        if ch == '\u{e4}' {
            push_char(&mut out, 'a');
            push_char(&mut out, 'e');
        } else if ch == '\u{f6}' {
            push_char(&mut out, 'o');
            push_char(&mut out, 'e');
        } else if ch == '\u{fc}' {
            push_char(&mut out, 'u');
            push_char(&mut out, 'e');
        } else if ch == '\u{c4}' {
            push_char(&mut out, 'A');
            push_char(&mut out, 'E');
        } else if ch == '\u{d6}' {
            push_char(&mut out, 'O');
            push_char(&mut out, 'E');
        } else if ch == '\u{dc}' {
            push_char(&mut out, 'U');
            push_char(&mut out, 'E');
        } else if ch == '\u{df}' {
            push_char(&mut out, 's');
            push_char(&mut out, 's');
        } else if ch == '\n' {
            push_char(&mut out, '\n');
        } else if ch == '\r' {
        } else if (ch as u32) < 128 {
            push_char(&mut out, ch);
        } else {
            push_char(&mut out, '?');
        }
        proof {
            assert(text@.take(i + 1).drop_last() =~= text@.take(i as int));
            assert(text@.take(i + 1).last() == ch);
            assert(out@ =~= before + normalize_char(ch));
        }
        i = i + 1;
    }
    assert(text@.take(chars.len() as int) =~= text@);
    proof {
        lemma_normalized_printable(text@);
    }
    out
}

} // verus!
