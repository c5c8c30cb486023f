//! What the printer client puts on paper for a print job: the lines, their
//! width, and the bytes sent for each line.
use vstd::prelude::*;
use vstd::string::*;
use crate::text::{
    chars_of, concat, is_blank, is_white_space, lemma_concat_append, lemma_concat_single,
    lemma_letters_append, lemma_letters_empty, letters, push_char, views,
};
use crate::wrap::{fitting_line, lemma_wrap_properties, spaced, wrap_spec, wrap_text};
use crate::normalize::{lemma_normalized_printable, normalize_text, normalized, printable_ascii};

verus! {

/// The number of characters that fit on one line of the 58 mm paper.
pub const MAX_CHARS_PER_LINE: usize = 27;

/// The baud rate of the printer's serial line.
pub const BAUDRATE: u32 = 9600;

/// How many empty lines are fed before a print job.
pub const FEED_BEFORE_JOB: usize = 1;

/// How many empty lines are fed after a print job.
pub const FEED_AFTER_JOB: usize = 2;

/// The pieces of `s` between newlines, as `str::split('\n')` yields them:
/// always at least one, possibly empty.
pub open spec fn split_newlines(s: Seq<char>) -> Seq<Seq<char>>
    decreases s.len(),
{
    if s.len() == 0 {
        seq![seq![]]
    } else {
        let p = split_newlines(s.drop_last());
        if s.last() == '\n' {
            p.push(seq![])
        } else {
            p.update(p.len() - 1, p.last().push(s.last()))
        }
    }
}

/// The lines printed for one paragraph: a single empty line for a blank
/// paragraph, its wrapped lines otherwise.
pub open spec fn paragraph_lines(p: Seq<char>) -> Seq<Seq<char>> {
    if letters(p).len() == 0 {
        seq![seq![]]
    } else {
        wrap_spec(p, MAX_CHARS_PER_LINE as nat)
    }
}

/// The lines printed for a sequence of paragraphs, in order.
pub open spec fn lines_of_paragraphs(ps: Seq<Seq<char>>) -> Seq<Seq<char>>
    decreases ps.len(),
{
    if ps.len() == 0 {
        seq![]
    } else {
        lines_of_paragraphs(ps.drop_last()) + paragraph_lines(ps.last())
    }
}

/// The lines `write_text` prints for `text`: the normalized text cut at
/// newlines, each paragraph wrapped to the line width.
pub open spec fn text_lines_spec(text: Seq<char>) -> Seq<Seq<char>> {
    lines_of_paragraphs(split_newlines(normalized(text)))
}

/// `n` empty lines.
pub open spec fn empty_lines(n: nat) -> Seq<Seq<char>> {
    Seq::new(n, |i: int| Seq::<char>::empty())
}

/// The lines printed for a print job: one empty line, the text, two empty
/// lines.
pub open spec fn print_job_spec(text: Seq<char>) -> Seq<Seq<char>> {
    empty_lines(FEED_BEFORE_JOB as nat) + text_lines_spec(text) + empty_lines(FEED_AFTER_JOB as nat)
}

/// A line the printer can take: at most the line width, ASCII only, and no
/// whitespace but plain spaces (so no line breaks inside it).
pub open spec fn printable_line(l: Seq<char>) -> bool {
    &&& l.len() <= MAX_CHARS_PER_LINE
    &&& spaced(l)
    &&& forall|i: int| 0 <= i < l.len() ==> (#[trigger] l[i] as u32) < 128
}

/// Every non-whitespace character of `s` is ASCII.
pub open spec fn ascii_letters(s: Seq<char>) -> bool {
    forall|i: int| 0 <= i < s.len() ==> !is_white_space(#[trigger] s[i]) ==> (s[i] as u32) < 128
}

proof fn lemma_ascii_letters_append(a: Seq<char>, b: Seq<char>)
    ensures
        ascii_letters(a + b) <==> ascii_letters(a) && ascii_letters(b),
{
    if ascii_letters(a + b) {
        assert forall|i: int| 0 <= i < a.len() && !is_white_space(#[trigger] a[i]) implies (a[i] as u32)
            < 128 by {
            assert((a + b)[i] == a[i]);
        }
        assert forall|i: int| 0 <= i < b.len() && !is_white_space(#[trigger] b[i]) implies (b[i] as u32)
            < 128 by {
            assert((a + b)[i + a.len()] == b[i]);
        }
    }
    if ascii_letters(a) && ascii_letters(b) {
        assert forall|i: int| 0 <= i < (a + b).len() && !is_white_space(#[trigger] (a + b)[i])
            implies ((a + b)[i] as u32) < 128 by {
            if i < a.len() {
                assert((a + b)[i] == a[i]);
            } else {
                assert((a + b)[i] == b[i - a.len()]);
            }
        }
    }
}

proof fn lemma_ascii_letters_letters(s: Seq<char>)
    ensures
        ascii_letters(s) <==> ascii_letters(letters(s)),
    decreases s.len(),
{
    if s.len() > 0 {
        lemma_ascii_letters_letters(s.drop_last());
        lemma_ascii_letters_append(s.drop_last(), seq![s.last()]);
        assert(s.drop_last() + seq![s.last()] =~= s);
        if !is_white_space(s.last()) {
            lemma_ascii_letters_append(letters(s.drop_last()), seq![s.last()]);
            assert(letters(s.drop_last()).push(s.last()) =~= letters(s.drop_last()) + seq![s.last()]);
        } else {
            assert(ascii_letters(seq![s.last()])) by {
                assert(seq![s.last()][0] == s.last());
            }
        }
        assert(ascii_letters(seq![s.last()]) <==> (!is_white_space(s.last()) ==> (s.last() as u32)
            < 128)) by {
            assert(seq![s.last()][0] == s.last());
        }
    }
}

proof fn lemma_ascii_letters_parts(ps: Seq<Seq<char>>)
    requires
        ascii_letters(concat(ps)),
    ensures
        forall|i: int| 0 <= i < ps.len() ==> ascii_letters(#[trigger] ps[i]),
    decreases ps.len(),
{
    if ps.len() > 0 {
        lemma_ascii_letters_append(concat(ps.drop_last()), ps.last());
        lemma_ascii_letters_parts(ps.drop_last());
        assert forall|i: int| 0 <= i < ps.len() implies ascii_letters(#[trigger] ps[i]) by {
            if i < ps.len() - 1 {
                assert(ps[i] == ps.drop_last()[i]);
            }
        }
    }
}

proof fn lemma_split_newlines(s: Seq<char>)
    ensures
        split_newlines(s).len() > 0,
        letters(concat(split_newlines(s))) == letters(s),
    decreases s.len(),
{
    if s.len() > 0 {
        lemma_split_newlines(s.drop_last());
        let p = split_newlines(s.drop_last());
        let c = s.last();
        if c == '\n' {
            assert(p.push(seq![]).drop_last() =~= p);
            assert(concat(p.push(seq![])) =~= concat(p));
            assert(is_white_space('\n'));
        } else {
            let q = p.update(p.len() - 1, p.last().push(c));
            assert(q.drop_last() =~= p.drop_last());
            assert(concat(p) == concat(p.drop_last()) + p.last());
            assert(concat(q) =~= concat(p).push(c));
            assert(concat(p).push(c).drop_last() =~= concat(p));
            assert(concat(p).push(c).last() == c);
            assert(letters(concat(p).push(c)) == if is_white_space(c) {
                letters(concat(p))
            } else {
                letters(concat(p)).push(c)
            });
        }
    } else {
        lemma_concat_single(Seq::<char>::empty());
    }
}

proof fn lemma_paragraph_lines(p: Seq<char>)
    requires
        printable_ascii(p),
    ensures
        letters(concat(paragraph_lines(p))) == letters(p),
        forall|i: int|
            0 <= i < paragraph_lines(p).len() ==> (#[trigger] paragraph_lines(p)[i]).len()
                <= MAX_CHARS_PER_LINE && spaced(paragraph_lines(p)[i]),
{
    lemma_concat_single(Seq::<char>::empty());
    if letters(p).len() == 0 {
        assert(letters(Seq::<char>::empty()) =~= Seq::<char>::empty());
        let e = seq![Seq::<char>::empty()];
        assert(spaced(e[0]));
    } else {
        lemma_wrap_properties(p, MAX_CHARS_PER_LINE as nat);
    }
}

proof fn lemma_lines_of_paragraphs(ps: Seq<Seq<char>>)
    requires
        forall|i: int| 0 <= i < ps.len() ==> printable_ascii(#[trigger] ps[i]),
    ensures
        letters(concat(lines_of_paragraphs(ps))) == letters(concat(ps)),
        forall|i: int|
            0 <= i < lines_of_paragraphs(ps).len() ==> (#[trigger] lines_of_paragraphs(ps)[i]).len()
                <= MAX_CHARS_PER_LINE && spaced(lines_of_paragraphs(ps)[i]),
    decreases ps.len(),
{
    if ps.len() > 0 {
        let dl = ps.drop_last();
        assert forall|i: int| 0 <= i < dl.len() implies printable_ascii(#[trigger] dl[i]) by {
            assert(dl[i] == ps[i]);
        }
        lemma_lines_of_paragraphs(dl);
        assert(printable_ascii(ps[ps.len() - 1]));
        lemma_paragraph_lines(ps.last());
        let a = lines_of_paragraphs(dl);
        let b = paragraph_lines(ps.last());
        lemma_concat_append(a, b);
        lemma_letters_append(concat(a), concat(b));
        lemma_letters_append(concat(dl), ps.last());
        assert forall|i: int| 0 <= i < (a + b).len() implies (#[trigger] (a + b)[i]).len()
            <= MAX_CHARS_PER_LINE && spaced((a + b)[i]) by {
            if i < a.len() {
                assert((a + b)[i] == a[i]);
            } else {
                assert((a + b)[i] == b[i - a.len()]);
            }
        }
    } else {
        assert(letters(Seq::<char>::empty()) =~= Seq::<char>::empty());
    }
}

proof fn lemma_split_newlines_printable(s: Seq<char>)
    requires
        printable_ascii(s),
    ensures
        forall|i: int| 0 <= i < split_newlines(s).len() ==> printable_ascii(#[trigger] split_newlines(s)[i]),
    decreases s.len(),
{
    if s.len() > 0 {
        assert(printable_ascii(s.drop_last())) by {
            assert forall|i: int| 0 <= i < s.drop_last().len() implies (#[trigger] s.drop_last()[i] as u32)
                < 128 && s.drop_last()[i] != '\r' by {
                assert(s.drop_last()[i] == s[i]);
            }
        }
        lemma_split_newlines_printable(s.drop_last());
        lemma_split_newlines(s.drop_last());
        let p = split_newlines(s.drop_last());
        assert(s[s.len() - 1] == s.last());
        if s.last() != '\n' {
            let l = p.last().push(s.last());
            assert(printable_ascii(p[p.len() - 1]));
            assert forall|j: int| 0 <= j < l.len() implies (#[trigger] l[j] as u32) < 128 && l[j] != '\r' by {
                if j < l.len() - 1 {
                    assert(l[j] == p.last()[j]);
                }
            }
        }
        let q = split_newlines(s);
        assert forall|i: int| 0 <= i < q.len() implies printable_ascii(#[trigger] q[i]) by {
            if s.last() == '\n' && i < p.len() {
                assert(q[i] == p[i]);
            } else if s.last() != '\n' && i < p.len() - 1 {
                assert(q[i] == p[i]);
            }
        }
    }
}

/// What is printed for a text fits the printer: every line is at most
/// `MAX_CHARS_PER_LINE` characters of ASCII with no whitespace but spaces;
/// and the lines hold exactly the letters of the normalized text, in order.
pub proof fn lemma_text_lines(text: Seq<char>)
    ensures
        letters(concat(text_lines_spec(text))) == letters(normalized(text)),
        forall|i: int|
            0 <= i < text_lines_spec(text).len() ==> printable_line(#[trigger] text_lines_spec(text)[i]),
{
    let n = normalized(text);
    lemma_normalized_printable(text);
    lemma_split_newlines(n);
    lemma_split_newlines_printable(n);
    lemma_lines_of_paragraphs(split_newlines(n));
    let ls = text_lines_spec(text);
    assert(ascii_letters(n)) by {
        assert forall|i: int| 0 <= i < n.len() && !is_white_space(#[trigger] n[i]) implies (n[i] as u32)
            < 128 by {}
    }
    lemma_ascii_letters_letters(n);
    lemma_ascii_letters_letters(concat(ls));
    lemma_ascii_letters_parts(ls);
    assert forall|i: int| 0 <= i < ls.len() implies printable_line(#[trigger] ls[i]) by {
        let l = ls[i];
        assert(ascii_letters(l));
        assert forall|j: int| 0 <= j < l.len() implies (#[trigger] l[j] as u32) < 128 by {
            assert(!is_white_space(l[j]) || l[j] == ' ');
        }
    }
}

/// Every line printed for a print job fits the printer (see
/// `lemma_text_lines`); the job opens with one empty line and closes with
/// two.
pub proof fn lemma_print_job_lines(text: Seq<char>)
    ensures
        forall|i: int|
            0 <= i < print_job_spec(text).len() ==> printable_line(#[trigger] print_job_spec(text)[i]),
        print_job_spec(text)[0].len() == 0,
        print_job_spec(text).last().len() == 0,
        print_job_spec(text).len() == text_lines_spec(text).len() + 3,
{
    lemma_text_lines(text);
    let a = empty_lines(FEED_BEFORE_JOB as nat);
    let t = text_lines_spec(text);
    let b = empty_lines(FEED_AFTER_JOB as nat);
    let all = a + t + b;
    assert forall|i: int| 0 <= i < all.len() implies printable_line(#[trigger] all[i]) by {
        if i < a.len() {
            assert(all[i] == a[i]);
            assert(a[i] =~= Seq::<char>::empty());
        } else if i < a.len() + t.len() {
            assert(all[i] == t[i - a.len()]);
        } else {
            assert(all[i] == b[i - a.len() - t.len()]);
            assert(b[i - a.len() - t.len()] =~= Seq::<char>::empty());
        }
    }
    assert(all[0] == a[0]);
    assert(all[all.len() - 1] == b[1]);
}

/// Cuts `s` at its newlines (`str::split('\n')`).
pub fn split_paragraphs(s: &str) -> (ps: Vec<String>)
    ensures
        views(ps@) == split_newlines(s@),
{
    let chars = chars_of(s);
    let mut done: Vec<String> = Vec::new();
    let mut cur = String::new();
    let mut i: usize = 0;
    while i < chars.len()
        invariant
            i <= chars.len(),
            chars@ == s@,
            views(done@).push(cur@) == split_newlines(s@.take(i as int)),
        decreases chars.len() - i,
    {
        let c = chars[i];
        let ghost d = views(done@);
        let ghost before = cur@;
        proof {
            assert(s@.take(i + 1).drop_last() =~= s@.take(i as int));
            assert(s@.take(i + 1).last() == c);
        }
        if c == '\n' {
            let finished = cur;
            done.push(finished);
            cur = String::new();
            assert(views(done@).push(cur@) =~= d.push(before).push(seq![]));
        } else {
            push_char(&mut cur, c);
            assert(views(done@).push(cur@) =~= d.push(before).update(d.len() as int, before.push(c)));
        }
        i = i + 1;
    }
    assert(s@.take(chars.len() as int) =~= s@);
    let ghost d = views(done@);
    done.push(cur);
    assert(views(done@) =~= d.push(cur@));
    done
}

/// `n` empty lines: what `Printer::feed(n)` prints.
pub fn feed_lines(n: usize) -> (lines: Vec<String>)
    ensures
        views(lines@) == empty_lines(n as nat),
{
    let mut lines: Vec<String> = Vec::new();
    let mut i: usize = 0;
    while i < n
        invariant
            i <= n,
            views(lines@) == empty_lines(i as nat),
        decreases n - i,
    {
        let ghost before = views(lines@);
        lines.push(String::new());
        assert(views(lines@) =~= before.push(Seq::<char>::empty()));
        assert(empty_lines((i + 1) as nat) =~= empty_lines(i as nat).push(Seq::<char>::empty()));
        i = i + 1;
    }
    lines
}

/// The lines `Printer::write_text` prints for `text`: the text is
/// normalized, cut at newlines, and each paragraph is wrapped to
/// `MAX_CHARS_PER_LINE`; a blank paragraph prints as one empty line.
pub fn text_lines(text: &str) -> (lines: Vec<String>)
    ensures
        views(lines@) == text_lines_spec(text@),
        forall|i: int| 0 <= i < lines.len() ==> printable_line(#[trigger] lines@[i]@),
        letters(concat(views(lines@))) == letters(normalized(text@)),
{
    let normalized_text = normalize_text(text);
    let paragraphs = split_paragraphs(normalized_text.as_str());
    let ghost ps = split_newlines(normalized(text@));
    let mut lines: Vec<String> = Vec::new();
    let mut i: usize = 0;
    while i < paragraphs.len()
        invariant
            i <= paragraphs.len(),
            views(paragraphs@) == ps,
            views(lines@) == lines_of_paragraphs(ps.take(i as int)),
        decreases paragraphs.len() - i,
    {
        let p = &paragraphs[i];
        let ghost before = views(lines@);
        proof {
            assert(ps.take(i + 1).drop_last() =~= ps.take(i as int));
            assert(ps.take(i + 1).last() == p@);
        }
        if is_blank(p.as_str()) {
            lines.push(String::new());
            assert(views(lines@) =~= before + seq![Seq::<char>::empty()]);
        } else {
            let mut wrapped = wrap_text(p.as_str(), MAX_CHARS_PER_LINE);
            let ghost wv = views(wrapped@);
            lines.append(&mut wrapped);
            assert(views(lines@) =~= before + wv);
        }
        i = i + 1;
    }
    assert(ps.take(paragraphs.len() as int) =~= ps);
    proof {
        lemma_text_lines(text@);
        assert forall|i: int| 0 <= i < lines.len() implies (#[trigger] lines@[i])@ == views(lines@)[i] by {}
    }
    lines
}

/// The lines printed for a print job (`print_text`): one empty line, the
/// job's text as `text_lines` gives it, two empty lines.
pub fn print_job_lines(text: &str) -> (lines: Vec<String>)
    ensures
        views(lines@) == print_job_spec(text@),
        forall|i: int| 0 <= i < lines.len() ==> printable_line(#[trigger] lines@[i]@),
{
    let mut lines = feed_lines(FEED_BEFORE_JOB);
    let mut body = text_lines(text);
    let mut after = feed_lines(FEED_AFTER_JOB);
    let ghost a = views(lines@);
    let ghost t = views(body@);
    let ghost b = views(after@);
    lines.append(&mut body);
    lines.append(&mut after);
    assert(views(lines@) =~= a + t + b);
    proof {
        lemma_print_job_lines(text@);
        assert forall|i: int| 0 <= i < lines.len() implies (#[trigger] lines@[i])@ == views(lines@)[i] by {}
    }
    lines
}

/// The bytes `Printer::write_line` sends for one line: its UTF-8 encoding
/// followed by a carriage return and a line feed.
pub fn line_bytes(line: &str) -> (bytes: Vec<u8>)
    ensures
        bytes@ == line.spec_bytes() + seq![13u8, 10u8],
{
    let mut bytes = line.as_bytes_vec();
    bytes.push(13u8);
    bytes.push(10u8);
    bytes
}

/// The serial ports tried, in order: the configured one, or else the usual
/// serial devices of a Raspberry Pi and of a USB adapter.
pub open spec fn port_candidates_spec(configured: Option<Seq<char>>) -> Seq<Seq<char>> {
    match configured {
        Some(p) => seq![p],
        None => seq!["/dev/serial0"@, "/dev/ttyAMA0"@, "/dev/ttyS0"@, "/dev/ttyUSB0"@],
    }
}

/// The serial ports tried, in order, when the printer is connected: the one
/// configured by the caller, or else the usual serial devices of a
/// Raspberry Pi and of a USB adapter.
pub fn port_candidates(configured: Option<&str>) -> (ports: Vec<String>)
    ensures
        views(ports@) == port_candidates_spec(
            match configured {
                Some(p) => Some(p@),
                None => None,
            },
        ),
{
    match configured {
        Some(p) => {
            let ports = vec![p.to_owned()];
            assert(views(ports@) =~= seq![p@]);
            ports
        },
        None => {
            let ports = vec![
                "/dev/serial0".to_owned(),
                "/dev/ttyAMA0".to_owned(),
                "/dev/ttyS0".to_owned(),
                "/dev/ttyUSB0".to_owned(),
            ];
            assert(views(ports@) =~= seq![
                "/dev/serial0"@,
                "/dev/ttyAMA0"@,
                "/dev/ttyS0"@,
                "/dev/ttyUSB0"@,
            ]);
            ports
        },
    }
}

/// Why no serial port could be opened.
pub enum ConnectFailure {
    /// There was no port to try.
    NoPortsConfigured,
    /// Every port failed; this is the error of the last one tried.
    AllFailed(String),
}

/// The search for a serial port that opens: the candidates, how many were
/// tried, and the error of the last one that failed.
pub struct PortSearch {
    pub candidates: Vec<String>,
    pub tried: usize,
    pub last_error: Option<String>,
}

impl PortSearch {
    /// Starts the search over `port_candidates(configured)`.
    pub fn new(configured: Option<&str>) -> (search: PortSearch)
        ensures
            views(search.candidates@) == port_candidates_spec(
                match configured {
                    Some(p) => Some(p@),
                    None => None,
                },
            ),
            search.tried == 0,
            search.last_error is None,
    {
        PortSearch { candidates: port_candidates(configured), tried: 0, last_error: None }
    }

    /// The next port to try, in order, or `None` when all were tried.
    pub fn next_port(&mut self) -> (port: Option<String>)
        ensures
            final(self).candidates@ == old(self).candidates@,
            final(self).last_error == old(self).last_error,
            old(self).tried < old(self).candidates@.len() ==> (port matches Some(p) && p@
                == old(self).candidates@[old(self).tried as int]@ && final(self).tried == old(self).tried + 1),
            old(self).tried >= old(self).candidates@.len() ==> port is None && final(self).tried
                == old(self).tried,
    {
        if self.tried < self.candidates.len() {
            let port = self.candidates[self.tried].clone();
            self.tried = self.tried + 1;
            Some(port)
        } else {
            None
        }
    }

    /// Records that the port just tried failed with `error`.
    pub fn record_failure(&mut self, error: String)
        ensures
            final(self).candidates@ == old(self).candidates@,
            final(self).tried == old(self).tried,
            final(self).last_error matches Some(e) && e@ == error@,
    {
        self.last_error = Some(error);
    }

    /// Why the search failed once every port was tried: no port at all, or
    /// the error of the last port tried.
    pub fn failure(self) -> (failure: ConnectFailure)
        ensures
            self.last_error is None ==> failure is NoPortsConfigured,
            self.last_error matches Some(e) ==> (failure matches ConnectFailure::AllFailed(f) && f@
                == e@),
    {
        match self.last_error {
            Some(e) => ConnectFailure::AllFailed(e),
            None => ConnectFailure::NoPortsConfigured,
        }
    }
}

} // verus!
