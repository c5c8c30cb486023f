//! How a text submitted through the form becomes a print job: trimmed,
//! runs of newlines collapsed, stamped with the local time and closed by a
//! rule.
use vstd::prelude::*;
use vstd::string::*;
use crate::text::{chars_of, is_white_space, lemma_trim, letters, push_char, trim, trim_str};

verus! {

/// `s` with every newline that directly follows another newline removed.
pub open spec fn collapsed(s: Seq<char>) -> Seq<char>
    decreases s.len(),
{
    if s.len() == 0 {
        seq![]
    } else if s.last() == '\n' && s.len() >= 2 && s[s.len() - 2] == '\n' {
        collapsed(s.drop_last())
    } else {
        collapsed(s.drop_last()).push(s.last())
    }
}

/// No two newlines stand next to each other in `s`.
pub open spec fn no_blank_lines(s: Seq<char>) -> bool {
    forall|i: int| 0 <= i < s.len() - 1 ==> !(#[trigger] s[i] == '\n' && s[i + 1] == '\n')
}

/// A collapsed text keeps the last character of the original, has no two
/// newlines in a row, and holds the same letters.
pub proof fn lemma_collapsed(s: Seq<char>)
    ensures
        s.len() > 0 ==> collapsed(s).len() > 0 && collapsed(s).last() == s.last(),
        s.len() == 0 ==> collapsed(s).len() == 0,
        no_blank_lines(collapsed(s)),
        letters(collapsed(s)) == letters(s),
    decreases s.len(),
{
    if s.len() > 0 {
        let p = s.drop_last();
        lemma_collapsed(p);
        let c = collapsed(p);
        if s.last() == '\n' && s.len() >= 2 && s[s.len() - 2] == '\n' {
            assert(p.last() == s[s.len() - 2]);
            assert(is_white_space('\n'));
            assert(letters(s) == letters(p));
        } else {
            let r = c.push(s.last());
            assert(r.drop_last() =~= c);
            assert forall|i: int| 0 <= i < r.len() - 1 implies !(#[trigger] r[i] == '\n' && r[i + 1]
                == '\n') by {
                if i < r.len() - 2 {
                    assert(r[i] == c[i] && r[i + 1] == c[i + 1]);
                } else {
                    if p.len() > 0 {
                        assert(r[i] == c.last());
                        assert(p.last() == s[s.len() - 2]);
                    }
                }
            }
        }
    }
}

/// Collapsing keeps the first character.
pub proof fn lemma_collapsed_first(s: Seq<char>)
    requires
        s.len() > 0,
    ensures
        collapsed(s).len() > 0 && collapsed(s)[0] == s[0],
    decreases s.len(),
{
    if s.len() > 1 {
        lemma_collapsed_first(s.drop_last());
        assert(s.drop_last()[0] == s[0]);
        if !(s.last() == '\n' && s.len() >= 2 && s[s.len() - 2] == '\n') {
            assert(collapsed(s.drop_last()).push(s.last())[0] == collapsed(s.drop_last())[0]);
        }
    } else {
        assert(collapsed(s.drop_last()) =~= Seq::<char>::empty());
    }
}

/// A text without two newlines in a row is left as it is by collapsing.
pub proof fn lemma_collapsed_fixes(s: Seq<char>)
    requires
        no_blank_lines(s),
    ensures
        collapsed(s) == s,
    decreases s.len(),
{
    if s.len() > 0 {
        let p = s.drop_last();
        assert(no_blank_lines(p)) by {
            assert forall|i: int| 0 <= i < p.len() - 1 implies !(#[trigger] p[i] == '\n' && p[i + 1]
                == '\n') by {
                assert(p[i] == s[i] && p[i + 1] == s[i + 1]);
            }
        }
        lemma_collapsed_fixes(p);
        if s.len() >= 2 {
            assert(!(s[s.len() - 2] == '\n' && s[s.len() - 1] == '\n'));
        }
        assert(p.push(s.last()) =~= s);
    }
}

/// Collapsing twice gives what collapsing once gives.
pub proof fn lemma_collapse_idempotent(s: Seq<char>)
    ensures
        collapsed(collapsed(s)) == collapsed(s),
{
    lemma_collapsed(s);
    lemma_collapsed_fixes(collapsed(s));
}

/// Removes every newline that directly follows another newline, so that no
/// empty lines remain between the lines of a text.
pub fn collapse_repeated_newlines(text: &str) -> (result: String)
    ensures
        result@ == collapsed(text@),
        no_blank_lines(result@),
        letters(result@) == letters(text@),
{
    let chars = chars_of(text);
    let mut result = String::new();
    let mut previous_was_newline = false;
    let mut i: usize = 0;
    while i < chars.len()
        invariant
            i <= chars.len(),
            chars@ == text@,
            result@ == collapsed(text@.take(i as int)),
            previous_was_newline == (i > 0 && text@[i - 1] == '\n'),
        decreases chars.len() - i,
    {
        let ch = chars[i];
        proof {
            let t = text@.take(i + 1);
            assert(t.drop_last() =~= text@.take(i as int));
            assert(t.last() == ch);
            if i > 0 {
                assert(t[t.len() - 2] == text@[i - 1]);
            }
        }
        if ch == '\n' {
            if previous_was_newline {
                i = i + 1;
                continue;
            }
            previous_was_newline = true;
        } else {
            previous_was_newline = false;
        }
        push_char(&mut result, ch);
        i = i + 1;
    }
    assert(text@.take(chars.len() as int) =~= text@);
    proof {
        lemma_collapsed(text@);
    }
    result
}

/// The pattern of the time stamp that heads a print job.
pub const TIMESTAMP_FORMAT: &'static str = "%Y-%m-%d %H:%M:%S";

/// An ASCII decimal digit.
pub open spec fn is_ascii_digit(c: char) -> bool {
    48 <= (c as u32) <= 57
}

/// The shape of a time stamp written with `TIMESTAMP_FORMAT`: the year in
/// at least four digits (with a leading `+` beyond year 9999), then
/// `-MM-DD hh:mm:ss` with two digits for each field.
pub open spec fn timestamp_shape(s: Seq<char>) -> bool {
    let n = s.len() as int;
    &&& n >= 19
    &&& forall|i: int| 0 <= i < n - 15 ==> is_ascii_digit(#[trigger] s[i]) || (i == 0 && s[i] == '+')
    &&& s[n - 15] == '-' && is_ascii_digit(s[n - 14]) && is_ascii_digit(s[n - 13])
    &&& s[n - 12] == '-' && is_ascii_digit(s[n - 11]) && is_ascii_digit(s[n - 10])
    &&& s[n - 9] == ' ' && is_ascii_digit(s[n - 8]) && is_ascii_digit(s[n - 7])
    &&& s[n - 6] == ':' && is_ascii_digit(s[n - 5]) && is_ascii_digit(s[n - 4])
    &&& s[n - 3] == ':' && is_ascii_digit(s[n - 2]) && is_ascii_digit(s[n - 1])
}

/// The rule that closes a print job: a newline and twelve dashes.
pub open spec fn job_footer() -> Seq<char> {
    seq!['\n'] + Seq::new(12, |i: int| '-')
}

/// The print job for `text` stamped `timestamp`: the time stamp, a newline,
/// the trimmed text with runs of newlines collapsed, and the closing rule.
pub open spec fn print_job_text(timestamp: Seq<char>, text: Seq<char>) -> Seq<char> {
    timestamp + seq!['\n'] + collapsed(trim(text)) + job_footer()
}

/// The local time now, formatted by `chrono` with the `strftime` pattern
/// `TIMESTAMP_FORMAT` (`chrono::Local::now().format(pattern)`, then
/// `to_string`). Only that pattern is admitted: chrono writes an unknown
/// specifier as a formatting error, on which `to_string` panics. Claimed of
/// every outcome, as chrono documents the specifiers: the year zero-padded
/// to four digits (signed with `+` beyond 9999; the clock cannot show a year
/// before 1970, where chrono panics), then month, day, hours, minutes and
/// seconds in two digits each, separated by `-`, ` ` and `:`; so the result
/// holds no newline. Which time it shows depends on the clock and the
/// machine's time zone and is not claimed. chrono panics where the clock
/// is before 1970 or the time zone data cannot be used; no `requires` can
/// exclude those states of the machine.
#[verifier::external_body]
fn local_time_formatted(pattern: &str) -> (stamp: String)
    requires
        pattern@ == TIMESTAMP_FORMAT@,
    ensures
        timestamp_shape(stamp@),
        !stamp@.contains('\n'),
{
    chrono::Local::now().format(pattern).to_string()
}

/// A print job is its time stamp on the first line and the rule on the
/// last; for a text with letters and a stamp without newline, no line of
/// the job is empty.
pub proof fn lemma_print_job_layout(timestamp: Seq<char>, text: Seq<char>)
    requires
        !timestamp.contains('\n'),
    ensures
        print_job_text(timestamp, text).take(timestamp.len() as int) == timestamp,
        print_job_text(timestamp, text)[timestamp.len() as int] == '\n',
        letters(text).len() > 0 ==> no_blank_lines(print_job_text(timestamp, text)),
{
    let t = trim(text);
    let c = collapsed(t);
    let job = print_job_text(timestamp, text);
    let f = job_footer();
    assert(job.take(timestamp.len() as int) =~= timestamp);
    assert(job[timestamp.len() as int] == '\n');
    if letters(text).len() > 0 {
        lemma_trim(text);
        lemma_collapsed(t);
        lemma_collapsed_first(t);
        assert(is_white_space('\n'));
        let n = timestamp.len() as int;
        let m = c.len() as int;
        assert(job =~= timestamp + seq!['\n'] + c + f);
        assert forall|i: int| 0 <= i < job.len() - 1 implies !(#[trigger] job[i] == '\n' && job[i + 1]
            == '\n') by {
            if i < n {
                assert(job[i] == timestamp[i]);
            } else if i == n {
                assert(job[i + 1] == c[0]);
            } else if i < n + m {
                assert(job[i] == c[i - n - 1]);
                assert(job[i + 1] == c[i - n]);
            } else if i == n + m {
                assert(job[i] == c[m - 1]);
            } else {
                assert(job[i + 1] == f[i - n - m]);
            }
        }
    }
}

/// Formats a print job for `text` under the given time stamp.
pub fn format_print_job_at(text: &str, timestamp: &str) -> (job: String)
    ensures
        job@ == print_job_text(timestamp@, text@),
{
    let trimmed = trim_str(text);
    let collapsed_text = collapse_repeated_newlines(trimmed.as_str());
    let mut job = String::new();
    job.append(timestamp);
    push_char(&mut job, '\n');
    job.append(collapsed_text.as_str());
    push_char(&mut job, '\n');
    let mut k: usize = 0;
    let ghost head = timestamp@ + seq!['\n'] + collapsed(trim(text@)) + seq!['\n'];
    while k < 12
        invariant
            k <= 12,
            job@ == head + Seq::new(k as nat, |i: int| '-'),
        decreases 12 - k,
    {
        push_char(&mut job, '-');
        k = k + 1;
        assert(job@ =~= head + Seq::new(k as nat, |i: int| '-'));
    }
    assert(job@ =~= print_job_text(timestamp@, text@));
    job
}

/// Formats a print job for `text`, stamped with the local time now as
/// `TIMESTAMP_FORMAT` gives it.
pub fn format_print_job(text: &str) -> (job: String)
    ensures
        exists|timestamp: Seq<char>|
            timestamp_shape(timestamp) && !timestamp.contains('\n') && job@ == print_job_text(
                timestamp,
                text@,
            ),
        letters(text@).len() > 0 ==> no_blank_lines(job@),
{
    let timestamp = local_time_formatted(TIMESTAMP_FORMAT);
    proof {
        lemma_print_job_layout(timestamp@, text@);
    }
    format_print_job_at(text, timestamp.as_str())
}

} // verus!
