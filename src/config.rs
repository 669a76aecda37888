use vstd::prelude::*;
use crate::constraint::{chars_of, field_values, Constraint};
use crate::entry::Entry;
use crate::schedule::Schedule;

verus! {

/// A separator between fields: a space or a tab.
pub open spec fn is_blank(c: char) -> bool {
    c == ' ' || c == '\t'
}

/// End of the run of blanks that starts at `pos`.
pub open spec fn blanks_end(s: Seq<char>, pos: int) -> int
    decreases s.len() - pos,
{
    if 0 <= pos < s.len() && is_blank(s[pos]) {
        blanks_end(s, pos + 1)
    } else {
        pos
    }
}

/// End of the run of non-blanks that starts at `pos`.
pub open spec fn word_end(s: Seq<char>, pos: int) -> int
    decreases s.len() - pos,
{
    if 0 <= pos < s.len() && !is_blank(s[pos]) {
        word_end(s, pos + 1)
    } else {
        pos
    }
}

/// The word after the blanks at `pos`.
pub open spec fn word_at(s: Seq<char>, pos: int) -> Seq<char> {
    s.subrange(blanks_end(s, pos), word_end(s, blanks_end(s, pos)))
}

/// Position after the word at `pos` and the one blank that ends it.
pub open spec fn after_word(s: Seq<char>, pos: int) -> int {
    let e = word_end(s, blanks_end(s, pos));
    if e < s.len() {
        e + 1
    } else {
        e
    }
}

/// `s` without its trailing blanks.
pub open spec fn trim_end(s: Seq<char>) -> Seq<char>
    decreases s.len(),
{
    if s.len() > 0 && is_blank(s.last()) {
        trim_end(s.drop_last())
    } else {
        s
    }
}

/// `s` without its leading and trailing blanks.
pub open spec fn trim(s: Seq<char>) -> Seq<char> {
    trim_end(s.subrange(blanks_end(s, 0), s.len() as int))
}

/// An entry as values: command, then the valid values of minute, hour, day
/// of month, month and day of week.
pub type EntryModel = (Seq<char>, Seq<bool>, Seq<bool>, Seq<bool>, Seq<bool>, Seq<bool>);

pub open spec fn entry_model(e: Entry) -> EntryModel {
    let s = e.schedule_view();
    (e.command_view(), s.minutes(), s.hours(), s.month_days(), s.months(), s.week_days())
}

/// What one line of the config holds: `Some(None)` for a blank or comment
/// line, `Some(Some(m))` for a job, `None` for a line that does not parse.
pub open spec fn line_model(line: Seq<char>) -> Option<Option<EntryModel>> {
    let t = trim(line);
    if t.len() == 0 || t[0] == '#' {
        Some(None)
    } else {
        let pos_hour = after_word(t, 0);
        let pos_month_day = after_word(t, pos_hour);
        let pos_month = after_word(t, pos_month_day);
        let pos_week_day = after_word(t, pos_month);
        let pos_command = after_word(t, pos_week_day);
        let minutes = field_values(word_at(t, 0), 60, false);
        let hours = field_values(word_at(t, pos_hour), 24, false);
        let month_days = field_values(word_at(t, pos_month_day), 32, true);
        let months = field_values(word_at(t, pos_month), 13, true);
        let week_days = field_values(word_at(t, pos_week_day), 7, false);
        if minutes is Some && hours is Some && month_days is Some && months is Some && week_days is Some {
            Some(
                Some(
                    (
                        t.subrange(blanks_end(t, pos_command), t.len() as int),
                        minutes->0,
                        hours->0,
                        month_days->0,
                        months->0,
                        week_days->0,
                    ),
                ),
            )
        } else {
            None
        }
    }
}

/// End of the line that starts at `pos`: the next newline, or the end.
pub open spec fn line_end(s: Seq<char>, pos: int) -> int
    decreases s.len() - pos,
{
    if 0 <= pos < s.len() && s[pos] != '\n' {
        line_end(s, pos + 1)
    } else {
        pos
    }
}

/// A line's text without the carriage return of a `\r\n` ending.
pub open spec fn line_text(s: Seq<char>, pos: int) -> Seq<char> {
    let e = line_end(s, pos);
    if e < s.len() && e > pos && s[e - 1] == '\r' {
        s.subrange(pos, e - 1)
    } else {
        s.subrange(pos, e)
    }
}

/// The jobs of the config text from `pos` on, or `None` when a line there
/// does not parse.
pub open spec fn config_from(s: Seq<char>, pos: int) -> Option<Seq<EntryModel>>
    decreases s.len() + 1 - pos,
{
    if pos < 0 || pos >= s.len() || line_end(s, pos) < pos || line_end(s, pos) > s.len() {
        Some(Seq::empty())
    } else {
        match line_model(line_text(s, pos)) {
            None => None,
            Some(None) => config_from(s, line_end(s, pos) + 1),
            Some(Some(m)) => match config_from(s, line_end(s, pos) + 1) {
                None => None,
                Some(rest) => Some(seq![m] + rest),
            },
        }
    }
}

/// Relies on std's `FromIterator<&char> for String`: the string holds the
/// characters in order.
#[verifier::external_body]
fn string_from_chars(chars: &[char]) -> (r: String)
    ensures
        r@ == chars@,
{
    chars.iter().collect()
}

/// Position after the blanks at `pos`.
pub fn skip_whitespaces(s: &Vec<char>, pos: usize) -> (r: usize)
    requires
        pos <= s.len(),
    ensures
        r == blanks_end(s@, pos as int),
        pos <= r <= s.len(),
{
    let mut i = pos;
    while i < s.len() && (s[i] == ' ' || s[i] == '\t')
        invariant
            pos <= i <= s.len(),
            blanks_end(s@, pos as int) == blanks_end(s@, i as int),
        decreases s.len() - i,
    {
        i = i + 1;
    }
    i
}

/// The word after the blanks at `pos`, and the position after it and the
/// blank that ends it.
pub fn next_part(s: &Vec<char>, pos: usize) -> (r: (Vec<char>, usize))
    requires
        pos <= s.len(),
    ensures
        r.0@ == word_at(s@, pos as int),
        r.1 == after_word(s@, pos as int),
        pos <= r.1 <= s.len(),
{
    let b = skip_whitespaces(s, pos);
    let mut part: Vec<char> = Vec::new();
    let mut i = b;
    while i < s.len() && !(s[i] == ' ' || s[i] == '\t')
        invariant
            b <= i <= s.len(),
            b == blanks_end(s@, pos as int),
            word_end(s@, b as int) == word_end(s@, i as int),
            part@ == s@.subrange(b as int, i as int),
        decreases s.len() - i,
    {
        part.push(s[i]);
        i = i + 1;
        assert(part@ =~= s@.subrange(b as int, i as int));
    }
    if i < s.len() {
        (part, i + 1)
    } else {
        (part, i)
    }
}

/// The characters `from..to` of `s`.
fn copy_range(s: &Vec<char>, from: usize, to: usize) -> (r: Vec<char>)
    requires
        from <= to <= s.len(),
    ensures
        r@ == s@.subrange(from as int, to as int),
{
    let mut out: Vec<char> = Vec::new();
    let mut i = from;
    while i < to
        invariant
            from <= i <= to <= s.len(),
            out@ == s@.subrange(from as int, i as int),
        decreases to - i,
    {
        out.push(s[i]);
        i = i + 1;
        assert(out@ =~= s@.subrange(from as int, i as int));
    }
    out
}

/// `line` without its leading and trailing blanks.
pub fn trim_blanks(line: &Vec<char>) -> (r: Vec<char>)
    ensures
        r@ == trim(line@),
{
    let b = skip_whitespaces(line, 0);
    let mut e = line.len();
    while e > b && (line[e - 1] == ' ' || line[e - 1] == '\t')
        invariant
            b <= e <= line.len(),
            b == blanks_end(line@, 0),
            trim(line@) == trim_end(line@.subrange(b as int, e as int)),
        decreases e,
    {
        assert(line@.subrange(b as int, e as int).drop_last() =~= line@.subrange(
            b as int,
            e - 1,
        ));
        e = e - 1;
    }
    assert(line@.subrange(b as int, line.len() as int) =~= line@.subrange(b as int, line.len() as int));
    copy_range(line, b, e)
}

/// Parses one line of the config: `Some(None)` for a blank or comment line,
/// `Some(Some(e))` for a job, `None` when the line does not parse.
pub fn parse_line(line: &Vec<char>) -> (r: Option<Option<Entry>>)
    ensures
        match line_model(line@) {
            None => r is None,
            Some(None) => r matches Some(None),
            Some(Some(m)) => r matches Some(Some(e)) && entry_model(e) == m && e.wf()
                && e.cached() is None,
        },
{
    let t = trim_blanks(line);
    if t.len() == 0 || t[0] == '#' {
        return Some(None);
    }
    let (minute_text, pos_hour) = next_part(&t, 0);
    let (hour_text, pos_month_day) = next_part(&t, pos_hour);
    let (month_day_text, pos_month) = next_part(&t, pos_month_day);
    let (month_text, pos_week_day) = next_part(&t, pos_month);
    let (week_day_text, pos_command) = next_part(&t, pos_week_day);
    let minute = Constraint::parse_chars(&minute_text, 60, false);
    let hour = Constraint::parse_chars(&hour_text, 24, false);
    let month_day = Constraint::parse_chars(&month_day_text, 32, true);
    let month = Constraint::parse_chars(&month_text, 13, true);
    let week_day = Constraint::parse_chars(&week_day_text, 7, false);
    match (minute, hour, month_day, month, week_day) {
        (Some(minute), Some(hour), Some(month_day), Some(month), Some(week_day)) => {
            let c = skip_whitespaces(&t, pos_command);
            let rest = copy_range(&t, c, t.len());
            let command = string_from_chars(rest.as_slice());
            let schedule = Schedule::new(minute, hour, month_day, month, week_day);
            Some(Some(Entry::new(command, schedule)))
        },
        _ => None,
    }
}

/// Jobs of `done` followed by those of `rest`, if `rest` parsed.
pub open spec fn prepend(done: Seq<EntryModel>, rest: Option<Seq<EntryModel>>) -> Option<
    Seq<EntryModel>,
> {
    match rest {
        None => None,
        Some(r) => Some(done + r),
    }
}

/// Position of the newline that ends the line starting at `pos`, or the end.
fn find_line_end(s: &Vec<char>, pos: usize) -> (r: usize)
    requires
        pos <= s.len(),
    ensures
        r == line_end(s@, pos as int),
        pos <= r <= s.len(),
{
    let mut i = pos;
    while i < s.len() && s[i] != '\n'
        invariant
            pos <= i <= s.len(),
            line_end(s@, pos as int) == line_end(s@, i as int),
        decreases s.len() - i,
    {
        i = i + 1;
    }
    i
}

/// Parses a whole config text. Any line that does not parse rejects the
/// whole text.
#[verifier::rlimit(40)]
pub fn parse_config(text: &str) -> (r: Option<Vec<Entry>>)
    ensures
        match config_from(text@, 0) {
            None => r is None,
            Some(ms) => r matches Some(v) && v@.len() == ms.len() && forall|i: int|
                0 <= i < v@.len() ==> entry_model(#[trigger] v@[i]) == ms[i] && v@[i].wf()
                    && v@[i].cached() is None,
        },
{
    let s = chars_of(text);
    let mut out: Vec<Entry> = Vec::new();
    let mut pos: usize = 0;
    while pos < s.len()
        invariant
            s@ == text@,
            pos <= s.len(),
            config_from(s@, 0) == prepend(out@.map_values(|e: Entry| entry_model(e)), config_from(s@, pos as int)),
            forall|i: int| 0 <= i < out@.len() ==> (#[trigger] out@[i]).wf() && out@[i].cached() is None,
        decreases s.len() + 1 - pos,
    {
        let e = find_line_end(&s, pos);
        let stop = if e < s.len() && e > pos && s[e - 1] == '\r' {
            e - 1
        } else {
            e
        };
        let line = copy_range(&s, pos, stop);
        assert(line@ == line_text(s@, pos as int));
        proof {
            if e >= s.len() {
                assert(config_from(s@, e + 1) == Some(Seq::<EntryModel>::empty()));
                assert(config_from(s@, e as int) == Some(Seq::<EntryModel>::empty()));
            }
        }
        let ghost before = out@.map_values(|e: Entry| entry_model(e));
        match parse_line(&line) {
            None => {
                return None;
            },
            Some(None) => {},
            Some(Some(en)) => {
                out.push(en);
                proof {
                    let rest = config_from(s@, e + 1);
                    assert(out@.map_values(|e: Entry| entry_model(e)) =~= before.push(entry_model(en)));
                    if rest is Some {
                        assert(before + (seq![entry_model(en)] + rest->0) =~= before.push(entry_model(en)) + rest->0);
                    }
                }
            },
        }
        pos = if e < s.len() {
            e + 1
        } else {
            e
        };
    }
    proof {
        assert(out@.map_values(|e: Entry| entry_model(e)) + Seq::<EntryModel>::empty() =~= out@.map_values(|e: Entry| entry_model(e)));
    }
    Some(out)
}

} // verus!
