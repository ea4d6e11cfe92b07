//! The activity logger.
//!
//! A [`Logger`] is bound at construction to one session file and two flags:
//! `quiet` suppresses console mirroring, `ephemeral` suppresses all disk
//! writes.  Its output goes to a [`LogSink`], the model of the logger's
//! surroundings: the standard output and error streams as line sequences, and
//! the `log/` and `err/` files as a map from path to text.  Error entries are
//! named by an error code derived from their timestamp alone; the code's
//! determinism and uniqueness are proved below.

use crate::digits::{digit_char, is_decimal_digit, lemma_padded_digits, lemma_padded_injective,
    lemma_padded_len, padded, pow10};
use crate::kvseq::{keys_distinct, lemma_keys_distinct_remove, lemma_map_of_entries,
    lemma_map_of_remove, map_of};
use crate::text::{str_eq, trim_text, trimmed};
use vstd::prelude::*;

verus! {

/// A wall-clock instant, split into calendar and clock fields.
///
/// The year is the full calendar year; two-digit renderings take it modulo
/// one hundred.  Nanoseconds may exceed one billion to represent a leap
/// second, as the clock source reports it.
#[derive(Clone, Copy, Debug, PartialEq, Eq, Structural)]
pub struct Timestamp {
    pub year: u32,
    pub month: u32,
    pub day: u32,
    pub hour: u32,
    pub minute: u32,
    pub second: u32,
    pub nanos: u32,
}

impl Timestamp {
    /// The fields lie in the ranges a clock reports: months one to twelve,
    /// days one to thirty-one, clock fields below their radix, nanoseconds
    /// below two billion.
    pub open spec fn wf(self) -> bool {
        &&& 1 <= self.month <= 12
        &&& 1 <= self.day <= 31
        &&& self.hour < 24
        &&& self.minute < 60
        &&& self.second < 60
        &&& self.nanos < 2_000_000_000
    }

    /// The year lies in the century whose two-digit renderings are
    /// unambiguous with one another.
    pub open spec fn in_century(self) -> bool {
        2000 <= self.year < 2100
    }
}

/// Relies on chrono's `Local::now` and its `Datelike`/`Timelike` accessors:
/// months are one to twelve, days one to thirty-one, hours below
/// twenty-four, minutes and seconds below sixty, and nanoseconds below two
/// billion (values of one billion and above representing a leap second).
/// The year is the calendar year, reduced to `u32` bit-for-bit.
#[verifier::external_body]
fn current_time() -> (r: Timestamp)
    ensures
        r.wf(),
{
    let now = chrono::Local::now();
    Timestamp {
        year: chrono::Datelike::year(&now) as u32,
        month: chrono::Datelike::month(&now),
        day: chrono::Datelike::day(&now),
        hour: chrono::Timelike::hour(&now),
        minute: chrono::Timelike::minute(&now),
        second: chrono::Timelike::second(&now),
        nanos: chrono::Timelike::nanosecond(&now),
    }
}

/// The fractional-second field of an error code: nine digits, or the natural
/// ten-digit form during a leap second.
pub open spec fn spec_frac(n: nat) -> Seq<char> {
    if n < 1_000_000_000 {
        padded(n, 9)
    } else {
        padded(n, 10)
    }
}

/// The error code of a timestamp: two digits each of year, month, day, hour,
/// minute and second, then the fractional-second digits, with no separators.
pub open spec fn spec_error_code(t: Timestamp) -> Seq<char> {
    padded((t.year % 100) as nat, 2) + (padded(t.month as nat, 2) + (padded(t.day as nat, 2) + (
    padded(t.hour as nat, 2) + (padded(t.minute as nat, 2) + (padded(t.second as nat, 2)
        + spec_frac(t.nanos as nat))))))
}

/// Splitting a concatenation at a known length determines both halves.
proof fn lemma_concat_cancel(x1: Seq<char>, y1: Seq<char>, x2: Seq<char>, y2: Seq<char>)
    requires
        x1.len() == x2.len(),
        x1 + y1 == x2 + y2,
    ensures
        x1 == x2,
        y1 == y2,
{
    assert(x1 =~= (x1 + y1).subrange(0, x1.len() as int));
    assert(x2 =~= (x2 + y2).subrange(0, x2.len() as int));
    assert(y1 =~= (x1 + y1).subrange(x1.len() as int, (x1 + y1).len() as int));
    assert(y2 =~= (x2 + y2).subrange(x2.len() as int, (x2 + y2).len() as int));
}

/// Error code determinism: the code is a function of the timestamp alone, so
/// equal timestamps yield equal codes.
pub proof fn lemma_error_code_deterministic(t1: Timestamp, t2: Timestamp)
    requires
        t1 == t2,
    ensures
        spec_error_code(t1) == spec_error_code(t2),
{
}

/// Error code uniqueness: within one century, distinct timestamps yield
/// distinct codes — equivalently, equal codes mean equal timestamps.
/// (Timestamps a whole number of centuries apart share a code: the year
/// keeps only two digits.)
pub proof fn lemma_error_code_injective(t1: Timestamp, t2: Timestamp)
    requires
        t1.wf(),
        t2.wf(),
        t1.in_century(),
        t2.in_century(),
        spec_error_code(t1) == spec_error_code(t2),
    ensures
        t1 == t2,
{
    reveal_with_fuel(pow10, 12);
    let yy1 = padded((t1.year % 100) as nat, 2);
    let mo1 = padded(t1.month as nat, 2);
    let dd1 = padded(t1.day as nat, 2);
    let hh1 = padded(t1.hour as nat, 2);
    let mi1 = padded(t1.minute as nat, 2);
    let ss1 = padded(t1.second as nat, 2);
    let fr1 = spec_frac(t1.nanos as nat);
    let yy2 = padded((t2.year % 100) as nat, 2);
    let mo2 = padded(t2.month as nat, 2);
    let dd2 = padded(t2.day as nat, 2);
    let hh2 = padded(t2.hour as nat, 2);
    let mi2 = padded(t2.minute as nat, 2);
    let ss2 = padded(t2.second as nat, 2);
    let fr2 = spec_frac(t2.nanos as nat);
    lemma_padded_len((t1.year % 100) as nat, 2);
    lemma_padded_len(t1.month as nat, 2);
    lemma_padded_len(t1.day as nat, 2);
    lemma_padded_len(t1.hour as nat, 2);
    lemma_padded_len(t1.minute as nat, 2);
    lemma_padded_len(t1.second as nat, 2);
    lemma_padded_len((t2.year % 100) as nat, 2);
    lemma_padded_len(t2.month as nat, 2);
    lemma_padded_len(t2.day as nat, 2);
    lemma_padded_len(t2.hour as nat, 2);
    lemma_padded_len(t2.minute as nat, 2);
    lemma_padded_len(t2.second as nat, 2);
    lemma_concat_cancel(yy1, mo1 + (dd1 + (hh1 + (mi1 + (ss1 + fr1)))), yy2, mo2 + (dd2 + (hh2 + (
    mi2 + (ss2 + fr2)))));
    lemma_concat_cancel(mo1, dd1 + (hh1 + (mi1 + (ss1 + fr1))), mo2, dd2 + (hh2 + (mi2 + (ss2
        + fr2))));
    lemma_concat_cancel(dd1, hh1 + (mi1 + (ss1 + fr1)), dd2, hh2 + (mi2 + (ss2 + fr2)));
    lemma_concat_cancel(hh1, mi1 + (ss1 + fr1), hh2, mi2 + (ss2 + fr2));
    lemma_concat_cancel(mi1, ss1 + fr1, mi2, ss2 + fr2);
    lemma_concat_cancel(ss1, fr1, ss2, fr2);
    assert(pow10(2) == 100);
    lemma_padded_injective((t1.year % 100) as nat, (t2.year % 100) as nat, 2);
    lemma_padded_injective(t1.month as nat, t2.month as nat, 2);
    lemma_padded_injective(t1.day as nat, t2.day as nat, 2);
    lemma_padded_injective(t1.hour as nat, t2.hour as nat, 2);
    lemma_padded_injective(t1.minute as nat, t2.minute as nat, 2);
    lemma_padded_injective(t1.second as nat, t2.second as nat, 2);
    assert(t1.year == t2.year);
    if t1.nanos < 1_000_000_000 && t2.nanos < 1_000_000_000 {
        assert(pow10(9) == 1_000_000_000);
        lemma_padded_injective(t1.nanos as nat, t2.nanos as nat, 9);
    } else if t1.nanos >= 1_000_000_000 && t2.nanos >= 1_000_000_000 {
        assert(pow10(10) == 10_000_000_000);
        lemma_padded_injective(t1.nanos as nat, t2.nanos as nat, 10);
    } else {
        lemma_padded_len(t1.nanos as nat, 9);
        lemma_padded_len(t2.nanos as nat, 9);
        lemma_padded_len(t1.nanos as nat, 10);
        lemma_padded_len(t2.nanos as nat, 10);
        assert(fr1.len() != fr2.len());
    }
}

/// Joining two all-digit renderings yields an all-digit rendering.
proof fn lemma_concat_digits(a: Seq<char>, b: Seq<char>)
    requires
        forall|i: int| 0 <= i < a.len() ==> is_decimal_digit(#[trigger] a[i]),
        forall|i: int| 0 <= i < b.len() ==> is_decimal_digit(#[trigger] b[i]),
    ensures
        forall|i: int| 0 <= i < (a + b).len() ==> is_decimal_digit(#[trigger] (a + b)[i]),
{
    assert forall|i: int| 0 <= i < (a + b).len() implies is_decimal_digit(#[trigger] (a + b)[i]) by {
        if i < a.len() {
            assert((a + b)[i] == a[i]);
        } else {
            assert((a + b)[i] == b[i - a.len()]);
        }
    };
}

/// An error code consists of decimal digits alone, so it can stand both as
/// a correlation token and as a file name stem.
pub proof fn lemma_error_code_digits(t: Timestamp)
    ensures
        forall|i: int|
            0 <= i < spec_error_code(t).len() ==> is_decimal_digit(
                #[trigger] spec_error_code(t)[i],
            ),
{
    let yy = padded((t.year % 100) as nat, 2);
    let mo = padded(t.month as nat, 2);
    let dd = padded(t.day as nat, 2);
    let hh = padded(t.hour as nat, 2);
    let mi = padded(t.minute as nat, 2);
    let ss = padded(t.second as nat, 2);
    let fr = spec_frac(t.nanos as nat);
    lemma_padded_digits((t.year % 100) as nat, 2);
    lemma_padded_digits(t.month as nat, 2);
    lemma_padded_digits(t.day as nat, 2);
    lemma_padded_digits(t.hour as nat, 2);
    lemma_padded_digits(t.minute as nat, 2);
    lemma_padded_digits(t.second as nat, 2);
    lemma_padded_digits(t.nanos as nat, 9);
    lemma_padded_digits(t.nanos as nat, 10);
    lemma_concat_digits(ss, fr);
    lemma_concat_digits(mi, ss + fr);
    lemma_concat_digits(hh, mi + (ss + fr));
    lemma_concat_digits(dd, hh + (mi + (ss + fr)));
    lemma_concat_digits(mo, dd + (hh + (mi + (ss + fr))));
    lemma_concat_digits(yy, mo + (dd + (hh + (mi + (ss + fr)))));
}

/// The session file name an instant determines is a valid path component:
/// digits, then a plain extension.
pub proof fn lemma_session_name_valid(t: Timestamp)
    ensures
        crate::store::valid_component(spec_session_name(t)),
{
    lemma_error_code_digits(t);
    lemma_padded_len((t.year % 100) as nat, 2);
    lemma_padded_len(t.month as nat, 2);
    lemma_padded_len(t.day as nat, 2);
    lemma_padded_len(t.hour as nat, 2);
    lemma_padded_len(t.minute as nat, 2);
    lemma_padded_len(t.second as nat, 2);
    lemma_padded_len(t.nanos as nat, 9);
    lemma_padded_len(t.nanos as nat, 10);
    let name = spec_session_name(t);
    assert(name.len() >= 25);
    assert forall|i: int| 0 <= i < name.len() implies !crate::store::is_path_sep(
        #[trigger] name[i],
    ) by {
        let code = spec_error_code(t);
        if i < code.len() {
            assert(name[i] == code[i]);
            assert(is_decimal_digit(code[i]));
        } else {
            assert(name[i] == seq!['.', 't', 'x', 't'][i - code.len()]);
        }
    };
}

/// Milliseconds shown in a stamp: the first three fractional digits.
pub open spec fn spec_millis(nanos: nat) -> nat {
    (nanos / 1_000_000) % 1000
}

/// The bracketed stamp that opens every log line:
/// `[MM/DD/YY HH:MM:SS:mmm]`.
pub open spec fn spec_stamp(t: Timestamp) -> Seq<char> {
    seq!['['] + padded(t.month as nat, 2) + seq!['/'] + padded(t.day as nat, 2) + seq!['/']
        + padded((t.year % 100) as nat, 2) + seq![' '] + padded(t.hour as nat, 2) + seq![':']
        + padded(t.minute as nat, 2) + seq![':'] + padded(t.second as nat, 2) + seq![':'] + padded(
        spec_millis(t.nanos as nat),
        3,
    ) + seq![']']
}

/// A session-log line for an informational entry: the stamp, a space, the
/// trimmed text, a newline.
pub open spec fn spec_log_line(t: Timestamp, text: Seq<char>) -> Seq<char> {
    spec_stamp(t) + seq![' '] + trimmed(text) + seq!['\n']
}

/// The short-form marker of an error entry.
pub open spec fn err_mark() -> Seq<char> {
    seq!['[', '!', ']']
}

/// A session-log line for an error entry: the stamp, the error marker, the
/// trimmed text, a newline.
pub open spec fn spec_err_line(t: Timestamp, text: Seq<char>) -> Seq<char> {
    spec_stamp(t) + seq![' '] + err_mark() + seq![' '] + trimmed(text) + seq!['\n']
}

/// No escape character occurs in `s`, so terminal styling wraps it without
/// rewriting it.
pub open spec fn esc_free(s: Seq<char>) -> bool {
    forall|i: int| 0 <= i < s.len() ==> (#[trigger] s[i]) != '\u{1b}'
}

/// The select-graphic-rendition code for dim (bright-black) text.
pub open spec fn sgr_dim() -> Seq<char> {
    seq!['9', '0']
}

/// The select-graphic-rendition code for bright-red text.
pub open spec fn sgr_red() -> Seq<char> {
    seq!['9', '1']
}

/// The select-graphic-rendition code for bright-white text.
pub open spec fn sgr_white() -> Seq<char> {
    seq!['9', '7']
}

/// `r` is `s` styled with the given code: either `s` unchanged (colors off)
/// or `s` wrapped in the code's escape sequence and a reset.
pub open spec fn is_styled(r: Seq<char>, s: Seq<char>, code: Seq<char>) -> bool {
    r == s || r == seq!['\u{1b}', '['] + code + seq!['m'] + s + seq!['\u{1b}', '[', '0', 'm']
}

/// Relies on colored's `Colorize::bright_black` and the `ColoredString`
/// display: escape-free text comes back unchanged, or wrapped in the
/// bright-black escape sequence and a reset, as the terminal environment
/// decides.
#[verifier::external_body]
fn style_dim(s: &str) -> (r: String)
    ensures
        esc_free(s@) ==> is_styled(r@, s@, sgr_dim()),
{
    colored::Colorize::bright_black(s).to_string()
}

/// Relies on colored's `Colorize::bright_red`, as `style_dim` does for
/// bright-black.
#[verifier::external_body]
fn style_mark(s: &str) -> (r: String)
    ensures
        esc_free(s@) ==> is_styled(r@, s@, sgr_red()),
{
    colored::Colorize::bright_red(s).to_string()
}

/// Relies on colored's `Colorize::bright_white`, as `style_dim` does for
/// bright-black.
#[verifier::external_body]
fn style_text(s: &str) -> (r: String)
    ensures
        esc_free(s@) ==> is_styled(r@, s@, sgr_white()),
{
    colored::Colorize::bright_white(s).to_string()
}

/// A padded decimal rendering never contains the escape character.
proof fn lemma_padded_esc_free(n: nat, width: nat)
    ensures
        esc_free(padded(n, width)),
    decreases width,
{
    if width > 0 {
        lemma_padded_esc_free(n / 10, (width - 1) as nat);
        let p = padded(n / 10, (width - 1) as nat);
        let c = digit_char((n % 10) as int);
        assert(c != '\u{1b}');
        assert forall|i: int| 0 <= i < padded(n, width).len() implies (#[trigger] padded(
            n,
            width,
        )[i]) != '\u{1b}' by {
            if i < p.len() {
                assert(padded(n, width)[i] == p[i]);
            } else {
                assert(padded(n, width)[i] == c);
            }
        };
    }
}

/// A stamp never contains the escape character.
proof fn lemma_stamp_esc_free(t: Timestamp)
    ensures
        esc_free(spec_stamp(t)),
{
    lemma_padded_esc_free(t.month as nat, 2);
    lemma_padded_esc_free(t.day as nat, 2);
    lemma_padded_esc_free((t.year % 100) as nat, 2);
    lemma_padded_esc_free(t.hour as nat, 2);
    lemma_padded_esc_free(t.minute as nat, 2);
    lemma_padded_esc_free(t.second as nat, 2);
    lemma_padded_esc_free(spec_millis(t.nanos as nat), 3);
}

/// Appends the stamp of `t` to `out`.
fn push_stamp(out: &mut String, t: Timestamp)
    ensures
        final(out)@ == old(out)@ + spec_stamp(t),
{
    proof {
        reveal_strlit("[");
        reveal_strlit("/");
        reveal_strlit(" ");
        reveal_strlit(":");
        reveal_strlit("]");
    }
    out.append("[");
    crate::digits::push_padded(out, t.month, 2);
    out.append("/");
    crate::digits::push_padded(out, t.day, 2);
    out.append("/");
    crate::digits::push_padded(out, t.year % 100, 2);
    out.append(" ");
    crate::digits::push_padded(out, t.hour, 2);
    out.append(":");
    crate::digits::push_padded(out, t.minute, 2);
    out.append(":");
    crate::digits::push_padded(out, t.second, 2);
    out.append(":");
    crate::digits::push_padded(out, (t.nanos / 1_000_000) % 1000, 3);
    out.append("]");
    proof {
        assert(final(out)@ =~= old(out)@ + spec_stamp(t));
    }
}

/// An informational entry: an instant and its text.
#[derive(Clone, Debug)]
pub struct LogContent {
    pub time: Timestamp,
    pub text: String,
}

impl LogContent {
    /// The entry as a session-log line: stamp, trimmed text, newline.
    pub fn to_line_string(&self) -> (r: String)
        ensures
            r@ == spec_log_line(self.time, self.text@),
    {
        let mut out = String::new();
        push_stamp(&mut out, self.time);
        proof {
            reveal_strlit(" ");
            reveal_strlit("\n");
        }
        out.append(" ");
        let t = trim_text(self.text.as_str());
        out.append(t.as_str());
        out.append("\n");
        proof {
            assert(out@ =~= spec_log_line(self.time, self.text@));
        }
        out
    }

    /// The entry as a console line: the stamp styled dim and the trimmed
    /// text styled bright, separated by a space.
    pub fn to_colored_string(&self) -> (r: String)
        ensures
            esc_free(trimmed(self.text@)) ==> exists|a: Seq<char>, b: Seq<char>|
                is_styled(a, spec_stamp(self.time), sgr_dim()) && is_styled(
                    b,
                    trimmed(self.text@),
                    sgr_white(),
                ) && r@ == a + seq![' '] + b,
    {
        let mut stamp = String::new();
        push_stamp(&mut stamp, self.time);
        proof {
            lemma_stamp_esc_free(self.time);
        }
        let a = style_dim(stamp.as_str());
        let t = trim_text(self.text.as_str());
        let b = style_text(t.as_str());
        let mut out = a;
        proof {
            reveal_strlit(" ");
        }
        out.append(" ");
        out.append(b.as_str());
        proof {
            if esc_free(trimmed(self.text@)) {
                assert(out@ =~= a@ + seq![' '] + b@);
            }
        }
        out
    }
}

/// An error entry: an instant, its short text, and an optional long form.
#[derive(Clone, Debug)]
pub struct ErrContent {
    pub time: Timestamp,
    pub text: String,
    pub long: Option<String>,
}

impl ErrContent {
    /// The entry as a session-log line: stamp, error marker, trimmed text,
    /// newline.
    pub fn to_line_string(&self) -> (r: String)
        ensures
            r@ == spec_err_line(self.time, self.text@),
    {
        let mut out = String::new();
        push_stamp(&mut out, self.time);
        proof {
            reveal_strlit(" [!] ");
            reveal_strlit("\n");
        }
        out.append(" [!] ");
        let t = trim_text(self.text.as_str());
        out.append(t.as_str());
        out.append("\n");
        proof {
            assert(out@ =~= spec_err_line(self.time, self.text@));
        }
        out
    }

    /// The entry as a console line: the stamp styled dim, the marker styled
    /// red, and the trimmed text styled bright, separated by spaces.
    pub fn to_colored_string(&self) -> (r: String)
        ensures
            esc_free(trimmed(self.text@)) ==> exists|a: Seq<char>, b: Seq<char>, c: Seq<char>|
                is_styled(a, spec_stamp(self.time), sgr_dim()) && is_styled(
                    b,
                    err_mark(),
                    sgr_red(),
                ) && is_styled(c, trimmed(self.text@), sgr_white()) && r@ == a + seq![' '] + b
                    + seq![' '] + c,
    {
        let mut stamp = String::new();
        push_stamp(&mut stamp, self.time);
        proof {
            lemma_stamp_esc_free(self.time);
            reveal_strlit("[!]");
            assert("[!]"@ =~= err_mark());
            assert(esc_free(err_mark()));
        }
        let a = style_dim(stamp.as_str());
        let b = style_mark("[!]");
        let t = trim_text(self.text.as_str());
        let c = style_text(t.as_str());
        let mut out = a;
        proof {
            reveal_strlit(" ");
        }
        out.append(" ");
        out.append(b.as_str());
        out.append(" ");
        out.append(c.as_str());
        proof {
            if esc_free(trimmed(self.text@)) {
                assert(out@ =~= a@ + seq![' '] + b@ + seq![' '] + c@);
            }
        }
        out
    }

    /// The long form written to the error's own file: the long text when one
    /// was supplied, the short text otherwise, trimmed.
    pub fn to_long_string(&self) -> (r: String)
        ensures
            r@ == trimmed(
                match self.long {
                    Some(l) => l@,
                    None => self.text@,
                },
            ),
    {
        match &self.long {
            Some(l) => trim_text(l.as_str()),
            None => trim_text(self.text.as_str()),
        }
    }
}

/// One file of the logger's disk model: a path and its text.
struct SinkFile {
    path: String,
    text: String,
}

/// The logger's surroundings: the console's two streams as the lines printed
/// so far, and the log and error files as a map from path to text.
pub struct LogSink {
    out: Vec<String>,
    err: Vec<String>,
    files: Vec<SinkFile>,
}

impl LogSink {
    /// The path/text pairs of the file model.
    closed spec fn fpairs(self) -> Seq<(Seq<char>, Seq<char>)> {
        self.files@.map(|i: int, f: SinkFile| (f.path@, f.text@))
    }

    /// File paths are pairwise distinct.
    pub closed spec fn wf(self) -> bool {
        keys_distinct(self.fpairs())
    }

    /// The lines printed to standard output, oldest first.
    pub closed spec fn spec_out(self) -> Seq<Seq<char>> {
        self.out@.map(|i: int, s: String| s@)
    }

    /// The lines printed to standard error, oldest first.
    pub closed spec fn spec_err(self) -> Seq<Seq<char>> {
        self.err@.map(|i: int, s: String| s@)
    }

    /// The files written, as a map from path to text.
    pub closed spec fn spec_files(self) -> Map<Seq<char>, Seq<char>> {
        map_of(self.fpairs())
    }

    /// A sink with nothing printed and nothing written.
    pub fn new() -> (r: LogSink)
        ensures
            r.wf(),
            r.spec_out() == Seq::<Seq<char>>::empty(),
            r.spec_err() == Seq::<Seq<char>>::empty(),
            r.spec_files() == Map::<Seq<char>, Seq<char>>::empty(),
    {
        let r = LogSink { out: Vec::new(), err: Vec::new(), files: Vec::new() };
        proof {
            assert(r.spec_out() =~= Seq::<Seq<char>>::empty());
            assert(r.spec_err() =~= Seq::<Seq<char>>::empty());
            assert(r.fpairs() =~= Seq::<(Seq<char>, Seq<char>)>::empty());
        }
        r
    }

    /// Prints a line to standard output.
    fn push_out(&mut self, line: String)
        requires
            old(self).wf(),
        ensures
            final(self).wf(),
            final(self).spec_out() == old(self).spec_out().push(line@),
            final(self).spec_err() == old(self).spec_err(),
            final(self).spec_files() == old(self).spec_files(),
    {
        self.out.push(line);
        proof {
            assert(self.spec_out() =~= old(self).spec_out().push(line@));
            assert(self.fpairs() =~= old(self).fpairs());
        }
    }

    /// Prints a line to standard error.
    fn push_err(&mut self, line: String)
        requires
            old(self).wf(),
        ensures
            final(self).wf(),
            final(self).spec_out() == old(self).spec_out(),
            final(self).spec_err() == old(self).spec_err().push(line@),
            final(self).spec_files() == old(self).spec_files(),
    {
        self.err.push(line);
        proof {
            assert(self.spec_err() =~= old(self).spec_err().push(line@));
            assert(self.fpairs() =~= old(self).fpairs());
        }
    }

    /// The index of the file at `path`, if any.
    fn find_file(&self, path: &str) -> (r: Option<usize>)
        requires
            self.wf(),
        ensures
            match r {
                Some(i) => i < self.files@.len() && self.files@[i as int].path@ == path@
                    && self.spec_files().contains_key(path@) && self.spec_files()[path@]
                    == self.files@[i as int].text@,
                None => !self.spec_files().contains_key(path@),
            },
    {
        proof {
            lemma_map_of_entries(self.fpairs());
        }
        let n = self.files.len();
        let mut i: usize = 0;
        while i < n
            invariant
                0 <= i <= n,
                n == self.files@.len(),
                self.wf(),
                forall|j: int| 0 <= j < i ==> (#[trigger] self.files@[j]).path@ != path@,
            decreases n - i,
        {
            if str_eq(self.files[i].path.as_str(), path) {
                proof {
                    lemma_map_of_entries(self.fpairs());
                    assert(self.fpairs()[i as int].0 == path@);
                }
                return Some(i);
            }
            i = i + 1;
        }
        proof {
            if self.spec_files().contains_key(path@) {
                lemma_map_of_entries(self.fpairs());
                let j = choose|j: int|
                    0 <= j < self.fpairs().len() && (#[trigger] self.fpairs()[j]).0 == path@;
                assert(self.files@[j].path@ == path@);
            }
        }
        None
    }

    /// The text of the file at `path`, if one was written.
    pub fn file_text(&self, path: &str) -> (r: Option<&String>)
        requires
            self.wf(),
        ensures
            match r {
                Some(t) => self.spec_files().contains_key(path@) && t@ == self.spec_files()[path@],
                None => !self.spec_files().contains_key(path@),
            },
    {
        match self.find_file(path) {
            Some(i) => Some(&self.files[i].text),
            None => None,
        }
    }

    /// How many files were written; zero exactly when the file model is
    /// empty.
    pub fn file_count(&self) -> (r: usize)
        requires
            self.wf(),
        ensures
            r == 0 <==> self.spec_files() == Map::<Seq<char>, Seq<char>>::empty(),
    {
        proof {
            if self.files@.len() == 0 {
                assert(self.fpairs() =~= Seq::<(Seq<char>, Seq<char>)>::empty());
                assert(self.spec_files() =~= Map::<Seq<char>, Seq<char>>::empty());
            } else {
                lemma_map_of_entries(self.fpairs());
                assert(self.spec_files().contains_key(self.fpairs()[0].0));
            }
        }
        self.files.len()
    }

    /// The lines printed to standard output so far.
    pub fn out_lines(&self) -> (r: &Vec<String>)
        ensures
            r@.map(|i: int, s: String| s@) == self.spec_out(),
    {
        &self.out
    }

    /// The lines printed to standard error so far.
    pub fn err_lines(&self) -> (r: &Vec<String>)
        ensures
            r@.map(|i: int, s: String| s@) == self.spec_err(),
    {
        &self.err
    }

    /// Creates or truncates the file at `path` so that it holds `text`.
    fn write_file(&mut self, path: &str, text: String)
        requires
            old(self).wf(),
        ensures
            final(self).wf(),
            final(self).spec_out() == old(self).spec_out(),
            final(self).spec_err() == old(self).spec_err(),
            final(self).spec_files() == old(self).spec_files().insert(path@, text@),
    {
        let ghost p = self.fpairs();
        match self.find_file(path) {
            Some(i) => {
                let _ = self.files.remove(i);
                proof {
                    assert(self.fpairs() =~= p.remove(i as int));
                    lemma_keys_distinct_remove(p, i as int);
                    lemma_map_of_remove(p, i as int);
                    let q = p.remove(i as int);
                    assert(p[i as int].0 == path@);
                    assert forall|j: int| 0 <= j < q.len() implies (#[trigger] q[j]).0
                        != path@ by {
                        let j0 = if j < i {
                            j
                        } else {
                            j + 1
                        };
                        assert(q[j] == p[j0]);
                        assert(p[j0].0 != p[i as int].0);
                    };
                }
            },
            None => {
                proof {
                    lemma_map_of_entries(p);
                    assert forall|j: int| 0 <= j < p.len() implies (#[trigger] p[j]).0
                        != path@ by {
                        if p[j].0 == path@ {
                            assert(map_of(p).contains_key(path@));
                        }
                    };
                }
            },
        }
        let ghost q = self.fpairs();
        self.files.push(SinkFile { path: path.to_owned(), text });
        proof {
            let qp = q.push((path@, text@));
            assert(self.fpairs() =~= qp);
            assert forall|a: int, b: int| 0 <= a < b < qp.len() implies (#[trigger] qp[a]).0 != (
            #[trigger] qp[b]).0 by {
                if b < q.len() {
                    assert(qp[a] == q[a] && qp[b] == q[b]);
                } else {
                    assert(qp[b].0 == path@);
                    assert(qp[a] == q[a]);
                }
            };
            assert(qp.drop_last() =~= q);
            assert(self.spec_files() =~= old(self).spec_files().insert(path@, text@));
        }
    }

    /// Appends `extra` to the file at `path` if it exists; a missing file is
    /// left missing, the write silently lost.
    fn append_to_file(&mut self, path: &str, extra: &str)
        requires
            old(self).wf(),
        ensures
            final(self).wf(),
            final(self).spec_out() == old(self).spec_out(),
            final(self).spec_err() == old(self).spec_err(),
            final(self).spec_files() == appended(old(self).spec_files(), path@, extra@),
    {
        match self.find_file(path) {
            Some(i) => {
                let ghost pre = self.spec_files();
                let mut text = self.files[i].text.clone();
                text.append(extra);
                self.write_file(path, text);
                proof {
                    assert(self.spec_files() =~= appended(pre, path@, extra@));
                }
            },
            None => {},
        }
    }
}

/// The file map after a best-effort append: the text grows when the file
/// exists, and nothing happens when it does not.
pub open spec fn appended(m: Map<Seq<char>, Seq<char>>, path: Seq<char>, extra: Seq<char>) -> Map<
    Seq<char>,
    Seq<char>,
> {
    if m.contains_key(path) {
        m.insert(path, m[path] + extra)
    } else {
        m
    }
}

/// Why a logger operation failed.  Construction and path computation can
/// state these; in this model neither ever occurs, and the contracts say so.
#[derive(Clone, Copy, Debug, PartialEq, Eq, Structural)]
pub enum LogError {
    /// A directory or file could not be touched.
    IoError,
    /// A computed file name could not form a path.
    PathError,
}

/// The directory of session logs, as a path prefix.
pub open spec fn log_dir_prefix() -> Seq<char> {
    seq!['l', 'o', 'g', '/']
}

/// The directory of per-error files, as a path prefix.
pub open spec fn err_dir_prefix() -> Seq<char> {
    seq!['e', 'r', 'r', '/']
}

/// The session file name a construction instant determines.
pub open spec fn spec_session_name(t: Timestamp) -> Seq<char> {
    spec_error_code(t) + seq!['.', 't', 'x', 't']
}

/// The path of the session file with the given name.
pub open spec fn spec_session_path(name: Seq<char>) -> Seq<char> {
    log_dir_prefix() + name
}

/// The path of the file dedicated to the error at `t`.
pub open spec fn spec_err_path(t: Timestamp) -> Seq<char> {
    err_dir_prefix() + spec_error_code(t) + seq!['.', 't', 'x', 't']
}

/// `l` is an informational console line for `t` and `text`: a styled stamp
/// and the styled trimmed text, separated by a space.
pub open spec fn console_info_line(l: Seq<char>, t: Timestamp, text: Seq<char>) -> bool {
    exists|a: Seq<char>, b: Seq<char>|
        is_styled(a, spec_stamp(t), sgr_dim()) && is_styled(b, trimmed(text), sgr_white()) && l == a
            + seq![' '] + b
}

/// `l` is an error console line for `t` and `text`: a styled stamp, the
/// styled error marker, and the styled trimmed text, separated by spaces.
pub open spec fn console_err_line(l: Seq<char>, t: Timestamp, text: Seq<char>) -> bool {
    exists|a: Seq<char>, b: Seq<char>, c: Seq<char>|
        is_styled(a, spec_stamp(t), sgr_dim()) && is_styled(b, err_mark(), sgr_red()) && is_styled(
            c,
            trimmed(text),
            sgr_white(),
        ) && l == a + seq![' '] + b + seq![' '] + c
}

/// The activity logger: a session file name and the two construction-time
/// flags.  `quiet` suppresses console mirroring; `ephemeral` suppresses all
/// file writes.
pub struct Logger {
    path: String,
    quiet: bool,
    ephemeral: bool,
}

impl Logger {
    /// The session file's name.
    pub closed spec fn spec_name(&self) -> Seq<char> {
        self.path@
    }

    /// Whether console mirroring is suppressed.
    pub closed spec fn spec_quiet(&self) -> bool {
        self.quiet
    }

    /// Whether file writes are suppressed.
    pub closed spec fn spec_ephemeral(&self) -> bool {
        self.ephemeral
    }

    /// The error code of a timestamp, as callers show it to end users: a
    /// deterministic function of the timestamp alone, produced whether or
    /// not any write succeeds.
    pub fn error_code(time: Timestamp) -> (r: String)
        ensures
            r@ == spec_error_code(time),
    {
        let mut out = String::new();
        crate::digits::push_padded(&mut out, time.year % 100, 2);
        crate::digits::push_padded(&mut out, time.month, 2);
        crate::digits::push_padded(&mut out, time.day, 2);
        crate::digits::push_padded(&mut out, time.hour, 2);
        crate::digits::push_padded(&mut out, time.minute, 2);
        crate::digits::push_padded(&mut out, time.second, 2);
        if time.nanos < 1_000_000_000 {
            crate::digits::push_padded(&mut out, time.nanos, 9);
        } else {
            crate::digits::push_padded(&mut out, time.nanos, 10);
        }
        proof {
            assert(out@ =~= spec_error_code(time));
        }
        out
    }

    /// A logger bound to the session file the instant `time` determines.
    /// Unless `ephemeral`, the session file is created empty; the console is
    /// untouched.
    pub fn new_at(time: Timestamp, quiet: bool, ephemeral: bool, sink: &mut LogSink) -> (r: Result<
        Logger,
        LogError,
    >)
        requires
            old(sink).wf(),
        ensures
            final(sink).wf(),
            match r {
                Ok(lg) => lg.spec_quiet() == quiet && lg.spec_ephemeral() == ephemeral
                    && lg.spec_name() == spec_session_name(time) && final(sink).spec_out() == old(sink).spec_out() && final(sink).spec_err() == old(sink).spec_err() && final(sink).spec_files() == (if ephemeral {
                    old(sink).spec_files()
                } else {
                    old(sink).spec_files().insert(
                        spec_session_path(spec_session_name(time)),
                        Seq::<char>::empty(),
                    )
                }),
                Err(_) => false,
            },
    {
        let code = Self::error_code(time);
        let mut name = code;
        proof {
            reveal_strlit(".txt");
        }
        name.append(".txt");
        proof {
            assert(name@ =~= spec_session_name(time));
        }
        if !ephemeral {
            proof {
                reveal_strlit("log/");
            }
            let mut p = String::from_str("log/");
            p.append(name.as_str());
            proof {
                assert(p@ =~= spec_session_path(spec_session_name(time)));
            }
            sink.write_file(p.as_str(), String::new());
        }
        Ok(Logger { path: name, quiet, ephemeral })
    }

    /// A logger for the present instant, as `new_at` builds it: the session
    /// file name comes from the clock, and unless `ephemeral` the session
    /// file is created empty.
    pub fn new(quiet: bool, ephemeral: bool, sink: &mut LogSink) -> (r: Result<Logger, LogError>)
        requires
            old(sink).wf(),
        ensures
            final(sink).wf(),
            match r {
                Ok(lg) => lg.spec_quiet() == quiet && lg.spec_ephemeral() == ephemeral && final(sink).spec_out() == old(sink).spec_out() && final(sink).spec_err() == old(sink).spec_err() && exists|t: Timestamp|
                    #![trigger spec_session_name(t)]
                    t.wf() && lg.spec_name() == spec_session_name(t) && final(sink).spec_files()
                        == (if ephemeral {
                        old(sink).spec_files()
                    } else {
                        old(sink).spec_files().insert(
                            spec_session_path(spec_session_name(t)),
                            Seq::<char>::empty(),
                        )
                    }),
                Err(_) => false,
            },
    {
        let time = current_time();
        let r = Self::new_at(time, quiet, ephemeral, sink);
        proof {
            assert(spec_session_name(time) == spec_error_code(time) + seq!['.', 't', 'x', 't']);
        }
        r
    }

    /// The session file's path: the log directory and the session name.
    pub fn path(&self) -> (r: Result<String, LogError>)
        ensures
            match r {
                Ok(p) => p@ == spec_session_path(self.spec_name()),
                Err(_) => false,
            },
    {
        proof {
            reveal_strlit("log/");
        }
        let mut p = String::from_str("log/");
        p.append(self.path.as_str());
        proof {
            assert(p@ =~= spec_session_path(self.spec_name()));
        }
        Ok(p)
    }

    /// Records an informational entry at a given instant.  Unless `quiet`, a
    /// console line goes to standard output; unless `ephemeral`, the session
    /// line is appended to the session file.  Nothing can fail.
    pub fn log_at(&self, time: Timestamp, text: &str, sink: &mut LogSink)
        requires
            old(sink).wf(),
        ensures
            final(sink).wf(),
            final(sink).spec_err() == old(sink).spec_err(),
            self.spec_quiet() ==> final(sink).spec_out() == old(sink).spec_out(),
            !self.spec_quiet() ==> exists|l: Seq<char>|
                final(sink).spec_out() == old(sink).spec_out().push(l) && (esc_free(trimmed(text@))
                    ==> console_info_line(l, time, text@)),
            final(sink).spec_files() == (if self.spec_ephemeral() {
                old(sink).spec_files()
            } else {
                appended(
                    old(sink).spec_files(),
                    spec_session_path(self.spec_name()),
                    spec_log_line(time, text@),
                )
            }),
    {
        let entry = LogContent { time, text: text.to_owned() };
        if !self.quiet {
            let line = entry.to_colored_string();
            sink.push_out(line);
        }
        if !self.ephemeral {
            proof {
                reveal_strlit("log/");
            }
            let mut p = String::from_str("log/");
            p.append(self.path.as_str());
            proof {
                assert(p@ =~= spec_session_path(self.spec_name()));
            }
            let line = entry.to_line_string();
            sink.append_to_file(p.as_str(), line.as_str());
        }
    }

    /// Records an informational entry at the present instant, as `log_at`
    /// does.  Failures never reach the caller: logging is best effort.
    pub fn info(&self, text: &str, sink: &mut LogSink)
        requires
            old(sink).wf(),
        ensures
            final(sink).wf(),
            final(sink).spec_err() == old(sink).spec_err(),
            self.spec_quiet() ==> final(sink).spec_out() == old(sink).spec_out(),
            !self.spec_quiet() ==> final(sink).spec_out().len() == old(sink).spec_out().len() + 1,
            self.spec_ephemeral() ==> final(sink).spec_files() == old(sink).spec_files(),
            exists|t: Timestamp|
                #![trigger spec_log_line(t, text@)]
                t.wf() && (!self.spec_quiet() ==> exists|l: Seq<char>|
                    final(sink).spec_out() == old(sink).spec_out().push(l) && (esc_free(
                        trimmed(text@),
                    ) ==> console_info_line(l, t, text@))) && final(sink).spec_files() == (
                if self.spec_ephemeral() {
                    old(sink).spec_files()
                } else {
                    appended(
                        old(sink).spec_files(),
                        spec_session_path(self.spec_name()),
                        spec_log_line(t, text@),
                    )
                }),
    {
        let time = current_time();
        self.log_at(time, text, sink);
        proof {
            assert(spec_log_line(time, text@) == spec_stamp(time) + seq![' '] + trimmed(text@)
                + seq!['\n']);
        }
    }

    /// Records an error entry at `time` with a short text and an optional
    /// long form.  Unless `quiet`, a console line goes to standard error;
    /// unless `ephemeral`, the long form (or the short text) is written to
    /// the error's own file and the session line is appended.  The error
    /// code is returned in every case, even when nothing was written.
    fn record_error(&self, time: Timestamp, text: &str, long: Option<&str>, sink: &mut LogSink) -> (
    code: String)
        requires
            old(sink).wf(),
        ensures
            final(sink).wf(),
            code@ == spec_error_code(time),
            final(sink).spec_out() == old(sink).spec_out(),
            self.spec_quiet() ==> final(sink).spec_err() == old(sink).spec_err(),
            !self.spec_quiet() ==> exists|l: Seq<char>|
                final(sink).spec_err() == old(sink).spec_err().push(l) && (esc_free(trimmed(text@))
                    ==> console_err_line(l, time, text@)),
            final(sink).spec_files() == (if self.spec_ephemeral() {
                old(sink).spec_files()
            } else {
                appended(
                    old(sink).spec_files().insert(
                        spec_err_path(time),
                        trimmed(
                            match long {
                                Some(l) => l@,
                                None => text@,
                            },
                        ),
                    ),
                    spec_session_path(self.spec_name()),
                    spec_err_line(time, text@),
                )
            }),
    {
        let code = Self::error_code(time);
        let long_owned = match long {
            Some(l) => Some(l.to_owned()),
            None => None,
        };
        let entry = ErrContent { time, text: text.to_owned(), long: long_owned };
        if !self.quiet {
            let line = entry.to_colored_string();
            sink.push_err(line);
        }
        if !self.ephemeral {
            proof {
                reveal_strlit("err/");
                reveal_strlit(".txt");
                reveal_strlit("log/");
            }
            let mut fp = String::from_str("err/");
            fp.append(code.as_str());
            fp.append(".txt");
            proof {
                assert(fp@ =~= spec_err_path(time));
            }
            sink.write_file(fp.as_str(), entry.to_long_string());
            let mut sp = String::from_str("log/");
            sp.append(self.path.as_str());
            proof {
                assert(sp@ =~= spec_session_path(self.spec_name()));
            }
            let line = entry.to_line_string();
            sink.append_to_file(sp.as_str(), line.as_str());
        }
        code
    }

    /// Records an error entry whose dedicated file holds the short text.
    /// The returned error code names that file and is produced whether or
    /// not anything was written.
    pub fn error(&self, time: Timestamp, text: &str, sink: &mut LogSink) -> (code: String)
        requires
            old(sink).wf(),
        ensures
            final(sink).wf(),
            code@ == spec_error_code(time),
            final(sink).spec_out() == old(sink).spec_out(),
            self.spec_quiet() ==> final(sink).spec_err() == old(sink).spec_err(),
            !self.spec_quiet() ==> exists|l: Seq<char>|
                final(sink).spec_err() == old(sink).spec_err().push(l) && (esc_free(trimmed(text@))
                    ==> console_err_line(l, time, text@)),
            final(sink).spec_files() == (if self.spec_ephemeral() {
                old(sink).spec_files()
            } else {
                appended(
                    old(sink).spec_files().insert(spec_err_path(time), trimmed(text@)),
                    spec_session_path(self.spec_name()),
                    spec_err_line(time, text@),
                )
            }),
    {
        self.record_error(time, text, None, sink)
    }

    /// Records an error entry whose dedicated file holds the long form
    /// instead of the short text.  The session line and console line still
    /// carry the short text.
    pub fn error_long(&self, time: Timestamp, text: &str, long: &str, sink: &mut LogSink) -> (code:
        String)
        requires
            old(sink).wf(),
        ensures
            final(sink).wf(),
            code@ == spec_error_code(time),
            final(sink).spec_out() == old(sink).spec_out(),
            self.spec_quiet() ==> final(sink).spec_err() == old(sink).spec_err(),
            !self.spec_quiet() ==> exists|l: Seq<char>|
                final(sink).spec_err() == old(sink).spec_err().push(l) && (esc_free(trimmed(text@))
                    ==> console_err_line(l, time, text@)),
            final(sink).spec_files() == (if self.spec_ephemeral() {
                old(sink).spec_files()
            } else {
                appended(
                    old(sink).spec_files().insert(spec_err_path(time), trimmed(long@)),
                    spec_session_path(self.spec_name()),
                    spec_err_line(time, text@),
                )
            }),
    {
        self.record_error(time, text, Some(long), sink)
    }
}

} // verus!
