//! The `re0inv.ini` settings.
//!
//! Flat `key=value` lookup: section headers are skipped and keys are unique
//! across the whole file, the last one winning. `;` and `#` start a comment,
//! and a `;` after a value ends it. Keys are matched without regard to ASCII
//! case. Reading the file is the host's; a missing file means the defaults.

use vstd::prelude::*;

use crate::inventory::BAG_SIZE;
use crate::text::{chars_of, decimal, push_decimal, push_str, spells, string_of};

verus! {

/// Slots per character when the ini says nothing. Double the stock six.
pub const DEFAULT_SLOTS: usize = 12;

/// Slots in the item box when the ini says nothing.
pub const DEFAULT_BOX_SLOTS: usize = 24;

/// Upper bound on slots: a typo becomes a warning instead of an absurd
/// allocation.
pub const MAX_SLOTS: usize = 32;

/// How much the log says.
#[derive(Clone, Copy, PartialEq, Eq, Debug, Structural)]
pub enum Level {
    Off,
    Error,
    Warn,
    Info,
    Debug,
    Trace,
}

/// Whether `c` is white space as Unicode defines it (`char::is_whitespace`).
pub open spec fn white(c: char) -> bool {
    ||| '\u{9}' <= c <= '\u{d}'
    ||| c == ' '
    ||| c == '\u{85}'
    ||| c == '\u{a0}'
    ||| c == '\u{1680}'
    ||| '\u{2000}' <= c <= '\u{200a}'
    ||| c == '\u{2028}'
    ||| c == '\u{2029}'
    ||| c == '\u{202f}'
    ||| c == '\u{205f}'
    ||| c == '\u{3000}'
}

pub fn is_white(c: char) -> (r: bool)
    ensures
        r == white(c),
{
    ('\u{9}' <= c && c <= '\u{d}') || c == ' ' || c == '\u{85}' || c == '\u{a0}' || c == '\u{1680}'
        || ('\u{2000}' <= c && c <= '\u{200a}') || c == '\u{2028}' || c == '\u{2029}' || c
        == '\u{202f}' || c == '\u{205f}' || c == '\u{3000}'
}

/// `s` without white space at its end.
pub open spec fn trim_end(s: Seq<char>) -> Seq<char>
    decreases s.len(),
{
    if s.len() > 0 && white(s.last()) {
        trim_end(s.drop_last())
    } else {
        s
    }
}

/// `s` without white space at its start.
pub open spec fn trim_start(s: Seq<char>) -> Seq<char>
    decreases s.len(),
{
    if s.len() > 0 && white(s[0]) {
        trim_start(s.skip(1))
    } else {
        s
    }
}

/// `s` without white space at either end (`str::trim`).
pub open spec fn trim(s: Seq<char>) -> Seq<char> {
    trim_end(trim_start(s))
}

/// `s` with ASCII capitals made small (`str::to_ascii_lowercase`).
pub open spec fn lower(s: Seq<char>) -> Seq<char> {
    s.map_values(|c: char| if 'A' <= c <= 'Z' {
        ((c as u32) + 32) as char
    } else {
        c
    })
}

/// The pieces of `s` between `sep` characters, one more than there are
/// separators.
pub open spec fn split_on(s: Seq<char>, sep: char) -> Seq<Seq<char>>
    decreases s.len(),
{
    if s.len() == 0 {
        seq![Seq::<char>::empty()]
    } else {
        let p = split_on(s.drop_last(), sep);
        if s.last() == sep {
            p.push(Seq::<char>::empty())
        } else {
            p.update(p.len() - 1, p.last().push(s.last()))
        }
    }
}

/// Index of the first `c` in `s` from `from` on.
pub open spec fn index_of(s: Seq<char>, c: char, from: int) -> Option<int>
    decreases s.len() - from,
{
    if from < 0 || from >= s.len() {
        None
    } else if s[from] == c {
        Some(from)
    } else {
        index_of(s, c, from + 1)
    }
}

/// The setting a line holds, if it holds one: blank lines, comments and
/// section headers hold none, nor does a line without `=`.
pub open spec fn setting(line: Seq<char>) -> Option<(Seq<char>, Seq<char>)> {
    let l = trim(line);
    if l.len() == 0 || l[0] == ';' || l[0] == '#' || l[0] == '[' {
        None
    } else {
        match index_of(l, '=', 0) {
            None => None,
            Some(k) => {
                let v = l.skip(k + 1);
                let v = match index_of(v, ';', 0) {
                    Some(j) => v.take(j),
                    None => v,
                };
                Some((lower(trim(l.take(k))), trim(v)))
            },
        }
    }
}

/// Every setting of a text, in order.
pub open spec fn settings_in(lines: Seq<Seq<char>>) -> Seq<(Seq<char>, Seq<char>)>
    decreases lines.len(),
{
    if lines.len() == 0 {
        seq![]
    } else {
        let rest = settings_in(lines.drop_last());
        match setting(lines.last()) {
            Some(s) => rest.push(s),
            None => rest,
        }
    }
}

pub open spec fn settings(text: Seq<char>) -> Seq<(Seq<char>, Seq<char>)> {
    settings_in(split_on(text, '\n'))
}

/// The value of `key`: the last setting of it wins.
pub open spec fn lookup(entries: Seq<(Seq<char>, Seq<char>)>, key: Seq<char>) -> Option<Seq<char>>
    decreases entries.len(),
{
    if entries.len() == 0 {
        None
    } else if entries.last().0 == key {
        Some(entries.last().1)
    } else {
        lookup(entries.drop_last(), key)
    }
}

/// What a switch says: `1`, `true`, `yes`, `on` and their opposites, in any
/// ASCII case, with white space around; anything else keeps `default`.
pub open spec fn switch(v: Seq<char>, default: bool) -> bool {
    let w = lower(trim(v));
    if w == "1"@ || w == "true"@ || w == "yes"@ || w == "on"@ {
        true
    } else if w == "0"@ || w == "false"@ || w == "no"@ || w == "off"@ {
        false
    } else {
        default
    }
}

/// The value of a digit in `radix`, if `c` is one.
pub open spec fn digit_value(c: char, radix: nat) -> Option<nat> {
    let d: int = if '0' <= c <= '9' {
        c as int - '0' as int
    } else if 'a' <= c <= 'z' {
        c as int - 'a' as int + 10
    } else if 'A' <= c <= 'Z' {
        c as int - 'A' as int + 10
    } else {
        99
    };
    if d < radix {
        Some(d as nat)
    } else {
        None
    }
}

pub open spec fn all_digits(s: Seq<char>, radix: nat) -> bool {
    forall|i: int| 0 <= i < s.len() ==> (#[trigger] digit_value(s[i], radix)) is Some
}

/// The number the digits of `s` spell in `radix`.
pub open spec fn digits_value(s: Seq<char>, radix: nat) -> nat
    decreases s.len(),
{
    if s.len() == 0 {
        0
    } else {
        digits_value(s.drop_last(), radix) * radix + match digit_value(s.last(), radix) {
            Some(d) => d,
            None => 0,
        }
    }
}

/// An unsigned number in `radix` no larger than `max`, as `from_str_radix`
/// reads one: an optional `+`, then at least one digit.
pub open spec fn unsigned(s: Seq<char>, radix: nat, max: nat) -> Option<nat> {
    let body = if s.len() > 0 && s[0] == '+' {
        s.skip(1)
    } else {
        s
    };
    if body.len() == 0 || !all_digits(body, radix) || digits_value(body, radix) > max {
        None
    } else {
        Some(digits_value(body, radix))
    }
}

/// A decimal `i32`, as `str::parse` reads one: an optional sign, then at
/// least one digit, in range.
pub open spec fn signed(s: Seq<char>) -> Option<int> {
    if s.len() > 0 && s[0] == '-' {
        let body = s.skip(1);
        if body.len() == 0 || !all_digits(body, 10) || digits_value(body, 10) > 0x8000_0000 {
            None
        } else {
            Some(-digits_value(body, 10))
        }
    } else {
        match unsigned(s, 10, 0x7FFF_FFFF) {
            Some(v) => Some(v as int),
            None => None,
        }
    }
}

/// A number in decimal, or in hexadecimal after `0x` or `0X`, where a
/// hexadecimal one is the bits of a `u32`.
pub open spec fn number(v: Seq<char>) -> Option<i32> {
    let t = trim(v);
    if t.len() >= 2 && t[0] == '0' && (t[1] == 'x' || t[1] == 'X') {
        match unsigned(t.skip(2), 16, u32::MAX as nat) {
            Some(n) => Some((n as u32) as i32),
            None => None,
        }
    } else {
        match signed(t) {
            Some(n) => Some(n as i32),
            None => None,
        }
    }
}

/// What a log level setting says; anything unrecognised means `Info`.
pub open spec fn level_of(v: Seq<char>) -> Level {
    let w = lower(trim(v));
    if w == "off"@ {
        Level::Off
    } else if w == "error"@ {
        Level::Error
    } else if w == "warn"@ || w == "warning"@ {
        Level::Warn
    } else if w == "debug"@ {
        Level::Debug
    } else if w == "trace"@ {
        Level::Trace
    } else {
        Level::Info
    }
}

proof fn lemma_settings_push(lines: Seq<Seq<char>>, line: Seq<char>)
    ensures
        settings_in(lines.push(line)) == match setting(line) {
            Some(s) => settings_in(lines).push(s),
            None => settings_in(lines),
        },
{
    assert(lines.push(line).drop_last() =~= lines);
}

// --- Text, executed ---

fn trimmed_chars(s: &[char]) -> (r: Vec<char>)
    ensures
        r@ == trim(s@),
{
    let mut start: usize = 0;
    assert(s@.skip(0) =~= s@);
    while start < s.len() && is_white(s[start])
        invariant
            start <= s@.len(),
            trim_start(s@) == trim_start(s@.skip(start as int)),
        decreases s@.len() - start,
    {
        assert(s@.skip(start as int).skip(1) =~= s@.skip(start + 1));
        start += 1;
    }
    let mut end: usize = s.len();
    let ghost front = s@.skip(start as int);
    assert(trim_start(front) == front) by {
        if start < s@.len() {
            assert(front[0] == s@[start as int]);
        }
    }
    assert(front.take(front.len() as int) =~= front);
    while end > start && is_white(s[end - 1])
        invariant
            start <= end <= s@.len(),
            front == s@.skip(start as int),
            trim_end(front) == trim_end(front.take(end - start)),
        decreases end,
    {
        assert(front.take(end - start).drop_last() =~= front.take(end - start - 1));
        end -= 1;
    }
    let mut out: Vec<char> = Vec::new();
    let mut i: usize = start;
    while i < end
        invariant
            start <= i <= end,
            end <= s@.len(),
            out@ == s@.subrange(start as int, i as int),
        decreases end - i,
    {
        out.push(s[i]);
        i += 1;
        assert(out@ =~= s@.subrange(start as int, i as int));
    }
    assert(front.take(end - start) =~= out@);
    out
}

fn lowered(s: &[char]) -> (r: Vec<char>)
    ensures
        r@ == lower(s@),
{
    let mut out: Vec<char> = Vec::new();
    let mut i: usize = 0;
    while i < s.len()
        invariant
            i <= s@.len(),
            out@ == lower(s@.take(i as int)),
        decreases s@.len() - i,
    {
        let c = s[i];
        let l = if 'A' <= c && c <= 'Z' {
            small(c)
        } else {
            c
        };
        out.push(l);
        i += 1;
        assert(out@ =~= lower(s@.take(i as int)));
    }
    assert(s@.take(s@.len() as int) =~= s@);
    out
}

/// The small letter of an ASCII capital.
fn small(c: char) -> (r: char)
    requires
        'A' <= c <= 'Z',
    ensures
        r == ((c as u32) + 32) as char,
{
    match c {
        'A' => 'a',
        'B' => 'b',
        'C' => 'c',
        'D' => 'd',
        'E' => 'e',
        'F' => 'f',
        'G' => 'g',
        'H' => 'h',
        'I' => 'i',
        'J' => 'j',
        'K' => 'k',
        'L' => 'l',
        'M' => 'm',
        'N' => 'n',
        'O' => 'o',
        'P' => 'p',
        'Q' => 'q',
        'R' => 'r',
        'S' => 's',
        'T' => 't',
        'U' => 'u',
        'V' => 'v',
        'W' => 'w',
        'X' => 'x',
        'Y' => 'y',
        _ => 'z',
    }
}

fn find_char(s: &[char], c: char) -> (r: Option<usize>)
    ensures
        match index_of(s@, c, 0) {
            Some(k) => r == Some(k as usize) && 0 <= k < s@.len(),
            None => r is None,
        },
{
    let mut i: usize = 0;
    while i < s.len()
        invariant
            i <= s@.len(),
            index_of(s@, c, 0) == index_of(s@, c, i as int),
        decreases s@.len() - i,
    {
        if s[i] == c {
            return Some(i);
        }
        i += 1;
    }
    None
}

fn copy_range(s: &[char], from: usize, to: usize) -> (r: Vec<char>)
    requires
        from <= to <= s@.len(),
    ensures
        r@ == s@.subrange(from as int, to as int),
{
    let mut out: Vec<char> = Vec::new();
    let mut i: usize = from;
    while i < to
        invariant
            from <= i <= to,
            to <= s@.len(),
            out@ == s@.subrange(from as int, i as int),
        decreases to - i,
    {
        out.push(s[i]);
        i += 1;
        assert(out@ =~= s@.subrange(from as int, i as int));
    }
    out
}

fn line_setting(line: &[char]) -> (r: Option<(Vec<char>, Vec<char>)>)
    ensures
        match setting(line@) {
            None => r is None,
            Some((k, v)) => r matches Some((rk, rv)) && rk@ == k && rv@ == v,
        },
{
    let l = trimmed_chars(line);
    if l.len() == 0 || l[0] == ';' || l[0] == '#' || l[0] == '[' {
        return None;
    }
    let k = match find_char(l.as_slice(), '=') {
        None => {
            return None;
        },
        Some(k) => k,
    };
    let key = lowered(trimmed_chars(copy_range(l.as_slice(), 0, k).as_slice()).as_slice());
    let rest = copy_range(l.as_slice(), k + 1, l.len());
    proof {
        assert(rest@ =~= l@.skip(k + 1));
        assert(l@.subrange(0, k as int) =~= l@.take(k as int));
    }
    let value = match find_char(rest.as_slice(), ';') {
        Some(j) => {
            let cut = copy_range(rest.as_slice(), 0, j);
            assert(cut@ =~= rest@.take(j as int));
            cut
        },
        None => rest,
    };
    Some((key, trimmed_chars(value.as_slice())))
}

/// The settings as character sequences.
pub open spec fn pairs(v: Seq<(Vec<char>, Vec<char>)>) -> Seq<(Seq<char>, Seq<char>)> {
    v.map_values(|e: (Vec<char>, Vec<char>)| (e.0@, e.1@))
}

/// The settings of `text`, in order.
pub fn settings_of(text: &str) -> (r: Vec<(Vec<char>, Vec<char>)>)
    ensures
        pairs(r@) == settings(text@),
{
    let chars = chars_of(text);
    let mut out: Vec<(Vec<char>, Vec<char>)> = Vec::new();
    let mut done: usize = 0;
    let ghost mut lines: Seq<Seq<char>> = seq![];
    let mut current: Vec<char> = Vec::new();
    let mut i: usize = 0;
    while i < chars.len()
        invariant
            i <= chars@.len(),
            chars@ == text@,
            split_on(chars@.take(i as int), '\n') == lines.push(current@),
            out@.len() == settings_in(lines).len(),
            forall|k: int|
                0 <= k < out@.len() ==> (#[trigger] out@[k]).0@ == settings_in(lines)[k].0
                    && out@[k].1@ == settings_in(lines)[k].1,
        decreases chars@.len() - i,
    {
        let c = chars[i];
        proof {
            assert(chars@.take(i + 1).drop_last() =~= chars@.take(i as int));
        }
        if c == '\n' {
            let found = line_setting(current.as_slice());
            let ghost before = out@;
            proof {
                lemma_settings_push(lines, current@);
            }
            match found {
                Some(s) => {
                    out.push(s);
                },
                None => {},
            }
            proof {
                lines = lines.push(current@);
            }
            current = Vec::new();
            proof {
                assert(split_on(chars@.take(i + 1), '\n') =~= lines.push(current@));
            }
        } else {
            current.push(c);
            proof {
                assert(split_on(chars@.take(i + 1), '\n') =~= lines.push(current@));
            }
        }
        i += 1;
    }
    let found = line_setting(current.as_slice());
    proof {
        lemma_settings_push(lines, current@);
    }
    match found {
        Some(s) => {
            out.push(s);
        },
        None => {},
    }
    proof {
        lines = lines.push(current@);
        assert(chars@.take(chars@.len() as int) =~= chars@);
        assert(pairs(out@) =~= settings(text@));
    }
    out
}

/// The value that the last setting of `key` gives, if any.
fn value_for(entries: &Vec<(Vec<char>, Vec<char>)>, key: &str) -> (r: Option<Vec<char>>)
    ensures
        match lookup(pairs(entries@), key@) {
            Some(v) => r matches Some(x) && x@ == v,
            None => r is None,
        },
{
    let ghost all = pairs(entries@);
    let mut n: usize = entries.len();
    assert(all.take(n as int) =~= all);
    while n > 0
        invariant
            n <= entries@.len(),
            all == pairs(entries@),
            lookup(all, key@) == lookup(all.take(n as int), key@),
        decreases n,
    {
        let e = &entries[n - 1];
        let found = spells(e.0.as_slice(), key);
        let ghost part = all.take(n as int);
        assert(part.last() == (e.0@, e.1@));
        if found {
            return Some(copy_range(e.1.as_slice(), 0, e.1.len()));
        }
        assert(part.drop_last() =~= all.take(n - 1));
        n -= 1;
    }
    None
}

/// What a switch setting says, or `default` when it says neither.
fn parse_bool(v: &[char], default: bool) -> (r: bool)
    ensures
        r == switch(v@, default),
{
    let w = lowered(trimmed_chars(v).as_slice());
    let s = w.as_slice();
    if spells(s, "1") || spells(s, "true") || spells(s, "yes") || spells(s, "on") {
        true
    } else if spells(s, "0") || spells(s, "false") || spells(s, "no") || spells(s, "off") {
        false
    } else {
        default
    }
}

/// A level's rank: more is chattier.
pub open spec fn rank(l: Level) -> int {
    match l {
        Level::Off => 0,
        Level::Error => 1,
        Level::Warn => 2,
        Level::Info => 3,
        Level::Debug => 4,
        Level::Trace => 5,
    }
}

impl Level {
    /// A level's rank, as the log compares them.
    pub fn rank(&self) -> (r: u8)
        ensures
            r == rank(*self),
    {
        match self {
            Level::Off => 0,
            Level::Error => 1,
            Level::Warn => 2,
            Level::Info => 3,
            Level::Debug => 4,
            Level::Trace => 5,
        }
    }

    /// The tag a log line at this level starts with.
    pub fn tag(&self) -> (r: &'static str)
        ensures
            r@ == match *self {
                Level::Off => "OFF"@,
                Level::Error => "ERROR"@,
                Level::Warn => "WARN"@,
                Level::Info => "INFO"@,
                Level::Debug => "DEBUG"@,
                Level::Trace => "TRACE"@,
            },
    {
        match self {
            Level::Off => "OFF",
            Level::Error => "ERROR",
            Level::Warn => "WARN",
            Level::Info => "INFO",
            Level::Debug => "DEBUG",
            Level::Trace => "TRACE",
        }
    }

    /// Whether a log set to this level writes a line at `level`: nothing when
    /// it is off, else everything up to its own rank.
    pub fn writes(&self, level: Level) -> (r: bool)
        ensures
            r == (*self != Level::Off && rank(level) <= rank(*self)),
    {
        match self {
            Level::Off => false,
            _ => level.rank() <= self.rank(),
        }
    }

    /// The level a setting names, in any ASCII case and with white space
    /// around it; anything unrecognised falls back to `Info`.
    pub fn parse(s: &str) -> (r: Level)
        ensures
            r == level_of(s@),
    {
        let chars = chars_of(s);
        let w = lowered(trimmed_chars(chars.as_slice()).as_slice());
        let t = w.as_slice();
        if spells(t, "off") {
            Level::Off
        } else if spells(t, "error") {
            Level::Error
        } else if spells(t, "warn") || spells(t, "warning") {
            Level::Warn
        } else if spells(t, "debug") {
            Level::Debug
        } else if spells(t, "trace") {
            Level::Trace
        } else {
            Level::Info
        }
    }
}

proof fn lemma_digits_step(s: Seq<char>, k: int, radix: nat)
    requires
        0 <= k < s.len(),
    ensures
        digits_value(s.take(k + 1), radix) == digits_value(s.take(k), radix) * radix + match digit_value(
            s[k],
            radix,
        ) {
            Some(d) => d,
            None => 0,
        },
{
    assert(s.take(k + 1).drop_last() =~= s.take(k));
}

/// A prefix of digits never spells more than the whole.
proof fn lemma_digits_prefix(s: Seq<char>, j: int, radix: nat)
    requires
        0 <= j <= s.len(),
        radix >= 1,
    ensures
        digits_value(s.take(j), radix) <= digits_value(s, radix),
    decreases s.len(),
{
    if j == s.len() {
        assert(s.take(j) =~= s);
    } else {
        let p = s.drop_last();
        lemma_digits_prefix(p, j, radix);
        assert(p.take(j) =~= s.take(j));
        let x = digits_value(p, radix);
        assert(x <= x * radix) by (nonlinear_arith)
            requires
                radix >= 1,
        ;
    }
}

/// The value of `c` as a digit in `radix`.
fn digit_of(c: char, radix: u64) -> (r: Option<u64>)
    requires
        2 <= radix <= 36,
    ensures
        match digit_value(c, radix as nat) {
            Some(d) => r == Some(d as u64),
            None => r is None,
        },
{
    let d: u64 = if '0' <= c && c <= '9' {
        (c as u32 - '0' as u32) as u64
    } else if 'a' <= c && c <= 'z' {
        (c as u32 - 'a' as u32) as u64 + 10
    } else if 'A' <= c && c <= 'Z' {
        (c as u32 - 'A' as u32) as u64 + 10
    } else {
        99
    };
    if d < radix {
        Some(d)
    } else {
        None
    }
}

/// An unsigned number in `radix` no larger than `max`: an optional `+`, then
/// digits only.
pub fn read_unsigned(s: &[char], radix: u64, max: u64) -> (r: Option<u64>)
    requires
        2 <= radix <= 16,
    ensures
        match unsigned(s@, radix as nat, max as nat) {
            Some(n) => r == Some(n as u64),
            None => r is None,
        },
{
    let start: usize = if s.len() > 0 && s[0] == '+' {
        1
    } else {
        0
    };
    let ghost body = if s@.len() > 0 && s@[0] == '+' {
        s@.skip(1)
    } else {
        s@
    };
    assert(body =~= s@.skip(start as int));
    if start == s.len() {
        return None;
    }
    let mut acc: u64 = 0;
    let mut i: usize = start;
    assert(body.take(0) =~= Seq::<char>::empty());
    while i < s.len()
        invariant
            start <= i <= s@.len(),
            2 <= radix <= 16,
            body == s@.skip(start as int),
            body == (if s@.len() > 0 && s@[0] == '+' {
                s@.skip(1)
            } else {
                s@
            }),
            body.len() > 0,
            acc as nat == digits_value(body.take(i - start), radix as nat),
            acc <= max,
            all_digits(body.take(i - start), radix as nat),
        decreases s@.len() - i,
    {
        let k: usize = i - start;
        assert(body[k as int] == s@[i as int]);
        proof {
            lemma_digits_step(body, k as int, radix as nat);
        }
        let d = match digit_of(s[i], radix) {
            Some(d) => d,
            None => {
                assert(digit_value(body[k as int], radix as nat) is None);
                return None;
            },
        };
        assert(acc * radix <= 0xFFFF_FFFF_FFFF_FFFFu128 * 16) by (nonlinear_arith)
            requires
                acc <= 0xFFFF_FFFF_FFFF_FFFFu64,
                radix <= 16,
        ;
        let next: u128 = acc as u128 * radix as u128 + d as u128;
        if next > max as u128 {
            proof {
                lemma_digits_prefix(body, k + 1, radix as nat);
            }
            return None;
        }
        acc = next as u64;
        i += 1;
        assert forall|j: int| 0 <= j < i - start implies (#[trigger] digit_value(
            body.take(i - start)[j],
            radix as nat,
        )) is Some by {
            if j < k {
                assert(body.take(i - start)[j] == body.take(k as int)[j]);
            }
        }
    }
    assert(body.take(s@.len() - start) =~= body);
    Some(acc)
}

/// A decimal `usize`, as `str::parse` reads one.
fn parse_usize(v: &[char]) -> (r: Option<usize>)
    ensures
        match unsigned(v@, 10, usize::MAX as nat) {
            Some(n) => r == Some(n as usize),
            None => r is None,
        },
{
    match read_unsigned(v, 10, usize::MAX as u64) {
        Some(n) => Some(n as usize),
        None => None,
    }
}

/// A decimal number, or a hexadecimal one after `0x`, read as `i32`; the
/// hexadecimal form gives the bits of a `u32`.
fn parse_i32(v: &[char]) -> (r: Option<i32>)
    ensures
        r == number(v@),
{
    let t = trimmed_chars(v);
    if t.len() >= 2 && t[0] == '0' && (t[1] == 'x' || t[1] == 'X') {
        let hex = copy_range(t.as_slice(), 2, t.len());
        assert(hex@ =~= t@.skip(2));
        match read_unsigned(hex.as_slice(), 16, 0xFFFF_FFFF) {
            Some(n) => Some((n as u32) as i32),
            None => None,
        }
    } else if t.len() > 0 && t[0] == '-' {
        let body = copy_range(t.as_slice(), 1, t.len());
        assert(body@ =~= t@.skip(1));
        if body.len() == 0 || body[0] == '+' {
            assert(body@.len() > 0 ==> digit_value(body@[0], 10) is None);
            return None;
        }
        match read_unsigned(body.as_slice(), 10, 0x8000_0000) {
            Some(n) => Some((0 - (n as i64)) as i32),
            None => None,
        }
    } else {
        match read_unsigned(t.as_slice(), 10, 0x7FFF_FFFF) {
            Some(n) => Some(n as i32),
            None => None,
        }
    }
}

/// The settings, with the defaults where the file says nothing.
#[derive(Clone)]
pub struct Config {
    pub enabled: bool,
    pub log_level: Level,
    pub log_path: String,
    /// Inventory slots per character. Must be even: the game lays the
    /// inventory out in rows of 2, and two-slot items break on an odd count.
    pub slots: usize,
    pub doors: DoorsConfig,
    pub item_box: ItemBoxConfig,
    pub debug: DebugConfig,
}

/// Storage shown in place of the partner's bag.
#[derive(Clone, Copy)]
pub struct ItemBoxConfig {
    pub enabled: bool,
    /// How much the box holds. Even, for the same reason the inventory is.
    pub slots: usize,
}

/// Skipping the animation played when walking through a door.
#[derive(Clone, Copy)]
pub struct DoorsConfig {
    pub skip: bool,
    /// Also shorten the fades around the transition.
    pub shorten_fades: bool,
}

#[derive(Clone)]
pub struct DebugConfig {
    /// Dump the code section once Steam DRM has decrypted it.
    pub dump_text: bool,
    pub dump_path: String,
    /// Enables the hotkey-driven memory probe.
    pub probe: bool,
    /// Write a dump beside the game when its window stops responding.
    pub hang_dump: bool,
    /// Value the probe searches for.
    pub probe_value: i32,
}

/// A switch: what the last setting of `key` says, else `default`.
pub open spec fn switch_of(entries: Seq<(Seq<char>, Seq<char>)>, key: Seq<char>, default: bool) -> bool {
    match lookup(entries, key) {
        Some(v) => switch(v, default),
        None => default,
    }
}

/// A count: the last setting of `key` when it is a decimal `usize`, else
/// `default`.
pub open spec fn count_of(entries: Seq<(Seq<char>, Seq<char>)>, key: Seq<char>, default: nat) -> nat {
    match lookup(entries, key) {
        Some(v) => match unsigned(v, 10, usize::MAX as nat) {
            Some(n) => n,
            None => default,
        },
        None => default,
    }
}

/// A path: the last setting of `key` when it is not empty, else `default`.
pub open spec fn path_of(
    entries: Seq<(Seq<char>, Seq<char>)>,
    key: Seq<char>,
    default: Seq<char>,
) -> Seq<char> {
    match lookup(entries, key) {
        Some(v) => if v.len() > 0 {
            v
        } else {
            default
        },
        None => default,
    }
}

/// A number: the last setting of `key` when `number` reads it, else
/// `default`.
pub open spec fn number_of(entries: Seq<(Seq<char>, Seq<char>)>, key: Seq<char>, default: i32) -> i32 {
    match lookup(entries, key) {
        Some(v) => match number(v) {
            Some(n) => n,
            None => default,
        },
        None => default,
    }
}

/// A log level: what the last setting of `key` names, else `default`.
pub open spec fn level_of_key(
    entries: Seq<(Seq<char>, Seq<char>)>,
    key: Seq<char>,
    default: Level,
) -> Level {
    match lookup(entries, key) {
        Some(v) => level_of(v),
        None => default,
    }
}

fn switch_setting(entries: &Vec<(Vec<char>, Vec<char>)>, key: &str, default: bool) -> (r: bool)
    ensures
        r == switch_of(pairs(entries@), key@, default),
{
    match value_for(entries, key) {
        Some(v) => parse_bool(v.as_slice(), default),
        None => default,
    }
}

fn count_setting(entries: &Vec<(Vec<char>, Vec<char>)>, key: &str, default: usize) -> (r: usize)
    ensures
        r as nat == count_of(pairs(entries@), key@, default as nat),
{
    match value_for(entries, key) {
        Some(v) => match parse_usize(v.as_slice()) {
            Some(n) => n,
            None => default,
        },
        None => default,
    }
}

fn path_setting(entries: &Vec<(Vec<char>, Vec<char>)>, key: &str, default: &str) -> (r: String)
    ensures
        r@ == path_of(pairs(entries@), key@, default@),
{
    match value_for(entries, key) {
        Some(v) => if v.len() > 0 {
            string_of(v.as_slice())
        } else {
            default.to_owned()
        },
        None => default.to_owned(),
    }
}

fn number_setting(entries: &Vec<(Vec<char>, Vec<char>)>, key: &str, default: i32) -> (r: i32)
    ensures
        r == number_of(pairs(entries@), key@, default),
{
    match value_for(entries, key) {
        Some(v) => match parse_i32(v.as_slice()) {
            Some(n) => n,
            None => default,
        },
        None => default,
    }
}

fn level_setting(entries: &Vec<(Vec<char>, Vec<char>)>, key: &str, default: Level) -> (r: Level)
    ensures
        r == level_of_key(pairs(entries@), key@, default),
{
    match value_for(entries, key) {
        Some(v) => Level::parse(string_of(v.as_slice()).as_str()),
        None => default,
    }
}

impl Default for Config {
    fn default() -> (r: Config)
        ensures
            r.enabled,
            r.log_level == Level::Info,
            r.log_path@ == "re0inv.log"@,
            r.slots == DEFAULT_SLOTS,
            !r.doors.skip,
            r.doors.shorten_fades,
            !r.item_box.enabled,
            r.item_box.slots == DEFAULT_BOX_SLOTS,
            !r.debug.dump_text,
            r.debug.dump_path@ == "re0hd_text_dump.bin"@,
            !r.debug.probe,
            r.debug.hang_dump,
            r.debug.probe_value == 0,
    {
        Config {
            enabled: true,
            log_level: Level::Info,
            log_path: "re0inv.log".to_owned(),
            slots: DEFAULT_SLOTS,
            doors: DoorsConfig { skip: false, shorten_fades: true },
            item_box: ItemBoxConfig { enabled: false, slots: DEFAULT_BOX_SLOTS },
            debug: DebugConfig {
                dump_text: false,
                dump_path: "re0hd_text_dump.bin".to_owned(),
                probe: false,
                hang_dump: true,
                probe_value: 0,
            },
        }
    }
}

impl Config {
    /// The settings that the text of `re0inv.ini` gives, each falling back to
    /// its default where the file says nothing usable.
    pub fn from_text(text: &str) -> (r: Config)
        ensures
            r.enabled == switch_of(settings(text@), "mod"@, true),
            r.slots as nat == count_of(settings(text@), "slots"@, DEFAULT_SLOTS as nat),
            r.log_level == level_of_key(settings(text@), "level"@, Level::Info),
            r.log_path@ == path_of(settings(text@), "path"@, "re0inv.log"@),
            r.item_box.enabled == switch_of(settings(text@), "itembox"@, false),
            r.item_box.slots as nat == count_of(
                settings(text@),
                "boxslots"@,
                DEFAULT_BOX_SLOTS as nat,
            ),
            r.doors.skip == switch_of(settings(text@), "skipdoors"@, false),
            r.doors.shorten_fades == switch_of(settings(text@), "shortenfades"@, true),
            r.debug.dump_text == switch_of(settings(text@), "dumptext"@, false),
            r.debug.dump_path@ == path_of(
                settings(text@),
                "dumppath"@,
                "re0hd_text_dump.bin"@,
            ),
            r.debug.probe == switch_of(settings(text@), "probe"@, false),
            r.debug.hang_dump == switch_of(settings(text@), "hangdump"@, true),
            r.debug.probe_value == number_of(settings(text@), "probevalue"@, 0),
    {
        let e = settings_of(text);
        Config {
            enabled: switch_setting(&e, "mod", true),
            log_level: level_setting(&e, "level", Level::Info),
            log_path: path_setting(&e, "path", "re0inv.log"),
            slots: count_setting(&e, "slots", DEFAULT_SLOTS),
            doors: DoorsConfig {
                skip: switch_setting(&e, "skipdoors", false),
                shorten_fades: switch_setting(&e, "shortenfades", true),
            },
            item_box: ItemBoxConfig {
                enabled: switch_setting(&e, "itembox", false),
                slots: count_setting(&e, "boxslots", DEFAULT_BOX_SLOTS),
            },
            debug: DebugConfig {
                dump_text: switch_setting(&e, "dumptext", false),
                dump_path: path_setting(&e, "dumppath", "re0hd_text_dump.bin"),
                probe: switch_setting(&e, "probe", false),
                hang_dump: switch_setting(&e, "hangdump", true),
                probe_value: number_setting(&e, "probevalue", 0),
            },
        }
    }
}

/// The warning for a slot count below the stock bag.
pub open spec fn below_stock(n: nat) -> Seq<char> {
    "Slots="@ + decimal(n) + " is below the stock "@ + decimal(BAG_SIZE as nat) + "; using "@
        + decimal(BAG_SIZE as nat) + "."@
}

/// The warning for an odd slot count, rounded up to `fixed`.
pub open spec fn odd_count(n: nat, fixed: nat) -> Seq<char> {
    "Slots="@ + decimal(n) + " is odd and would break two-slot items; using "@ + decimal(fixed)
        + "."@
}

/// The warning for a slot count above the maximum.
pub open spec fn above_maximum(n: nat) -> Seq<char> {
    "Slots="@ + decimal(n) + " exceeds the supported maximum; using "@ + decimal(MAX_SLOTS as nat)
        + "."@
}

/// The slot count that sanitising `n` applies, and the warnings it gives,
/// in order: raised to the stock six, then to even, then capped.
pub open spec fn sanitized(n: nat) -> (nat, Seq<Seq<char>>) {
    let (a, w1) = if n < BAG_SIZE {
        (BAG_SIZE as nat, seq![below_stock(n)])
    } else {
        (n, seq![])
    };
    let (b, w2) = if a % 2 != 0 {
        ((a + 1) as nat, w1.push(odd_count(a, (a + 1) as nat)))
    } else {
        (a, w1)
    };
    if b > MAX_SLOTS {
        (MAX_SLOTS as nat, w2.push(above_maximum(b)))
    } else {
        (b, w2)
    }
}

/// Every setting of `a` but the slot count is that of `b`.
pub open spec fn same_but_slots(a: Config, b: Config) -> bool {
    &&& a.enabled == b.enabled
    &&& a.log_level == b.log_level
    &&& a.log_path@ == b.log_path@
    &&& a.doors == b.doors
    &&& a.item_box == b.item_box
    &&& a.debug.dump_text == b.debug.dump_text
    &&& a.debug.dump_path@ == b.debug.dump_path@
    &&& a.debug.probe == b.debug.probe
    &&& a.debug.hang_dump == b.debug.hang_dump
    &&& a.debug.probe_value == b.debug.probe_value
}

impl Config {
    /// Clamps an invalid slot count and reports each change, in order.
    /// Correcting silently would hide the gap between the requested and the
    /// applied setting.
    pub fn sanitize(&mut self) -> (warnings: Vec<String>)
        ensures
            final(self).slots as nat == sanitized(old(self).slots as nat).0,
            warnings@.len() == sanitized(old(self).slots as nat).1.len(),
            forall|i: int|
                0 <= i < warnings@.len() ==> (#[trigger] warnings@[i])@ == sanitized(
                    old(self).slots as nat,
                ).1[i],
            same_but_slots(*final(self), *old(self)),
    {
        let mut warnings: Vec<String> = Vec::new();
        let ghost n = self.slots as nat;
        let mut count: u128 = self.slots as u128;
        if count < BAG_SIZE as u128 {
            let mut w = String::new();
            push_str(&mut w, "Slots=");
            push_decimal(&mut w, count);
            push_str(&mut w, " is below the stock ");
            push_decimal(&mut w, BAG_SIZE as u128);
            push_str(&mut w, "; using ");
            push_decimal(&mut w, BAG_SIZE as u128);
            push_str(&mut w, ".");
            warnings.push(w);
            count = BAG_SIZE as u128;
        }
        let ghost w1 = warnings@;
        if count % 2 != 0 {
            let fixed = count + 1;
            let mut w = String::new();
            push_str(&mut w, "Slots=");
            push_decimal(&mut w, count);
            push_str(&mut w, " is odd and would break two-slot items; using ");
            push_decimal(&mut w, fixed);
            push_str(&mut w, ".");
            warnings.push(w);
            count = fixed;
        }
        let ghost w2 = warnings@;
        if count > MAX_SLOTS as u128 {
            let mut w = String::new();
            push_str(&mut w, "Slots=");
            push_decimal(&mut w, count);
            push_str(&mut w, " exceeds the supported maximum; using ");
            push_decimal(&mut w, MAX_SLOTS as u128);
            push_str(&mut w, ".");
            warnings.push(w);
            count = MAX_SLOTS as u128;
        }
        self.slots = count as usize;
        proof {
            let (a, v1) = if n < BAG_SIZE {
                (BAG_SIZE as nat, seq![below_stock(n)])
            } else {
                (n, seq![])
            };
            assert(w1.len() == v1.len());
            assert(forall|i: int| 0 <= i < w1.len() ==> (#[trigger] w1[i])@ == v1[i]);
        }
        warnings
    }
}

/// Sanitising always leaves a usable slot count: at least the stock six,
/// even, and no more than the supported maximum.
pub proof fn law_sanitized_count_is_usable(n: nat)
    ensures
        BAG_SIZE <= sanitized(n).0 <= MAX_SLOTS,
        sanitized(n).0 % 2 == 0,
{
}

/// Sanitising a count that was already sanitised changes nothing and warns
/// of nothing.
pub proof fn law_sanitize_settles(n: nat)
    ensures
        sanitized(sanitized(n).0) == (sanitized(n).0, Seq::<Seq<char>>::empty()),
{
    let m = sanitized(n).0;
    assert(sanitized(m).1 =~= Seq::<Seq<char>>::empty());
}


/// A switch reads as off when its value, trimmed and in lower case, is
/// `0`, `false`, `no` or `off`, and as on when it is `1`, `true`, `yes` or
/// `on`, whatever the default; any other value keeps the default.
pub proof fn law_switch_words(v: Seq<char>, default: bool)
    ensures
        ({
            let w = lower(trim(v));
            &&& (w == seq!['0'] || w == seq!['f', 'a', 'l', 's', 'e'] || w == seq!['n', 'o'] || w
                == seq!['o', 'f', 'f']) ==> !switch(v, default)
            &&& (w == seq!['1'] || w == seq!['t', 'r', 'u', 'e'] || w == seq!['y', 'e', 's'] || w
                == seq!['o', 'n']) ==> switch(v, default)
            &&& !(w == seq!['0'] || w == seq!['f', 'a', 'l', 's', 'e'] || w == seq!['n', 'o'] || w
                == seq!['o', 'f', 'f'] || w == seq!['1'] || w == seq!['t', 'r', 'u', 'e'] || w
                == seq!['y', 'e', 's'] || w == seq!['o', 'n']) ==> switch(v, default) == default
        }),
{
    reveal_strlit("0");
    reveal_strlit("1");
    reveal_strlit("false");
    reveal_strlit("true");
    reveal_strlit("no");
    reveal_strlit("yes");
    reveal_strlit("off");
    reveal_strlit("on");
    assert("0"@ =~= seq!['0']);
    assert("1"@ =~= seq!['1']);
    assert("false"@ =~= seq!['f', 'a', 'l', 's', 'e']);
    assert("true"@ =~= seq!['t', 'r', 'u', 'e']);
    assert("no"@ =~= seq!['n', 'o']);
    assert("yes"@ =~= seq!['y', 'e', 's']);
    assert("off"@ =~= seq!['o', 'f', 'f']);
    assert("on"@ =~= seq!['o', 'n']);
    assert(seq!['0'][0] != seq!['1'][0]);
    assert(seq!['n', 'o'][0] != seq!['o', 'n'][0]);
    assert(seq!['o', 'f', 'f'][0] != seq!['y', 'e', 's'][0]);
}

} // verus!
