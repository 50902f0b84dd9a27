//! The kernel shell's input side: line editing, splitting a command line
//! into words, choosing the command, and reading numbers and clock values.
//! Running the commands, which print and touch devices, is left to the
//! caller.
use vstd::prelude::*;

use crate::text::{chars_eq, chars_of, push_char};

verus! {

/// Longest input line, in bytes.
pub const MAX_LINE: usize = 255;

/// White space as `str::trim` sees it (the Unicode White_Space property).
pub open spec fn is_white(c: char) -> bool {
    let u = c as u32;
    (0x09 <= u && u <= 0x0D) || u == 0x20 || u == 0x85 || u == 0xA0 || u == 0x1680 || (0x2000 <= u
        && u <= 0x200A) || u == 0x2028 || u == 0x2029 || u == 0x202F || u == 0x205F || u == 0x3000
}

fn white(c: char) -> (r: bool)
    ensures
        r == is_white(c),
{
    let u = c as u32;
    (0x09 <= u && u <= 0x0D) || u == 0x20 || u == 0x85 || u == 0xA0 || u == 0x1680 || (0x2000 <= u
        && u <= 0x200A) || u == 0x2028 || u == 0x2029 || u == 0x202F || u == 0x205F || u == 0x3000
}

/// Index of the first character from `i` on that is not white space.
pub open spec fn first_dark(s: Seq<char>, i: int) -> int
    decreases s.len() - i,
{
    if i >= s.len() || !is_white(s[i]) {
        i
    } else {
        first_dark(s, i + 1)
    }
}

/// One past the last character before `j` that is not white space.
pub open spec fn end_dark(s: Seq<char>, j: int) -> int
    decreases j,
{
    if j <= 0 || !is_white(s[j - 1]) {
        j
    } else {
        end_dark(s, j - 1)
    }
}

/// `s` without leading and trailing white space.
pub open spec fn trimmed(s: Seq<char>) -> Seq<char> {
    let a = first_dark(s, 0);
    if a >= s.len() {
        Seq::empty()
    } else {
        s.subrange(a, end_dark(s, s.len() as int))
    }
}

/// The words of `s` from `i` on, `cur` being the word in progress: runs of
/// characters between spaces, empty runs dropped.
pub open spec fn words_from(s: Seq<char>, i: int, cur: Seq<char>) -> Seq<Seq<char>>
    decreases s.len() - i,
{
    if i >= s.len() {
        if cur.len() > 0 {
            seq![cur]
        } else {
            Seq::empty()
        }
    } else if s[i] == ' ' {
        (if cur.len() > 0 {
            seq![cur]
        } else {
            Seq::empty()
        }) + words_from(s, i + 1, Seq::empty())
    } else {
        words_from(s, i + 1, cur.push(s[i]))
    }
}

/// The words of a command line: trimmed, split at spaces, empty words dropped.
pub open spec fn line_words(s: Seq<char>) -> Seq<Seq<char>> {
    words_from(trimmed(s), 0, Seq::empty())
}

fn trim_bounds(s: &Vec<char>) -> (r: (usize, usize))
    ensures
        r.0 == first_dark(s@, 0),
        r.0 < s@.len() ==> r.1 == end_dark(s@, s@.len() as int) && r.0 < r.1 <= s@.len(),
        r.0 >= s@.len() ==> r.0 == s@.len(),
{
    let mut a: usize = 0;
    while a < s.len() && white(s[a])
        invariant
            a <= s@.len(),
            first_dark(s@, 0) == first_dark(s@, a as int),
        decreases s@.len() - a,
    {
        a = a + 1;
    }
    if a >= s.len() {
        return (a, a);
    }
    let mut b: usize = s.len();
    while b > 0 && white(s[b - 1])
        invariant
            a < b <= s@.len() || (b <= a && false),
            end_dark(s@, s@.len() as int) == end_dark(s@, b as int),
            !is_white(s@[a as int]),
            a < s@.len(),
        decreases b,
    {
        b = b - 1;
    }
    (a, b)
}

/// The words of `line` (see `line_words`).
pub fn split_words(line: &str) -> (w: Vec<Vec<char>>)
    ensures
        w@.len() == line_words(line@).len(),
        forall|i: int| 0 <= i < w@.len() ==> (#[trigger] w@[i])@ == line_words(line@)[i],
{
    let s = chars_of(line);
    let (a, b) = trim_bounds(&s);
    let ghost t = trimmed(s@);
    let mut out: Vec<Vec<char>> = Vec::new();
    if a >= s.len() {
        assert(t =~= Seq::<char>::empty());
        return out;
    }
    assert(t == s@.subrange(a as int, b as int));
    let mut cur: Vec<char> = Vec::new();
    let mut i: usize = a;
    while i < b
        invariant
            a <= i <= b <= s@.len(),
            t == s@.subrange(a as int, b as int),
            Seq::new(out@.len(), |k: int| out@[k]@) + words_from(t, i - a, cur@) == words_from(
                t,
                0,
                Seq::empty(),
            ),
        decreases b - i,
    {
        let ghost before = Seq::new(out@.len(), |k: int| out@[k]@);
        let ghost c0 = cur@;
        assert(t[i - a] == s@[i as int]);
        if s[i] == ' ' {
            if cur.len() > 0 {
                out.push(cur);
                assert(Seq::new(out@.len(), |k: int| out@[k]@) =~= before + seq![c0]);
            }
            cur = Vec::new();
            assert(Seq::new(out@.len(), |k: int| out@[k]@) + words_from(t, i + 1 - a, cur@) =~= before
                + words_from(t, i - a, c0));
        } else {
            cur.push(s[i]);
        }
        i = i + 1;
    }
    let ghost before = Seq::new(out@.len(), |k: int| out@[k]@);
    let ghost c0 = cur@;
    if cur.len() > 0 {
        out.push(cur);
        assert(Seq::new(out@.len(), |k: int| out@[k]@) =~= before + seq![c0]);
    } else {
        assert(Seq::new(out@.len(), |k: int| out@[k]@) =~= before + words_from(t, i - a, c0));
    }
    let ghost fin = Seq::new(out@.len(), |k: int| out@[k]@);
    assert(fin =~= line_words(line@));
    assert forall|k: int| 0 <= k < out@.len() implies (#[trigger] out@[k])@ == line_words(line@)[k] by {
        assert(fin[k] == out@[k]@);
    }
    out
}

/// The shell's commands.
#[derive(Debug, Clone, Copy, PartialEq, Eq, Structural)]
pub enum CommandKind {
    Empty,
    Info,
    Time,
    Dev,
    Help,
    Clear,
    Reboot,
    Ps,
    Kill,
    Run,
    Bg,
    Fg,
    Sched,
    Mem,
    Regs,
    Io,
    Pmm,
    Apic,
    Unknown,
}

/// The command a word names; the developer commands (mem, regs, io, pmm,
/// apic) only in developer mode.
pub open spec fn command_of(w: Seq<char>, dev_mode: bool) -> CommandKind {
    if w == "info"@ {
        CommandKind::Info
    } else if w == "time"@ {
        CommandKind::Time
    } else if w == "dev"@ {
        CommandKind::Dev
    } else if w == "help"@ {
        CommandKind::Help
    } else if w == "clear"@ {
        CommandKind::Clear
    } else if w == "reboot"@ {
        CommandKind::Reboot
    } else if w == "ps"@ {
        CommandKind::Ps
    } else if w == "kill"@ {
        CommandKind::Kill
    } else if w == "run"@ {
        CommandKind::Run
    } else if w == "bg"@ {
        CommandKind::Bg
    } else if w == "fg"@ {
        CommandKind::Fg
    } else if w == "sched"@ {
        CommandKind::Sched
    } else if dev_mode && w == "mem"@ {
        CommandKind::Mem
    } else if dev_mode && w == "regs"@ {
        CommandKind::Regs
    } else if dev_mode && w == "io"@ {
        CommandKind::Io
    } else if dev_mode && w == "pmm"@ {
        CommandKind::Pmm
    } else if dev_mode && w == "apic"@ {
        CommandKind::Apic
    } else {
        CommandKind::Unknown
    }
}

/// A command line, decoded.
pub struct Command {
    pub kind: CommandKind,
    /// The first word (empty for an empty line).
    pub name: String,
    /// The words after the first.
    pub args: Vec<String>,
}

fn word_is(w: &Vec<char>, lit: &str) -> (r: bool)
    ensures
        r == (w@ == lit@),
{
    let l = chars_of(lit);
    chars_eq(w, &l)
}

fn string_from(w: &Vec<char>) -> (s: String)
    ensures
        s@ == w@,
{
    let mut s = String::new();
    let mut i: usize = 0;
    while i < w.len()
        invariant
            i <= w@.len(),
            s@ == w@.subrange(0, i as int),
        decreases w@.len() - i,
    {
        push_char(&mut s, w[i]);
        assert(w@.subrange(0, i + 1) =~= w@.subrange(0, i as int).push(w@[i as int]));
        i = i + 1;
    }
    assert(w@.subrange(0, w@.len() as int) =~= w@);
    s
}

fn kind_of_word(w: &Vec<char>, dev_mode: bool) -> (k: CommandKind)
    ensures
        k == command_of(w@, dev_mode),
{
    if word_is(w, "info") {
        CommandKind::Info
    } else if word_is(w, "time") {
        CommandKind::Time
    } else if word_is(w, "dev") {
        CommandKind::Dev
    } else if word_is(w, "help") {
        CommandKind::Help
    } else if word_is(w, "clear") {
        CommandKind::Clear
    } else if word_is(w, "reboot") {
        CommandKind::Reboot
    } else if word_is(w, "ps") {
        CommandKind::Ps
    } else if word_is(w, "kill") {
        CommandKind::Kill
    } else if word_is(w, "run") {
        CommandKind::Run
    } else if word_is(w, "bg") {
        CommandKind::Bg
    } else if word_is(w, "fg") {
        CommandKind::Fg
    } else if word_is(w, "sched") {
        CommandKind::Sched
    } else if dev_mode && word_is(w, "mem") {
        CommandKind::Mem
    } else if dev_mode && word_is(w, "regs") {
        CommandKind::Regs
    } else if dev_mode && word_is(w, "io") {
        CommandKind::Io
    } else if dev_mode && word_is(w, "pmm") {
        CommandKind::Pmm
    } else if dev_mode && word_is(w, "apic") {
        CommandKind::Apic
    } else {
        CommandKind::Unknown
    }
}

/// Decodes a command line: an empty line (after trimming) is no command;
/// else the first word chooses the command and the rest are its arguments.
pub fn execute_command(input: &str, dev_mode: bool) -> (c: Command)
    ensures
        line_words(input@).len() == 0 ==> c.kind == CommandKind::Empty && c.name@.len() == 0
            && c.args@.len() == 0,
        line_words(input@).len() > 0 ==> {
            &&& c.kind == command_of(line_words(input@)[0], dev_mode)
            &&& c.name@ == line_words(input@)[0]
            &&& c.args@.len() == line_words(input@).len() - 1
            &&& forall|i: int|
                0 <= i < c.args@.len() ==> (#[trigger] c.args@[i])@ == line_words(input@)[i + 1]
        },
{
    let parts = split_words(input);
    if parts.len() == 0 {
        return Command { kind: CommandKind::Empty, name: String::new(), args: Vec::new() };
    }
    let kind = kind_of_word(&parts[0], dev_mode);
    let name = string_from(&parts[0]);
    let mut args: Vec<String> = Vec::new();
    let mut i: usize = 1;
    while i < parts.len()
        invariant
            1 <= i <= parts@.len(),
            parts@.len() == line_words(input@).len(),
            forall|k: int| 0 <= k < parts@.len() ==> (#[trigger] parts@[k])@ == line_words(input@)[k],
            args@.len() == i - 1,
            forall|k: int| 0 <= k < args@.len() ==> (#[trigger] args@[k])@ == line_words(input@)[k + 1],
        decreases parts@.len() - i,
    {
        args.push(string_from(&parts[i]));
        i = i + 1;
    }
    Command { kind, name, args }
}

/// The value of digit `c` in `base` (10 or 16), or -1.
pub open spec fn digit_value(c: char, base: int) -> int {
    let u = c as int;
    if 0x30 <= u <= 0x39 {
        u - 0x30
    } else if base == 16 && 0x61 <= u <= 0x66 {
        u - 0x61 + 10
    } else if base == 16 && 0x41 <= u <= 0x46 {
        u - 0x41 + 10
    } else {
        -1
    }
}

/// Reads the digits of `s` from `i` on, `acc` being the value so far: each
/// step multiplies by the base then adds the digit; the first character
/// that is not a digit makes the value 0. `None` where a step overflows.
pub open spec fn digits_value(s: Seq<char>, base: int, i: int, acc: int) -> Option<int>
    decreases s.len() - i,
{
    if i < 0 || i >= s.len() {
        Some(acc)
    } else {
        let m = acc * base;
        let d = digit_value(s[i], base);
        if m > usize::MAX {
            None
        } else if d < 0 {
            Some(0)
        } else if m + d > usize::MAX {
            None
        } else {
            digits_value(s, base, i + 1, m + d)
        }
    }
}

proof fn lemma_digits_range(s: Seq<char>, base: int, i: int, acc: int)
    requires
        0 <= acc <= usize::MAX,
        base == 10 || base == 16,
    ensures
        digits_value(s, base, i, acc) matches Some(v) ==> 0 <= v <= usize::MAX,
    decreases s.len() - i,
{
    if 0 <= i < s.len() {
        let m = acc * base;
        assert(m >= 0) by (nonlinear_arith)
            requires
                acc >= 0,
                base > 0,
                m == acc * base,
        ;
        let d = digit_value(s[i], base);
        if m <= usize::MAX && d >= 0 && m + d <= usize::MAX {
            lemma_digits_range(s, base, i + 1, m + d);
        }
    }
}

/// `s` starts with `p`.
pub open spec fn starts_with(s: Seq<char>, p: Seq<char>) -> bool {
    p.len() <= s.len() && s.subrange(0, p.len() as int) == p
}

/// `s` without a leading "0x", then without a leading "0X".
pub open spec fn strip_hex(s: Seq<char>) -> Seq<char> {
    let a = if starts_with(s, seq!['0', 'x']) {
        s.skip(2)
    } else {
        s
    };
    if starts_with(a, seq!['0', 'X']) {
        a.skip(2)
    } else {
        a
    }
}

/// What `parse_hex` reads from `s`.
pub open spec fn hex_value(s: Seq<char>) -> Option<int> {
    digits_value(strip_hex(s), 16, 0, 0)
}

/// What `parse_int` reads from `s`: hexadecimal after "0x" or "0X", else
/// decimal.
pub open spec fn int_value(s: Seq<char>) -> Option<int> {
    if starts_with(s, seq!['0', 'x']) || starts_with(s, seq!['0', 'X']) {
        hex_value(s)
    } else {
        digits_value(s, 10, 0, 0)
    }
}

fn digits(s: &Vec<char>, from: usize, base: usize) -> (r: Option<usize>)
    requires
        base == 10 || base == 16,
        from <= s@.len(),
    ensures
        r == match digits_value(s@.skip(from as int), base as int, 0, 0) {
            Some(v) => Some(v as usize),
            None => None::<usize>,
        },
{
    let ghost t = s@.skip(from as int);
    let mut result: usize = 0;
    let mut i: usize = from;
    while i < s.len()
        invariant
            from <= i <= s@.len(),
            base == 10 || base == 16,
            t == s@.skip(from as int),
            digits_value(t, base as int, 0, 0) == digits_value(t, base as int, i - from, result as int),
        decreases s@.len() - i,
    {
        assert(t[i - from] == s@[i as int]);
        let m = match result.checked_mul(base) {
            Some(m) => m,
            None => return None,
        };
        let c = s[i];
        let d: usize = if '0' <= c && c <= '9' {
            (c as u32 - '0' as u32) as usize
        } else if base == 16 && 'a' <= c && c <= 'f' {
            (c as u32 - 'a' as u32 + 10) as usize
        } else if base == 16 && 'A' <= c && c <= 'F' {
            (c as u32 - 'A' as u32 + 10) as usize
        } else {
            return Some(0);
        };
        result = match m.checked_add(d) {
            Some(v) => v,
            None => return None,
        };
        i = i + 1;
    }
    Some(result)
}

fn has_prefix(s: &Vec<char>, from: usize, second: char) -> (r: bool)
    requires
        from <= s@.len(),
    ensures
        r == starts_with(s@.skip(from as int), seq!['0', second]),
{
    let r = s.len() - from >= 2 && s[from] == '0' && s[from + 1] == second;
    proof {
        let t = s@.skip(from as int);
        if r {
            assert(t.subrange(0, 2) =~= seq!['0', second]);
        } else if t.len() >= 2 {
            assert(t.subrange(0, 2)[0] == s@[from as int]);
            assert(t.subrange(0, 2)[1] == s@[from + 1]);
        }
    }
    r
}

/// The hexadecimal value of `s` (see `hex_value`); `None` where the
/// digit-by-digit accumulation would overflow `usize`.
pub fn parse_hex_checked(s: &str) -> (r: Option<usize>)
    ensures
        r == match hex_value(s@) {
            Some(v) => Some(v as usize),
            None => None::<usize>,
        },
{
    let cs = chars_of(s);
    let mut from: usize = 0;
    if has_prefix(&cs, 0, 'x') {
        from = 2;
    }
    assert(cs@.skip(0) =~= cs@);
    let ghost a = if starts_with(cs@, seq!['0', 'x']) {
        cs@.skip(2)
    } else {
        cs@
    };
    assert(a =~= cs@.skip(from as int));
    if has_prefix(&cs, from, 'X') {
        assert(a.skip(2) =~= cs@.skip(from + 2));
        from = from + 2;
    }
    digits(&cs, from, 16)
}

/// The value of `s` (see `int_value`); `None` where the digit-by-digit
/// accumulation would overflow `usize`.
pub fn parse_int_checked(s: &str) -> (r: Option<usize>)
    ensures
        r == match int_value(s@) {
            Some(v) => Some(v as usize),
            None => None::<usize>,
        },
{
    let cs = chars_of(s);
    assert(cs@.skip(0) =~= cs@);
    if has_prefix(&cs, 0, 'x') || has_prefix(&cs, 0, 'X') {
        parse_hex_checked(s)
    } else {
        digits(&cs, 0, 10)
    }
}

/// The hexadecimal value of `s`, after an optional "0x" and then an
/// optional "0X"; 0 when a character is not a hex digit.
pub fn parse_hex(s: &str) -> (r: usize)
    requires
        hex_value(s@) is Some,
    ensures
        r == hex_value(s@)->0,
{
    proof {
        lemma_digits_range(strip_hex(s@), 16, 0, 0);
    }
    match parse_hex_checked(s) {
        Some(v) => v,
        None => 0,
    }
}

/// The value of `s`: hexadecimal after "0x" or "0X", else decimal; 0 when
/// a character is not a digit.
pub fn parse_int(s: &str) -> (r: usize)
    requires
        int_value(s@) is Some,
    ensures
        r == int_value(s@)->0,
{
    proof {
        lemma_digits_range(strip_hex(s@), 16, 0, 0);
        lemma_digits_range(s@, 10, 0, 0);
    }
    match parse_int_checked(s) {
        Some(v) => v,
        None => 0,
    }
}

/// A two-digit BCD byte as a number.
pub fn bcd_to_binary(val: u8) -> (r: u8)
    ensures
        r == val % 16 + (val / 16) * 10,
{
    assert(val & 0x0F == val % 16) by (bit_vector);
    assert(val >> 4 == val / 16) by (bit_vector);
    (val & 0x0F) + ((val >> 4) * 10)
}

/// What a key does to the line being typed.
#[derive(Debug)]
pub enum EditOutcome {
    /// Enter: the line, which is then cleared.
    Submit(String),
    /// Backspace took the last character off (erase it on screen).
    Erase,
    /// The character went on the line (echo it).
    Echo(u8),
    /// Nothing happened.
    Ignore,
}

/// The line being typed at the prompt.
pub struct LineEditor {
    buf: Vec<u8>,
}

impl LineEditor {
    pub closed spec fn line(&self) -> Seq<u8> {
        self.buf@
    }

    pub fn new() -> (e: Self)
        ensures
            e.line().len() == 0,
    {
        LineEditor { buf: Vec::new() }
    }

    /// One key: Enter submits the line (each byte as a character) and
    /// starts a new one; backspace removes the last character; a printable
    /// byte is added while the line is shorter than `MAX_LINE`.
    pub fn key(&mut self, ch: u8) -> (o: EditOutcome)
        requires
            old(self).line().len() <= MAX_LINE,
        ensures
            final(self).line().len() <= MAX_LINE,
            ch == 0x0A ==> (o matches EditOutcome::Submit(s) && s@ == Seq::new(
                old(self).line().len(),
                |i: int| old(self).line()[i] as char,
            )) && final(self).line().len() == 0,
            ch == 8 && old(self).line().len() > 0 ==> (o matches EditOutcome::Erase)
                && final(self).line() == old(self).line().drop_last(),
            ch == 8 && old(self).line().len() == 0 ==> (o matches EditOutcome::Ignore)
                && final(self).line() == old(self).line(),
            ch != 0x0A && ch != 8 && ch >= 32 && old(self).line().len() < MAX_LINE ==> (o
                == EditOutcome::Echo(ch)) && final(self).line() == old(self).line().push(ch),
            ch != 0x0A && ch != 8 && !(ch >= 32 && old(self).line().len() < MAX_LINE) ==> (o
                matches EditOutcome::Ignore) && final(self).line() == old(self).line(),
    {
        if ch == 0x0A {
            let mut s = String::new();
            let mut i: usize = 0;
            while i < self.buf.len()
                invariant
                    i <= self.buf@.len(),
                    self.buf@ == old(self).buf@,
                    s@ == Seq::new(i as nat, |k: int| self.buf@[k] as char),
                decreases self.buf@.len() - i,
            {
                push_char(&mut s, self.buf[i] as char);
                assert(s@ =~= Seq::new((i + 1) as nat, |k: int| self.buf@[k] as char));
                i = i + 1;
            }
            self.buf = Vec::new();
            EditOutcome::Submit(s)
        } else if ch == 8 {
            if self.buf.len() > 0 {
                self.buf.pop();
                EditOutcome::Erase
            } else {
                EditOutcome::Ignore
            }
        } else if ch >= 32 && self.buf.len() < MAX_LINE {
            self.buf.push(ch);
            EditOutcome::Echo(ch)
        } else {
            EditOutcome::Ignore
        }
    }
}

} // verus!
