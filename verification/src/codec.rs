//! The text codec for the persisted records.
//!
//! A record is a sequence of fields, one per line: a number is its decimal
//! digits, a flag is `0` or `1`, text is length-prefixed (`5:hello`) so it
//! may contain anything, and an absent optional field is `-`; every field
//! ends with a newline. The encoding is self-delimiting, and parsing an
//! encoded record gives back exactly the record that was written — the
//! round-trip lemmas at the end of this module prove it for every record.
//! A malformed document parses to nothing, and the caller falls back to
//! the empty or default value.

use vstd::prelude::*;
use crate::digits::dec_digits;
use crate::digits::digit_value;
use crate::digits::is_digit;
use crate::digits::lemma_dec_digits;
use crate::digits::digit_val;
use crate::digits::num_of;
use crate::digits::push_dec;

verus! {

/// The largest number the format carries (identifiers are 128-bit).
pub open spec fn max_number() -> nat {
    u128::MAX as nat
}

// --- encodings ---
/// A number field: decimal digits, newline.
pub open spec fn senc_nat(n: nat) -> Seq<char> {
    dec_digits(n) + seq!['\n']
}

/// A text field: decimal length, colon, the characters, newline.
pub open spec fn senc_text(t: Seq<char>) -> Seq<char> {
    dec_digits(t.len()) + seq![':'] + t + seq!['\n']
}

/// A flag field: `0` or `1`, newline.
pub open spec fn senc_bool(b: bool) -> Seq<char> {
    seq![if b { '1' } else { '0' }, '\n']
}

/// An optional text field: `-` for nothing, else the text field.
pub open spec fn senc_opt_text(o: Option<Seq<char>>) -> Seq<char> {
    match o {
        None => seq!['-', '\n'],
        Some(t) => senc_text(t),
    }
}

/// An optional number field: `-` for nothing, else the number field.
pub open spec fn senc_opt_nat(o: Option<u64>) -> Seq<char> {
    match o {
        None => seq!['-', '\n'],
        Some(n) => senc_nat(n as nat),
    }
}

// --- parsers ---
/// The first position at or after `pos` holding no digit (or the end).
pub open spec fn scan_digits(s: Seq<char>, pos: int) -> int
    decreases s.len() - pos,
{
    if pos < 0 || pos >= s.len() {
        pos
    } else if is_digit(s[pos]) {
        scan_digits(s, pos + 1)
    } else {
        pos
    }
}

/// Reads a number field at `pos`: at least one digit, then a newline, and
/// a value the format carries.
pub open spec fn sparse_nat(s: Seq<char>, pos: int) -> Option<(nat, int)> {
    if 0 <= pos <= s.len() {
        let e = scan_digits(s, pos);
        if e > pos && e < s.len() && s[e] == '\n' && num_of(s.subrange(pos, e)) <= max_number() {
            Some((num_of(s.subrange(pos, e)), e + 1))
        } else {
            None
        }
    } else {
        None
    }
}

/// Reads a text field at `pos`: a length, a colon, that many characters,
/// a newline.
pub open spec fn sparse_text(s: Seq<char>, pos: int) -> Option<(Seq<char>, int)> {
    if 0 <= pos <= s.len() {
        let e = scan_digits(s, pos);
        if e > pos && e < s.len() && s[e] == ':' && num_of(s.subrange(pos, e)) <= max_number() {
            let n = num_of(s.subrange(pos, e));
            if e + 1 + n < s.len() && s[e + 1 + n] == '\n' {
                Some((s.subrange(e + 1, e + 1 + n), e + 2 + n))
            } else {
                None
            }
        } else {
            None
        }
    } else {
        None
    }
}

/// Reads a flag field at `pos`.
pub open spec fn sparse_bool(s: Seq<char>, pos: int) -> Option<(bool, int)> {
    if 0 <= pos && pos + 2 <= s.len() && (s[pos] == '0' || s[pos] == '1') && s[pos + 1] == '\n' {
        Some((s[pos] == '1', pos + 2))
    } else {
        None
    }
}

/// Reads an optional text field at `pos`.
pub open spec fn sparse_opt_text(s: Seq<char>, pos: int) -> Option<(Option<Seq<char>>, int)> {
    if 0 <= pos && pos < s.len() && s[pos] == '-' {
        if pos + 2 <= s.len() && s[pos + 1] == '\n' {
            Some((None, pos + 2))
        } else {
            None
        }
    } else {
        match sparse_text(s, pos) {
            Some((t, e)) => Some((Some(t), e)),
            None => None,
        }
    }
}

/// Reads an optional number field at `pos`; the number must fit a `u64`.
pub open spec fn sparse_opt_nat(s: Seq<char>, pos: int) -> Option<(Option<u64>, int)> {
    if 0 <= pos && pos < s.len() && s[pos] == '-' {
        if pos + 2 <= s.len() && s[pos + 1] == '\n' {
            Some((None, pos + 2))
        } else {
            None
        }
    } else {
        match sparse_nat(s, pos) {
            Some((n, e)) => if n <= u64::MAX {
                Some((Some(n as u64), e))
            } else {
                None
            },
            None => None,
        }
    }
}

// --- round-trip lemmas for the primitives ---
/// A run of `k` digits followed by a non-digit scans to its end.
proof fn lemma_scan_digits_at(s: Seq<char>, pos: int, k: int)
    requires
        0 <= pos,
        0 <= k,
        pos + k <= s.len(),
        forall|m: int| pos <= m < pos + k ==> is_digit(#[trigger] s[m]),
        pos + k == s.len() || !is_digit(s[pos + k]),
    ensures
        scan_digits(s, pos) == pos + k,
    decreases k,
{
    if k > 0 {
        lemma_scan_digits_at(s, pos + 1, k - 1);
    }
}

/// Parsing a number field it just wrote gives the number back.
pub proof fn lemma_rt_nat(s: Seq<char>, pos: int, n: nat)
    requires
        n <= max_number(),
        0 <= pos,
        pos + senc_nat(n).len() <= s.len(),
        s.subrange(pos, pos + senc_nat(n).len()) == senc_nat(n),
    ensures
        sparse_nat(s, pos) == Some((n, pos + senc_nat(n).len())),
{
    lemma_dec_digits(n);
    let d = dec_digits(n).len() as int;
    assert forall|m: int| pos <= m < pos + d implies is_digit(#[trigger] s[m]) by {
        assert(s[m] == senc_nat(n)[m - pos]);
        assert(senc_nat(n)[m - pos] == dec_digits(n)[m - pos]);
    }
    assert(s[pos + d] == senc_nat(n)[d]);
    assert(s[pos + d] == '\n');
    lemma_scan_digits_at(s, pos, d);
    assert(s.subrange(pos, pos + d) =~= dec_digits(n));
}

/// Parsing a text field it just wrote gives the text back.
pub proof fn lemma_rt_text(s: Seq<char>, pos: int, t: Seq<char>)
    requires
        t.len() <= max_number(),
        0 <= pos,
        pos + senc_text(t).len() <= s.len(),
        s.subrange(pos, pos + senc_text(t).len()) == senc_text(t),
    ensures
        sparse_text(s, pos) == Some((t, pos + senc_text(t).len())),
{
    lemma_dec_digits(t.len());
    let d = dec_digits(t.len()).len() as int;
    let n = t.len() as int;
    assert forall|m: int| pos <= m < pos + d implies is_digit(#[trigger] s[m]) by {
        assert(s[m] == senc_text(t)[m - pos]);
        assert(senc_text(t)[m - pos] == dec_digits(t.len())[m - pos]);
    }
    assert(s[pos + d] == senc_text(t)[d]);
    assert(s[pos + d] == ':');
    lemma_scan_digits_at(s, pos, d);
    assert(s.subrange(pos, pos + d) =~= dec_digits(t.len()));
    assert(s[pos + d + 1 + n] == senc_text(t)[d + 1 + n]);
    assert(s[pos + d + 1 + n] == '\n');
    assert(s.subrange(pos + d + 1, pos + d + 1 + n) =~= t) by {
        assert forall|m: int| 0 <= m < n implies s.subrange(pos + d + 1, pos + d + 1 + n)[m]
            == t[m] by {
            assert(s[pos + d + 1 + m] == senc_text(t)[d + 1 + m]);
        }
    }
}

/// Parsing a flag field it just wrote gives the flag back.
pub proof fn lemma_rt_bool(s: Seq<char>, pos: int, b: bool)
    requires
        0 <= pos,
        pos + 2 <= s.len(),
        s.subrange(pos, pos + 2) == senc_bool(b),
    ensures
        sparse_bool(s, pos) == Some((b, pos + 2)),
{
    assert(s[pos] == senc_bool(b)[0]);
    assert(s[pos + 1] == senc_bool(b)[1]);
}

/// Parsing an optional text field it just wrote gives the option back.
pub proof fn lemma_rt_opt_text(s: Seq<char>, pos: int, o: Option<Seq<char>>)
    requires
        o matches Some(t) ==> t.len() <= max_number(),
        0 <= pos,
        pos + senc_opt_text(o).len() <= s.len(),
        s.subrange(pos, pos + senc_opt_text(o).len()) == senc_opt_text(o),
    ensures
        sparse_opt_text(s, pos) == Some((o, pos + senc_opt_text(o).len())),
{
    match o {
        None => {
            assert(s[pos] == senc_opt_text(o)[0]);
            assert(s[pos + 1] == senc_opt_text(o)[1]);
        },
        Some(t) => {
            lemma_dec_digits(t.len());
            assert(s[pos] == senc_text(t)[0]);
            assert(senc_text(t)[0] == dec_digits(t.len())[0]);
            assert(is_digit(s[pos]));
            assert(s[pos] != '-');
            lemma_rt_text(s, pos, t);
        },
    }
}

/// Parsing an optional number field it just wrote gives the option back.
pub proof fn lemma_rt_opt_nat(s: Seq<char>, pos: int, o: Option<u64>)
    requires
        0 <= pos,
        pos + senc_opt_nat(o).len() <= s.len(),
        s.subrange(pos, pos + senc_opt_nat(o).len()) == senc_opt_nat(o),
    ensures
        sparse_opt_nat(s, pos) == Some((o, pos + senc_opt_nat(o).len())),
{
    match o {
        None => {
            assert(s[pos] == senc_opt_nat(o)[0]);
            assert(s[pos + 1] == senc_opt_nat(o)[1]);
        },
        Some(n) => {
            lemma_dec_digits(n as nat);
            assert(s[pos] == senc_nat(n as nat)[0]);
            assert(senc_nat(n as nat)[0] == dec_digits(n as nat)[0]);
            assert(is_digit(s[pos]));
            assert(s[pos] != '-');
            lemma_rt_nat(s, pos, n as nat);
        },
    }
}

// --- executable writers ---
/// Appends a number field.
pub fn push_nat(n: u128, out: &mut Vec<char>)
    ensures
        final(out)@ == old(out)@ + senc_nat(n as nat),
{
    push_dec(n, out);
    out.push('\n');
    proof {
        assert(final(out)@ =~= old(out)@ + senc_nat(n as nat));
    }
}

/// Appends a text field.
pub fn push_text(t: &str, out: &mut Vec<char>)
    ensures
        final(out)@ == old(out)@ + senc_text(t@),
{
    let cs = crate::text::str_to_chars(t);
    let len = cs.len();
    push_dec(len as u128, out);
    out.push(':');
    let mut i: usize = 0;
    proof {
        assert(out@ =~= old(out)@ + dec_digits(t@.len()) + seq![':'] + cs@.take(0));
    }
    let ghost base = old(out)@ + dec_digits(t@.len()) + seq![':'];
    while i < len
        invariant
            i <= len,
            len == cs@.len(),
            cs@ == t@,
            out@ == base + cs@.take(i as int),
        decreases len - i,
    {
        out.push(cs[i]);
        proof {
            assert(out@ =~= base + cs@.take(i as int + 1));
        }
        i = i + 1;
    }
    out.push('\n');
    proof {
        assert(cs@.take(len as int) =~= cs@);
        assert(final(out)@ =~= old(out)@ + senc_text(t@));
    }
}

/// Appends a flag field.
pub fn push_bool(b: bool, out: &mut Vec<char>)
    ensures
        final(out)@ == old(out)@ + senc_bool(b),
{
    if b {
        out.push('1');
    } else {
        out.push('0');
    }
    out.push('\n');
    proof {
        assert(final(out)@ =~= old(out)@ + senc_bool(b));
    }
}

/// Appends an optional text field.
pub fn push_opt_text(t: &Option<String>, out: &mut Vec<char>)
    ensures
        final(out)@ == old(out)@ + senc_opt_text(match *t {
            Some(ref x) => Some(x@),
            None => None,
        }),
{
    match t {
        None => {
            out.push('-');
            out.push('\n');
            proof {
                assert(final(out)@ =~= old(out)@ + seq!['-', '\n']);
            }
        },
        Some(x) => {
            push_text(x.as_str(), out);
        },
    }
}

/// Appends an optional number field.
pub fn push_opt_nat(n: &Option<u64>, out: &mut Vec<char>)
    ensures
        final(out)@ == old(out)@ + senc_opt_nat(*n),
{
    match n {
        None => {
            out.push('-');
            out.push('\n');
            proof {
                assert(final(out)@ =~= old(out)@ + seq!['-', '\n']);
            }
        },
        Some(x) => {
            push_nat(*x as u128, out);
        },
    }
}

// --- executable readers ---
/// Reads a number field, per `sparse_nat`.
pub fn parse_nat(s: &Vec<char>, pos: usize) -> (r: Option<(u128, usize)>)
    requires
        pos <= s@.len(),
    ensures
        match sparse_nat(s@, pos as int) {
            Some((n, e)) => r matches Some(p) && p.0 == n && p.1 == e,
            None => r is None,
        },
{
    let len = s.len();
    let mut i: usize = pos;
    let mut acc: u128 = 0;
    let mut overflow = false;
    while i < len && digit_value(s[i]) < 10
        invariant
            pos <= i <= len,
            len == s@.len(),
            scan_digits(s@, pos as int) == scan_digits(s@, i as int),
            forall|m: int| pos <= m < i ==> is_digit(#[trigger] s@[m]),
            !overflow ==> acc == num_of(s@.subrange(pos as int, i as int)),
            overflow ==> num_of(s@.subrange(pos as int, i as int)) > max_number(),
        decreases len - i,
    {
        let d = digit_value(s[i]);
        proof {
            assert(s@.subrange(pos as int, i as int + 1).drop_last() =~= s@.subrange(
                pos as int,
                i as int,
            ));
        }
        if !overflow {
            if acc > (u128::MAX - d as u128) / 10 {
                overflow = true;
            } else {
                acc = acc * 10 + d as u128;
            }
        }
        proof {
            let prev = num_of(s@.subrange(pos as int, i as int));
            let cur = num_of(s@.subrange(pos as int, i as int + 1));
            assert(cur == prev * 10 + digit_val(s@[i as int]));
            if !overflow {
                assert(acc == cur) by (nonlinear_arith)
                    requires
                        acc == prev * 10 + digit_val(s@[i as int]),
                        cur == prev * 10 + digit_val(s@[i as int]),
                ;
            }
        }
        i = i + 1;
    }
    proof {
        assert(scan_digits(s@, i as int) == i);
        assert(scan_digits(s@, pos as int) == i);
    }
    if i == pos {
        return None;
    }
    if i >= len {
        return None;
    }
    if s[i] != '\n' {
        return None;
    }
    if overflow {
        return None;
    }
    Some((acc, i + 1))
}

/// Reads a text field, per `sparse_text`.
pub fn parse_text(s: &Vec<char>, pos: usize) -> (r: Option<(String, usize)>)
    requires
        pos <= s@.len(),
    ensures
        match sparse_text(s@, pos as int) {
            Some((t, e)) => r matches Some(p) && p.0@ == t && p.1 == e,
            None => r is None,
        },
{
    let len = s.len();
    let mut i: usize = pos;
    let mut acc: u128 = 0;
    let mut overflow = false;
    while i < len && digit_value(s[i]) < 10
        invariant
            pos <= i <= len,
            len == s@.len(),
            scan_digits(s@, pos as int) == scan_digits(s@, i as int),
            forall|m: int| pos <= m < i ==> is_digit(#[trigger] s@[m]),
            !overflow ==> acc == num_of(s@.subrange(pos as int, i as int)),
            overflow ==> num_of(s@.subrange(pos as int, i as int)) > max_number(),
        decreases len - i,
    {
        let d = digit_value(s[i]);
        proof {
            assert(s@.subrange(pos as int, i as int + 1).drop_last() =~= s@.subrange(
                pos as int,
                i as int,
            ));
        }
        if !overflow {
            if acc > (u128::MAX - d as u128) / 10 {
                overflow = true;
            } else {
                acc = acc * 10 + d as u128;
            }
        }
        proof {
            let prev = num_of(s@.subrange(pos as int, i as int));
            let cur = num_of(s@.subrange(pos as int, i as int + 1));
            assert(cur == prev * 10 + digit_val(s@[i as int]));
            if !overflow {
                assert(acc == cur) by (nonlinear_arith)
                    requires
                        acc == prev * 10 + digit_val(s@[i as int]),
                        cur == prev * 10 + digit_val(s@[i as int]),
                ;
            }
        }
        i = i + 1;
    }
    proof {
        assert(scan_digits(s@, i as int) == i);
        assert(scan_digits(s@, pos as int) == i);
    }
    if i == pos || i >= len || s[i] != ':' || overflow {
        return None;
    }
    // The text spans (i+1 .. i+1+acc); it must fit before the newline.
    if acc > (len - (i + 1)) as u128 {
        return None;
    }
    let n = acc as usize;
    if i + 1 + n >= len {
        return None;
    }
    if s[i + 1 + n] != '\n' {
        return None;
    }
    let mut t: Vec<char> = Vec::new();
    let mut j: usize = 0;
    while j < n
        invariant
            j <= n,
            len == s@.len(),
            i + 1 + n < len,
            t@ == s@.subrange(i as int + 1, i as int + 1 + j as int),
        decreases n - j,
    {
        t.push(s[i + 1 + j]);
        proof {
            assert(t@ =~= s@.subrange(i as int + 1, i as int + 1 + j as int + 1));
        }
        j = j + 1;
    }
    Some((crate::text::chars_to_string(&t), i + 2 + n))
}

/// Reads a flag field, per `sparse_bool`.
pub fn parse_bool(s: &Vec<char>, pos: usize) -> (r: Option<(bool, usize)>)
    requires
        pos <= s@.len(),
    ensures
        match sparse_bool(s@, pos as int) {
            Some((b, e)) => r matches Some(p) && p.0 == b && p.1 == e,
            None => r is None,
        },
{
    if pos >= s.len() || pos + 1 >= s.len() {
        return None;
    }
    let c = s[pos];
    if (c == '0' || c == '1') && s[pos + 1] == '\n' {
        Some((c == '1', pos + 2))
    } else {
        None
    }
}

/// Reads an optional text field, per `sparse_opt_text`.
pub fn parse_opt_text(s: &Vec<char>, pos: usize) -> (r: Option<(Option<String>, usize)>)
    requires
        pos <= s@.len(),
    ensures
        match sparse_opt_text(s@, pos as int) {
            Some((o, e)) => r matches Some(p) && p.1 == e && (match (p.0, o) {
                (Some(x), Some(t)) => x@ == t,
                (None, None) => true,
                _ => false,
            }),
            None => r is None,
        },
{
    if pos < s.len() && s[pos] == '-' {
        if pos + 1 < s.len() && s[pos + 1] == '\n' {
            Some((None, pos + 2))
        } else {
            None
        }
    } else {
        match parse_text(s, pos) {
            Some((t, e)) => Some((Some(t), e)),
            None => None,
        }
    }
}

/// Reads an optional number field, per `sparse_opt_nat`.
pub fn parse_opt_nat(s: &Vec<char>, pos: usize) -> (r: Option<(Option<u64>, usize)>)
    requires
        pos <= s@.len(),
    ensures
        match sparse_opt_nat(s@, pos as int) {
            Some((o, e)) => r matches Some(p) && p.0 == o && p.1 == e,
            None => r is None,
        },
{
    if pos < s.len() && s[pos] == '-' {
        if pos + 1 < s.len() && s[pos + 1] == '\n' {
            Some((None, pos + 2))
        } else {
            None
        }
    } else {
        match parse_nat(s, pos) {
            Some((n, e)) => if n <= u64::MAX as u128 {
                Some((Some(n as u64), e))
            } else {
                None
            },
            None => None,
        }
    }
}

} // verus!

// === session history record ===

verus! {

use crate::history::HistoryV;
use crate::history::Session;
use crate::history::SessionHistory;
use crate::history::SessionV;
use crate::timer::TimerState;

/// The number a Pomodoro phase is stored as.
pub open spec fn state_code(st: TimerState) -> nat {
    match st {
        TimerState::Work => 0,
        TimerState::ShortBreak => 1,
        TimerState::LongBreak => 2,
    }
}

/// A session: identifier, timestamp, phase code, duration, completion
/// flag, optional task name, optional note.
pub open spec fn senc_session(v: SessionV) -> Seq<char> {
    senc_nat(v.id as nat) + (senc_nat(v.timestamp_ms as nat) + (senc_nat(
        state_code(v.session_type),
    ) + (senc_nat(v.duration_secs as nat) + (senc_bool(v.completed) + (senc_opt_text(v.task_name)
        + senc_opt_text(v.note))))))
}

/// Reads a session at `pos`.
pub open spec fn sparse_session(s: Seq<char>, pos: int) -> Option<(SessionV, int)> {
    if sparse_nat(s, pos) is None {
        None
    } else {
        let (id, p1) = sparse_nat(s, pos)->0;
        if sparse_nat(s, p1) is None {
            None
        } else {
            let (ts, p2) = sparse_nat(s, p1)->0;
            if ts > u64::MAX || sparse_nat(s, p2) is None {
                None
            } else {
                let (code, p3) = sparse_nat(s, p2)->0;
                if code > 2 || sparse_nat(s, p3) is None {
                    None
                } else {
                    let (dur, p4) = sparse_nat(s, p3)->0;
                    if dur > u64::MAX || sparse_bool(s, p4) is None {
                        None
                    } else {
                        let (completed, p5) = sparse_bool(s, p4)->0;
                        if sparse_opt_text(s, p5) is None {
                            None
                        } else {
                            let (task_name, p6) = sparse_opt_text(s, p5)->0;
                            if sparse_opt_text(s, p6) is None {
                                None
                            } else {
                                let (note, p7) = sparse_opt_text(s, p6)->0;
                                Some(
                                    (
                                        SessionV {
                                            id: id as u128,
                                            timestamp_ms: ts as u64,
                                            session_type: if code == 0 {
                                                TimerState::Work
                                            } else if code == 1 {
                                                TimerState::ShortBreak
                                            } else {
                                                TimerState::LongBreak
                                            },
                                            duration_secs: dur as u64,
                                            completed,
                                            task_name,
                                            note,
                                        },
                                        p7,
                                    ),
                                )
                            }
                        }
                    }
                }
            }
        }
    }
}

/// A chunk of an encoding placed inside a larger sequence keeps its place:
/// if `whole` sits at `pos` in `s` and `a` sits at `off` in `whole`, then
/// `a` sits at `pos + off` in `s`.
proof fn lemma_chunk(s: Seq<char>, pos: int, whole: Seq<char>, a: Seq<char>, off: int)
    requires
        0 <= pos,
        pos + whole.len() <= s.len(),
        s.subrange(pos, pos + whole.len()) == whole,
        0 <= off,
        off + a.len() <= whole.len(),
        whole.subrange(off, off + a.len()) == a,
    ensures
        s.subrange(pos + off, pos + off + a.len()) == a,
{
    assert forall|m: int| 0 <= m < a.len() implies s.subrange(pos + off, pos + off + a.len())[m]
        == a[m] by {
        assert(whole[off + m] == s.subrange(pos, pos + whole.len())[off + m]);
        assert(whole.subrange(off, off + a.len())[m] == whole[off + m]);
    }
    assert(s.subrange(pos + off, pos + off + a.len()) =~= a);
}

/// The record's texts fit the format's number range (every text that
/// ever came from a real string does).
pub open spec fn bounded_session(v: SessionV) -> bool {
    &&& (v.task_name matches Some(t) ==> t.len() <= max_number())
    &&& (v.note matches Some(t) ==> t.len() <= max_number())
}

/// Concatenation is associative.
proof fn lemma_assoc(a: Seq<char>, b: Seq<char>, c: Seq<char>)
    ensures
        (a + b) + c == a + (b + c),
{
    assert((a + b) + c =~= a + (b + c));
}

/// Peels the first field off a remainder that sits at `p` in `s`: the
/// field sits at `p`, and the rest right after it.
proof fn lemma_peel(s: Seq<char>, p: int, rest: Seq<char>, e: Seq<char>, tail: Seq<char>)
    requires
        rest == e + tail,
        0 <= p,
        p + rest.len() <= s.len(),
        s.subrange(p, p + rest.len()) == rest,
    ensures
        s.subrange(p, p + e.len()) == e,
        s.subrange(p + e.len(), p + e.len() + tail.len()) == tail,
{
    assert(rest.subrange(0, e.len() as int) =~= e);
    assert(rest.subrange(e.len() as int, rest.len() as int) =~= tail);
    lemma_chunk(s, p, rest, e, 0);
    lemma_chunk(s, p, rest, tail, e.len() as int);
}

/// Parsing a session it just wrote gives the session back.
#[verifier::rlimit(100)]
#[verifier::spinoff_prover]
pub proof fn lemma_rt_session(s: Seq<char>, pos: int, v: SessionV)
    requires
        bounded_session(v),
        0 <= pos,
        pos + senc_session(v).len() <= s.len(),
        s.subrange(pos, pos + senc_session(v).len()) == senc_session(v),
    ensures
        sparse_session(s, pos) == Some((v, pos + senc_session(v).len())),
{
    let e0 = senc_nat(v.id as nat);
    let e1 = senc_nat(v.timestamp_ms as nat);
    let e2 = senc_nat(state_code(v.session_type));
    let e3 = senc_nat(v.duration_secs as nat);
    let e4 = senc_bool(v.completed);
    let e5 = senc_opt_text(v.task_name);
    let e6 = senc_opt_text(v.note);
    let r6 = e6;
    let r5 = e5 + r6;
    let r4 = e4 + r5;
    let r3 = e3 + r4;
    let r2 = e2 + r3;
    let r1 = e1 + r2;
    let r0 = e0 + r1;
    assert(senc_session(v) == r0);
    let p0 = pos;
    lemma_peel(s, p0, r0, e0, r1);
    lemma_rt_nat(s, p0, v.id as nat);
    let p1 = p0 + e0.len();
    lemma_peel(s, p1, r1, e1, r2);
    lemma_rt_nat(s, p1, v.timestamp_ms as nat);
    let p2 = p1 + e1.len();
    lemma_peel(s, p2, r2, e2, r3);
    lemma_rt_nat(s, p2, state_code(v.session_type));
    let p3 = p2 + e2.len();
    lemma_peel(s, p3, r3, e3, r4);
    lemma_rt_nat(s, p3, v.duration_secs as nat);
    let p4 = p3 + e3.len();
    lemma_peel(s, p4, r4, e4, r5);
    lemma_rt_bool(s, p4, v.completed);
    let p5 = p4 + e4.len();
    lemma_peel(s, p5, r5, e5, r6);
    lemma_rt_opt_text(s, p5, v.task_name);
    let p6 = p5 + e5.len();
    lemma_rt_opt_text(s, p6, v.note);
}

} // verus!

// === session lists and the whole history document ===

verus! {

/// The sessions, one after another.
pub open spec fn senc_sessions(vs: Seq<SessionV>) -> Seq<char>
    decreases vs.len(),
{
    if vs.len() == 0 {
        Seq::empty()
    } else {
        senc_session(vs[0]) + senc_sessions(vs.drop_first())
    }
}

/// Reads `count` sessions starting at `pos`.
pub open spec fn sparse_sessions(s: Seq<char>, pos: int, count: nat) -> Option<(Seq<SessionV>, int)>
    decreases count,
{
    if count == 0 {
        Some((Seq::empty(), pos))
    } else if sparse_session(s, pos) is None {
        None
    } else {
        let (v, p) = sparse_session(s, pos)->0;
        if sparse_sessions(s, p, (count - 1) as nat) is None {
            None
        } else {
            let (vs, e) = sparse_sessions(s, p, (count - 1) as nat)->0;
            Some((seq![v] + vs, e))
        }
    }
}

/// Every session of the list is bounded.
pub open spec fn bounded_sessions(vs: Seq<SessionV>) -> bool {
    forall|i: int| 0 <= i < vs.len() ==> bounded_session(#[trigger] vs[i])
}

/// Appending one more session extends the encoding.
proof fn lemma_senc_sessions_snoc(vs: Seq<SessionV>, v: SessionV)
    ensures
        senc_sessions(vs.push(v)) == senc_sessions(vs) + senc_session(v),
    decreases vs.len(),
{
    if vs.len() == 0 {
        assert(vs.push(v)[0] == v);
        assert(vs.push(v).drop_first() =~= Seq::<SessionV>::empty());
        assert(senc_sessions(Seq::<SessionV>::empty()) =~= Seq::<char>::empty());
        assert(senc_sessions(vs.push(v)) == senc_session(vs.push(v)[0]) + senc_sessions(
            vs.push(v).drop_first(),
        ));
        assert(senc_sessions(vs.push(v)) =~= senc_session(v) + Seq::<char>::empty());
        assert(senc_session(v) + Seq::<char>::empty() =~= senc_session(v));
        assert(senc_sessions(vs) + senc_session(v) =~= senc_session(v));
    } else {
        assert(vs.push(v)[0] == vs[0]);
        assert(vs.push(v).drop_first() =~= vs.drop_first().push(v));
        lemma_senc_sessions_snoc(vs.drop_first(), v);
        assert(senc_sessions(vs.push(v)) == senc_session(vs[0]) + (senc_sessions(vs.drop_first())
            + senc_session(v)));
        assert(senc_session(vs[0]) + (senc_sessions(vs.drop_first()) + senc_session(v)) =~= (
        senc_session(vs[0]) + senc_sessions(vs.drop_first())) + senc_session(v));
    }
}

/// Parsing a session list it just wrote gives the list back.
proof fn lemma_rt_sessions(s: Seq<char>, pos: int, vs: Seq<SessionV>)
    requires
        bounded_sessions(vs),
        0 <= pos,
        pos + senc_sessions(vs).len() <= s.len(),
        s.subrange(pos, pos + senc_sessions(vs).len()) == senc_sessions(vs),
    ensures
        sparse_sessions(s, pos, vs.len()) == Some((vs, pos + senc_sessions(vs).len())),
    decreases vs.len(),
{
    if vs.len() == 0 {
        assert(sparse_sessions(s, pos, 0) == Some((Seq::<SessionV>::empty(), pos)));
        assert(vs =~= Seq::<SessionV>::empty());
    } else {
        let whole = senc_sessions(vs);
        let e0 = senc_session(vs[0]);
        let rest = senc_sessions(vs.drop_first());
        assert(whole == e0 + rest);
        assert(whole.subrange(0, e0.len() as int) =~= e0);
        assert(whole.subrange(e0.len() as int, whole.len() as int) =~= rest);
        lemma_chunk(s, pos, whole, e0, 0);
        lemma_chunk(s, pos, whole, rest, e0.len() as int);
        lemma_rt_session(s, pos, vs[0]);
        assert(bounded_sessions(vs.drop_first())) by {
            assert(forall|i: int|
                0 <= i < vs.drop_first().len() ==> #[trigger] vs.drop_first()[i] == vs[i + 1]);
        }
        lemma_rt_sessions(s, pos + e0.len(), vs.drop_first());
        assert(seq![vs[0]] + vs.drop_first() =~= vs);
    }
}

/// The whole history document: session count, the sessions, the two
/// streak counters, the last Work day.
pub open spec fn senc_history(h: HistoryV) -> Seq<char> {
    senc_nat(h.sessions.len()) + senc_sessions(h.sessions) + senc_nat(h.current_streak as nat)
        + senc_nat(h.longest_streak as nat) + senc_opt_nat(h.last_session_date)
}

/// Reads a whole history document (nothing may follow it).
pub open spec fn sparse_history(s: Seq<char>) -> Option<HistoryV> {
    if sparse_nat(s, 0) is None {
        None
    } else {
        let (count, p1) = sparse_nat(s, 0)->0;
        if sparse_sessions(s, p1, count) is None {
            None
        } else {
            let (vs, p2) = sparse_sessions(s, p1, count)->0;
            if sparse_nat(s, p2) is None {
                None
            } else {
                let (cur, p3) = sparse_nat(s, p2)->0;
                if cur > u32::MAX || sparse_nat(s, p3) is None {
                    None
                } else {
                    let (longest, p4) = sparse_nat(s, p3)->0;
                    if longest > u32::MAX || sparse_opt_nat(s, p4) is None {
                        None
                    } else {
                        let (last, p5) = sparse_opt_nat(s, p4)->0;
                        if p5 == s.len() {
                            Some(
                                HistoryV {
                                    sessions: vs,
                                    current_streak: cur as u32,
                                    longest_streak: longest as u32,
                                    last_session_date: last,
                                },
                            )
                        } else {
                            None
                        }
                    }
                }
            }
        }
    }
}

/// A history record whose texts and session count fit the format (every
/// record held in memory does).
pub open spec fn bounded_history(h: HistoryV) -> bool {
    &&& h.sessions.len() <= max_number()
    &&& bounded_sessions(h.sessions)
}

/// Round trip: a history document, written and read back, is the record
/// it came from — for every record, not only those observed in tests.
#[verifier::rlimit(100)]
#[verifier::spinoff_prover]
pub proof fn lemma_history_round_trip(h: HistoryV)
    requires
        bounded_history(h),
    ensures
        sparse_history(senc_history(h)) == Some(h),
{
    let s = senc_history(h);
    let e0 = senc_nat(h.sessions.len());
    let e1 = senc_sessions(h.sessions);
    let e2 = senc_nat(h.current_streak as nat);
    let e3 = senc_nat(h.longest_streak as nat);
    let e4 = senc_opt_nat(h.last_session_date);
    let o0 = 0int;
    let o1 = o0 + e0.len();
    let o2 = o1 + e1.len();
    let o3 = o2 + e2.len();
    let o4 = o3 + e3.len();
    let o5 = o4 + e4.len();
    assert(s.len() == o5);
    assert(s.subrange(0, s.len() as int) =~= s);
    assert(s.subrange(o0, o1) =~= e0);
    assert(s.subrange(o1, o2) =~= e1);
    assert(s.subrange(o2, o3) =~= e2);
    assert(s.subrange(o3, o4) =~= e3);
    assert(s.subrange(o4, o5) =~= e4);
    lemma_rt_nat(s, o0, h.sessions.len());
    lemma_rt_sessions(s, o1, h.sessions);
    lemma_rt_nat(s, o2, h.current_streak as nat);
    lemma_rt_nat(s, o3, h.longest_streak as nat);
    lemma_rt_opt_nat(s, o4, h.last_session_date);
}

// === executable history codec ===
/// Appends one session.
fn encode_session(sess: &Session, out: &mut Vec<char>)
    ensures
        final(out)@ == old(out)@ + senc_session(sess@),
{
    push_nat(sess.id, out);
    push_nat(sess.timestamp_ms as u128, out);
    let code: u128 = match sess.session_type {
        TimerState::Work => 0,
        TimerState::ShortBreak => 1,
        TimerState::LongBreak => 2,
    };
    push_nat(code, out);
    push_nat(sess.duration_secs as u128, out);
    push_bool(sess.completed, out);
    push_opt_text(&sess.task_name, out);
    push_opt_text(&sess.note, out);
    proof {
        let b = old(out)@;
        let e0 = senc_nat(sess@.id as nat);
        let e1 = senc_nat(sess@.timestamp_ms as nat);
        let e2 = senc_nat(state_code(sess@.session_type));
        let e3 = senc_nat(sess@.duration_secs as nat);
        let e4 = senc_bool(sess@.completed);
        let e5 = senc_opt_text(sess@.task_name);
        let e6 = senc_opt_text(sess@.note);
        let l0 = b + e0;
        let l1 = l0 + e1;
        let l2 = l1 + e2;
        let l3 = l2 + e3;
        let l4 = l3 + e4;
        let l5 = l4 + e5;
        let l6 = l5 + e6;
        assert(out@ == l6);
        let r6 = e6;
        let r5 = e5 + r6;
        let r4 = e4 + r5;
        let r3 = e3 + r4;
        let r2 = e2 + r3;
        let r1 = e1 + r2;
        let r0 = e0 + r1;
        lemma_assoc(l4, e5, e6);
        assert(l6 == l4 + r5);
        lemma_assoc(l3, e4, r5);
        assert(l6 == l3 + r4);
        lemma_assoc(l2, e3, r4);
        assert(l6 == l2 + r3);
        lemma_assoc(l1, e2, r3);
        assert(l6 == l1 + r2);
        lemma_assoc(l0, e1, r2);
        assert(l6 == l0 + r1);
        lemma_assoc(b, e0, r1);
        assert(l6 == b + r0);
        assert(out@ == old(out)@ + senc_session(sess@));
    }
}

/// Writes a history record as a document.
pub fn encode_history(h: &SessionHistory) -> (r: Vec<char>)
    ensures
        r@ == senc_history(h@),
{
    let mut out: Vec<char> = Vec::new();
    let len = h.sessions.len();
    push_nat(len as u128, &mut out);
    let mut i: usize = 0;
    while i < len
        invariant
            i <= len,
            len == h.sessions@.len(),
            out@ == senc_nat(len as nat) + senc_sessions(
                h.sessions@.map_values(|s: Session| s@).take(i as int),
            ),
        decreases len - i,
    {
        proof {
            let vs = h.sessions@.map_values(|s: Session| s@);
            lemma_senc_sessions_snoc(vs.take(i as int), vs[i as int]);
            assert(vs.take(i as int).push(vs[i as int]) =~= vs.take(i as int + 1));
        }
        encode_session(&h.sessions[i], &mut out);
        i = i + 1;
    }
    proof {
        let vs = h.sessions@.map_values(|s: Session| s@);
        assert(vs.take(len as int) =~= vs);
    }
    push_nat(h.current_streak as u128, &mut out);
    push_nat(h.longest_streak as u128, &mut out);
    push_opt_nat(&h.last_session_date, &mut out);
    proof {
        assert(out@ =~= senc_history(h@));
    }
    out
}

/// Reads one session, per `sparse_session`.
fn parse_session(s: &Vec<char>, pos: usize) -> (r: Option<(Session, usize)>)
    requires
        pos <= s@.len(),
    ensures
        match sparse_session(s@, pos as int) {
            Some((v, e)) => r matches Some(p) && p.0@ == v && p.1 == e && e <= s@.len(),
            None => r is None,
        },
{
    let r1 = match parse_nat(s, pos) {
        None => {
            return None;
        },
        Some(x) => x,
    };
    let id = r1.0;
    let r2 = match parse_nat(s, r1.1) {
        None => {
            return None;
        },
        Some(x) => x,
    };
    if r2.0 > u64::MAX as u128 {
        return None;
    }
    let ts = r2.0 as u64;
    let r3 = match parse_nat(s, r2.1) {
        None => {
            return None;
        },
        Some(x) => x,
    };
    if r3.0 > 2 {
        return None;
    }
    let st = if r3.0 == 0 {
        TimerState::Work
    } else if r3.0 == 1 {
        TimerState::ShortBreak
    } else {
        TimerState::LongBreak
    };
    let r4 = match parse_nat(s, r3.1) {
        None => {
            return None;
        },
        Some(x) => x,
    };
    if r4.0 > u64::MAX as u128 {
        return None;
    }
    let dur = r4.0 as u64;
    let r5 = match parse_bool(s, r4.1) {
        None => {
            return None;
        },
        Some(x) => x,
    };
    let r6 = match parse_opt_text(s, r5.1) {
        None => {
            return None;
        },
        Some(x) => x,
    };
    let r7 = match parse_opt_text(s, r6.1) {
        None => {
            return None;
        },
        Some(x) => x,
    };
    Some(
        (
            Session {
                id,
                timestamp_ms: ts,
                session_type: st,
                duration_secs: dur,
                completed: r5.0,
                task_name: r6.0,
                note: r7.0,
            },
            r7.1,
        ),
    )
}

/// Reads a whole history document, per `sparse_history`; anything
/// malformed gives nothing, and the caller falls back to the default.
pub fn parse_history(s: &Vec<char>) -> (r: Option<SessionHistory>)
    ensures
        match sparse_history(s@) {
            Some(v) => r matches Some(h) && h@ == v,
            None => r is None,
        },
{
    let r1 = match parse_nat(s, 0) {
        None => {
            proof {
                assert(sparse_history(s@) is None);
            }
            return None;
        },
        Some(x) => x,
    };
    let count = r1.0;
    let mut pos = r1.1;
    let mut sessions: Vec<Session> = Vec::new();
    let mut k: u128 = 0;
    while k < count
        invariant
            k <= count,
            pos <= s@.len(),
            sessions@.len() == k,
            sparse_nat(s@, 0) == Some((count as nat, r1.1 as int)),
            sparse_sessions(s@, r1.1 as int, count as nat) == (match sparse_sessions(
                s@,
                pos as int,
                (count - k) as nat,
            ) {
                None => None::<(Seq<SessionV>, int)>,
                Some((vs, e)) => Some((sessions@.map_values(|x: Session| x@) + vs, e)),
            }),
        decreases count - k,
    {
        let step = match parse_session(s, pos) {
            None => {
                proof {
                    assert(sparse_sessions(s@, pos as int, (count - k) as nat) is None);
                    assert(sparse_sessions(s@, r1.1 as int, count as nat) is None);
                    assert(sparse_history(s@) is None);
                }
                return None;
            },
            Some(x) => x,
        };
        proof {
            let vs_now = sessions@.map_values(|x: Session| x@);
            let v = (sparse_session(s@, pos as int)->0).0;
            assert(sessions@.push(step.0).map_values(|x: Session| x@) =~= vs_now.push(step.0@));
            assert(vs_now.push(step.0@) =~= vs_now + seq![v]);
            assert forall|vs: Seq<SessionV>| true implies (vs_now + (seq![v] + vs)) =~= ((vs_now
                + seq![v]) + vs) by {}
        }
        sessions.push(step.0);
        pos = step.1;
        k = k + 1;
    }
    proof {
        assert(sparse_sessions(s@, pos as int, 0) == Some((Seq::<SessionV>::empty(), pos as int)));
        assert(sessions@.map_values(|x: Session| x@) + Seq::<SessionV>::empty() =~= sessions@.map_values(
            |x: Session| x@,
        ));
    }
    let r2 = match parse_nat(s, pos) {
        None => {
            proof {
                assert(sparse_history(s@) is None);
            }
            return None;
        },
        Some(x) => x,
    };
    if r2.0 > u32::MAX as u128 {
        proof {
            assert(sparse_history(s@) is None);
        }
        return None;
    }
    let r3 = match parse_nat(s, r2.1) {
        None => {
            proof {
                assert(sparse_history(s@) is None);
            }
            return None;
        },
        Some(x) => x,
    };
    if r3.0 > u32::MAX as u128 {
        proof {
            assert(sparse_history(s@) is None);
        }
        return None;
    }
    let r4 = match parse_opt_nat(s, r3.1) {
        None => {
            proof {
                assert(sparse_history(s@) is None);
            }
            return None;
        },
        Some(x) => x,
    };
    if r4.1 != s.len() {
        proof {
            assert(sparse_history(s@) is None);
        }
        return None;
    }
    Some(
        SessionHistory {
            sessions,
            current_streak: r2.0 as u32,
            longest_streak: r3.0 as u32,
            last_session_date: r4.0,
        },
    )
}

} // verus!

// === configuration record ===

verus! {

use crate::config::Config;
use crate::config::ConfigV;

/// The second half of the configuration document: goal, streak flag,
/// breathing flag, hint delay, theme, focus flag, notifications flag.
#[verifier::opaque]
pub open spec fn senc_config_b(c: ConfigV) -> Seq<char> {
    senc_nat(c.daily_goal_pomodoros as nat) + (senc_bool(c.show_streak) + (senc_bool(
        c.breathing_enabled,
    ) + (senc_nat(c.hide_hints_after_secs as nat) + (senc_text(c.theme) + (senc_bool(
        c.focus_mode_on_start,
    ) + senc_bool(c.notifications_enabled))))))
}

/// The first half of the configuration document: the three durations,
/// the cycle length, the default mode, the break auto-start flag.
#[verifier::opaque]
pub open spec fn senc_config_a(c: ConfigV) -> Seq<char> {
    senc_nat(c.work_duration_mins as nat) + (senc_nat(c.short_break_mins as nat) + (senc_nat(
        c.long_break_mins as nat,
    ) + (senc_nat(c.sessions_before_long_break as nat) + (senc_text(c.default_mode) + senc_bool(
        c.auto_start_breaks,
    )))))
}

/// The configuration document: every setting, in a fixed order.
pub open spec fn senc_config(c: ConfigV) -> Seq<char> {
    senc_config_a(c) + senc_config_b(c)
}

/// Reads the second half of a configuration document at `pos`.
pub open spec fn sparse_config_b(s: Seq<char>, pos: int) -> Option<
    ((u8, bool, bool, u8, Seq<char>, bool, bool), int),
> {
    if sparse_nat(s, pos) is None {
        None
    } else {
        let (goal, p7) = sparse_nat(s, pos)->0;
        if goal > u8::MAX || sparse_bool(s, p7) is None {
            None
        } else {
            let (streak, p8) = sparse_bool(s, p7)->0;
            if sparse_bool(s, p8) is None {
                None
            } else {
                let (breathe, p9) = sparse_bool(s, p8)->0;
                if sparse_nat(s, p9) is None {
                    None
                } else {
                    let (hints, p10) = sparse_nat(s, p9)->0;
                    if hints > u8::MAX || sparse_text(s, p10) is None {
                        None
                    } else {
                        let (theme, p11) = sparse_text(s, p10)->0;
                        if sparse_bool(s, p11) is None {
                            None
                        } else {
                            let (focus, p12) = sparse_bool(s, p11)->0;
                            if sparse_bool(s, p12) is None {
                                None
                            } else {
                                let (notif, p13) = sparse_bool(s, p12)->0;
                                Some(
                                    (
                                        (
                                            goal as u8,
                                            streak,
                                            breathe,
                                            hints as u8,
                                            theme,
                                            focus,
                                            notif,
                                        ),
                                        p13,
                                    ),
                                )
                            }
                        }
                    }
                }
            }
        }
    }
}

/// Reads a whole configuration document (nothing may follow it).
pub open spec fn sparse_config(s: Seq<char>) -> Option<ConfigV> {
    if sparse_nat(s, 0) is None {
        None
    } else {
        let (work, p1) = sparse_nat(s, 0)->0;
        if work > u64::MAX || sparse_nat(s, p1) is None {
            None
        } else {
            let (short, p2) = sparse_nat(s, p1)->0;
            if short > u64::MAX || sparse_nat(s, p2) is None {
                None
            } else {
                let (long, p3) = sparse_nat(s, p2)->0;
                if long > u64::MAX || sparse_nat(s, p3) is None {
                    None
                } else {
                    let (sbl, p4) = sparse_nat(s, p3)->0;
                    if sbl > u8::MAX || sparse_text(s, p4) is None {
                        None
                    } else {
                        let (mode, p5) = sparse_text(s, p4)->0;
                        if sparse_bool(s, p5) is None {
                            None
                        } else {
                            let (auto, p6) = sparse_bool(s, p5)->0;
                            if sparse_config_b(s, p6) is None {
                                None
                            } else {
                                let (t, p13) = sparse_config_b(s, p6)->0;
                                if p13 == s.len() {
                                    Some(
                                        ConfigV {
                                            work_duration_mins: work as u64,
                                            short_break_mins: short as u64,
                                            long_break_mins: long as u64,
                                            sessions_before_long_break: sbl as u8,
                                            default_mode: mode,
                                            auto_start_breaks: auto,
                                            daily_goal_pomodoros: t.0,
                                            show_streak: t.1,
                                            breathing_enabled: t.2,
                                            hide_hints_after_secs: t.3,
                                            theme: t.4,
                                            focus_mode_on_start: t.5,
                                            notifications_enabled: t.6,
                                        },
                                    )
                                } else {
                                    None
                                }
                            }
                        }
                    }
                }
            }
        }
    }
}

/// The configuration's texts fit the format.
pub open spec fn bounded_config(c: ConfigV) -> bool {
    &&& c.default_mode.len() <= max_number()
    &&& c.theme.len() <= max_number()
}

/// Parsing the second half it just wrote gives the fields back.
#[verifier::rlimit(100)]
#[verifier::spinoff_prover]
proof fn lemma_rt_config_b(s: Seq<char>, pos: int, c: ConfigV)
    requires
        c.theme.len() <= max_number(),
        0 <= pos,
        pos + senc_config_b(c).len() <= s.len(),
        s.subrange(pos, pos + senc_config_b(c).len()) == senc_config_b(c),
    ensures
        sparse_config_b(s, pos) == Some(
            (
                (
                    c.daily_goal_pomodoros,
                    c.show_streak,
                    c.breathing_enabled,
                    c.hide_hints_after_secs,
                    c.theme,
                    c.focus_mode_on_start,
                    c.notifications_enabled,
                ),
                pos + senc_config_b(c).len(),
            ),
        ),
{
    reveal(senc_config_b);
    let e6 = senc_nat(c.daily_goal_pomodoros as nat);
    let e7 = senc_bool(c.show_streak);
    let e8 = senc_bool(c.breathing_enabled);
    let e9 = senc_nat(c.hide_hints_after_secs as nat);
    let e10 = senc_text(c.theme);
    let e11 = senc_bool(c.focus_mode_on_start);
    let e12 = senc_bool(c.notifications_enabled);
    let r12 = e12;
    let r11 = e11 + r12;
    let r10 = e10 + r11;
    let r9 = e9 + r10;
    let r8 = e8 + r9;
    let r7 = e7 + r8;
    let r6 = e6 + r7;
    assert(senc_config_b(c) == r6);
    let p6 = pos;
    lemma_peel(s, p6, r6, e6, r7);
    lemma_rt_nat(s, p6, c.daily_goal_pomodoros as nat);
    let p7 = p6 + e6.len();
    lemma_peel(s, p7, r7, e7, r8);
    lemma_rt_bool(s, p7, c.show_streak);
    let p8 = p7 + e7.len();
    lemma_peel(s, p8, r8, e8, r9);
    lemma_rt_bool(s, p8, c.breathing_enabled);
    let p9 = p8 + e8.len();
    lemma_peel(s, p9, r9, e9, r10);
    lemma_rt_nat(s, p9, c.hide_hints_after_secs as nat);
    let p10 = p9 + e9.len();
    lemma_peel(s, p10, r10, e10, r11);
    lemma_rt_text(s, p10, c.theme);
    let p11 = p10 + e10.len();
    lemma_peel(s, p11, r11, e11, r12);
    lemma_rt_bool(s, p11, c.focus_mode_on_start);
    let p12 = p11 + e11.len();
    lemma_rt_bool(s, p12, c.notifications_enabled);
}

/// Parsing the first half it just wrote gives the fields back, ending
/// where the second half starts.
#[verifier::rlimit(100)]
#[verifier::spinoff_prover]
proof fn lemma_rt_config_a(s: Seq<char>, pos: int, c: ConfigV)
    requires
        c.default_mode.len() <= max_number(),
        0 <= pos,
        pos + senc_config_a(c).len() <= s.len(),
        s.subrange(pos, pos + senc_config_a(c).len()) == senc_config_a(c),
    ensures
        ({
            let p1 = pos + senc_nat(c.work_duration_mins as nat).len();
            let p2 = p1 + senc_nat(c.short_break_mins as nat).len();
            let p3 = p2 + senc_nat(c.long_break_mins as nat).len();
            let p4 = p3 + senc_nat(c.sessions_before_long_break as nat).len();
            let p5 = p4 + senc_text(c.default_mode).len();
            let p6 = p5 + senc_bool(c.auto_start_breaks).len();
            &&& sparse_nat(s, pos) == Some((c.work_duration_mins as nat, p1))
            &&& sparse_nat(s, p1) == Some((c.short_break_mins as nat, p2))
            &&& sparse_nat(s, p2) == Some((c.long_break_mins as nat, p3))
            &&& sparse_nat(s, p3) == Some((c.sessions_before_long_break as nat, p4))
            &&& sparse_text(s, p4) == Some((c.default_mode, p5))
            &&& sparse_bool(s, p5) == Some((c.auto_start_breaks, p6))
            &&& p6 == pos + senc_config_a(c).len()
        }),
{
    reveal(senc_config_a);
    let e0 = senc_nat(c.work_duration_mins as nat);
    let e1 = senc_nat(c.short_break_mins as nat);
    let e2 = senc_nat(c.long_break_mins as nat);
    let e3 = senc_nat(c.sessions_before_long_break as nat);
    let e4 = senc_text(c.default_mode);
    let e5 = senc_bool(c.auto_start_breaks);
    let r5 = e5;
    let r4 = e4 + r5;
    let r3 = e3 + r4;
    let r2 = e2 + r3;
    let r1 = e1 + r2;
    let r0 = e0 + r1;
    assert(senc_config_a(c) == r0);
    let p0 = pos;
    lemma_peel(s, p0, r0, e0, r1);
    lemma_rt_nat(s, p0, c.work_duration_mins as nat);
    let p1 = p0 + e0.len();
    lemma_peel(s, p1, r1, e1, r2);
    lemma_rt_nat(s, p1, c.short_break_mins as nat);
    let p2 = p1 + e1.len();
    lemma_peel(s, p2, r2, e2, r3);
    lemma_rt_nat(s, p2, c.long_break_mins as nat);
    let p3 = p2 + e2.len();
    lemma_peel(s, p3, r3, e3, r4);
    lemma_rt_nat(s, p3, c.sessions_before_long_break as nat);
    let p4 = p3 + e3.len();
    lemma_peel(s, p4, r4, e4, r5);
    lemma_rt_text(s, p4, c.default_mode);
    let p5 = p4 + e4.len();
    lemma_rt_bool(s, p5, c.auto_start_breaks);
}

/// Round trip: a configuration document, written and read back, is the
/// record it came from.
#[verifier::rlimit(100)]
#[verifier::spinoff_prover]
pub proof fn lemma_config_round_trip(c: ConfigV)
    requires
        bounded_config(c),
    ensures
        sparse_config(senc_config(c)) == Some(c),
{
    let s = senc_config(c);
    let a = senc_config_a(c);
    let b = senc_config_b(c);
    assert(s == a + b);
    assert(s.subrange(0, s.len() as int) =~= s);
    lemma_peel(s, 0, s, a, b);
    lemma_rt_config_a(s, 0, c);
    lemma_rt_config_b(s, a.len() as int, c);
}

/// Writes a configuration record as a document.
pub fn encode_config(c: &Config) -> (r: Vec<char>)
    ensures
        r@ == senc_config(c@),
{
    let mut out: Vec<char> = Vec::new();
    push_nat(c.work_duration_mins as u128, &mut out);
    push_nat(c.short_break_mins as u128, &mut out);
    push_nat(c.long_break_mins as u128, &mut out);
    push_nat(c.sessions_before_long_break as u128, &mut out);
    push_text(c.default_mode.as_str(), &mut out);
    push_bool(c.auto_start_breaks, &mut out);
    push_nat(c.daily_goal_pomodoros as u128, &mut out);
    push_bool(c.show_streak, &mut out);
    push_bool(c.breathing_enabled, &mut out);
    push_nat(c.hide_hints_after_secs as u128, &mut out);
    push_text(c.theme.as_str(), &mut out);
    push_bool(c.focus_mode_on_start, &mut out);
    push_bool(c.notifications_enabled, &mut out);
    proof {
        reveal(senc_config_a);
        reveal(senc_config_b);
        let e0 = senc_nat(c@.work_duration_mins as nat);
        let e1 = senc_nat(c@.short_break_mins as nat);
        let e2 = senc_nat(c@.long_break_mins as nat);
        let e3 = senc_nat(c@.sessions_before_long_break as nat);
        let e4 = senc_text(c@.default_mode);
        let e5 = senc_bool(c@.auto_start_breaks);
        let e6 = senc_nat(c@.daily_goal_pomodoros as nat);
        let e7 = senc_bool(c@.show_streak);
        let e8 = senc_bool(c@.breathing_enabled);
        let e9 = senc_nat(c@.hide_hints_after_secs as nat);
        let e10 = senc_text(c@.theme);
        let e11 = senc_bool(c@.focus_mode_on_start);
        let e12 = senc_bool(c@.notifications_enabled);
        let l0 = e0;
        let l1 = l0 + e1;
        let l2 = l1 + e2;
        let l3 = l2 + e3;
        let l4 = l3 + e4;
        let l5 = l4 + e5;
        let l6 = l5 + e6;
        let l7 = l6 + e7;
        let l8 = l7 + e8;
        let l9 = l8 + e9;
        let l10 = l9 + e10;
        let l11 = l10 + e11;
        let l12 = l11 + e12;
        assert(Seq::<char>::empty() + e0 =~= e0);
        assert(out@ == l12);
        // The first half, re-associated to its nested shape.
        let a5 = e5;
        let a4 = e4 + a5;
        let a3 = e3 + a4;
        let a2 = e2 + a3;
        let a1 = e1 + a2;
        let a0 = e0 + a1;
        lemma_assoc(l3, e4, e5);
        assert(l5 == l3 + a4);
        lemma_assoc(l2, e3, a4);
        assert(l5 == l2 + a3);
        lemma_assoc(l1, e2, a3);
        assert(l5 == l1 + a2);
        lemma_assoc(l0, e1, a2);
        assert(l5 == a0);
        assert(a0 == senc_config_a(c@));
        // The second half likewise.
        let b12 = e12;
        let b11 = e11 + b12;
        let b10 = e10 + b11;
        let b9 = e9 + b10;
        let b8 = e8 + b9;
        let b7 = e7 + b8;
        let b6 = e6 + b7;
        // Fold the tail of pushes into the second half, from the right.
        lemma_assoc(l10, e11, e12);
        assert(l12 == l10 + b11);
        lemma_assoc(l9, e10, b11);
        assert(l12 == l9 + b10);
        lemma_assoc(l8, e9, b10);
        assert(l12 == l8 + b9);
        lemma_assoc(l7, e8, b9);
        assert(l12 == l7 + b8);
        lemma_assoc(l6, e7, b8);
        assert(l12 == l6 + b7);
        lemma_assoc(l5, e6, b7);
        assert(l12 == l5 + b6);
        assert(b6 == senc_config_b(c@));
        assert(out@ == senc_config_a(c@) + senc_config_b(c@));
    }
    out
}

/// Reads a whole configuration document, per `sparse_config`. The result
/// is as stored; callers clamp it with `Config::normalize` before use.
pub fn parse_config(s: &Vec<char>) -> (r: Option<Config>)
    ensures
        match sparse_config(s@) {
            Some(v) => r matches Some(c) && c@ == v,
            None => r is None,
        },
{
    let r1 = match parse_nat(s, 0) {
        None => {
            return None;
        },
        Some(x) => x,
    };
    if r1.0 > u64::MAX as u128 {
        return None;
    }
    let r2 = match parse_nat(s, r1.1) {
        None => {
            return None;
        },
        Some(x) => x,
    };
    if r2.0 > u64::MAX as u128 {
        return None;
    }
    let r3 = match parse_nat(s, r2.1) {
        None => {
            return None;
        },
        Some(x) => x,
    };
    if r3.0 > u64::MAX as u128 {
        return None;
    }
    let r4 = match parse_nat(s, r3.1) {
        None => {
            return None;
        },
        Some(x) => x,
    };
    if r4.0 > u8::MAX as u128 {
        return None;
    }
    let r5 = match parse_text(s, r4.1) {
        None => {
            return None;
        },
        Some(x) => x,
    };
    let r6 = match parse_bool(s, r5.1) {
        None => {
            return None;
        },
        Some(x) => x,
    };
    let r7 = match parse_nat(s, r6.1) {
        None => {
            return None;
        },
        Some(x) => x,
    };
    if r7.0 > u8::MAX as u128 {
        return None;
    }
    let r8 = match parse_bool(s, r7.1) {
        None => {
            return None;
        },
        Some(x) => x,
    };
    let r9 = match parse_bool(s, r8.1) {
        None => {
            return None;
        },
        Some(x) => x,
    };
    let r10 = match parse_nat(s, r9.1) {
        None => {
            return None;
        },
        Some(x) => x,
    };
    if r10.0 > u8::MAX as u128 {
        return None;
    }
    let r11 = match parse_text(s, r10.1) {
        None => {
            return None;
        },
        Some(x) => x,
    };
    let r12 = match parse_bool(s, r11.1) {
        None => {
            return None;
        },
        Some(x) => x,
    };
    let r13 = match parse_bool(s, r12.1) {
        None => {
            return None;
        },
        Some(x) => x,
    };
    if r13.1 != s.len() {
        return None;
    }
    Some(
        Config {
            work_duration_mins: r1.0 as u64,
            short_break_mins: r2.0 as u64,
            long_break_mins: r3.0 as u64,
            sessions_before_long_break: r4.0 as u8,
            default_mode: r5.0,
            auto_start_breaks: r6.0,
            daily_goal_pomodoros: r7.0 as u8,
            show_streak: r8.0,
            breathing_enabled: r9.0,
            hide_hints_after_secs: r10.0 as u8,
            theme: r11.0,
            focus_mode_on_start: r12.0,
            notifications_enabled: r13.0,
        },
    )
}

} // verus!

// === tag store record ===

verus! {

use crate::tags::TagInfo;
use crate::tags::TagInfoV;
use crate::tags::TagStore;

/// One learned tag: name, day of last use, use count.
pub open spec fn senc_taginfo(t: TagInfoV) -> Seq<char> {
    senc_text(t.name) + (senc_nat(t.last_used as nat) + senc_nat(t.count as nat))
}

/// Reads one learned tag at `pos`.
pub open spec fn sparse_taginfo(s: Seq<char>, pos: int) -> Option<(TagInfoV, int)> {
    if sparse_text(s, pos) is None {
        None
    } else {
        let (name, p1) = sparse_text(s, pos)->0;
        if sparse_nat(s, p1) is None {
            None
        } else {
            let (last, p2) = sparse_nat(s, p1)->0;
            if last > u64::MAX || sparse_nat(s, p2) is None {
                None
            } else {
                let (count, p3) = sparse_nat(s, p2)->0;
                if count > u32::MAX {
                    None
                } else {
                    Some((TagInfoV { name, last_used: last as u64, count: count as u32 }, p3))
                }
            }
        }
    }
}

/// Parsing a learned tag it just wrote gives the tag back.
proof fn lemma_rt_taginfo(s: Seq<char>, pos: int, t: TagInfoV)
    requires
        t.name.len() <= max_number(),
        0 <= pos,
        pos + senc_taginfo(t).len() <= s.len(),
        s.subrange(pos, pos + senc_taginfo(t).len()) == senc_taginfo(t),
    ensures
        sparse_taginfo(s, pos) == Some((t, pos + senc_taginfo(t).len())),
{
    let e0 = senc_text(t.name);
    let e1 = senc_nat(t.last_used as nat);
    let e2 = senc_nat(t.count as nat);
    let r2 = e2;
    let r1 = e1 + r2;
    let r0 = e0 + r1;
    assert(senc_taginfo(t) == r0);
    lemma_peel(s, pos, r0, e0, r1);
    lemma_rt_text(s, pos, t.name);
    let p1 = pos + e0.len();
    lemma_peel(s, p1, r1, e1, r2);
    lemma_rt_nat(s, p1, t.last_used as nat);
    let p2 = p1 + e1.len();
    lemma_rt_nat(s, p2, t.count as nat);
}

/// The learned tags, one after another.
pub open spec fn senc_taginfos(vs: Seq<TagInfoV>) -> Seq<char>
    decreases vs.len(),
{
    if vs.len() == 0 {
        Seq::empty()
    } else {
        senc_taginfo(vs[0]) + senc_taginfos(vs.drop_first())
    }
}

/// Reads `count` learned tags starting at `pos`.
pub open spec fn sparse_taginfos(s: Seq<char>, pos: int, count: nat) -> Option<
    (Seq<TagInfoV>, int),
>
    decreases count,
{
    if count == 0 {
        Some((Seq::empty(), pos))
    } else if sparse_taginfo(s, pos) is None {
        None
    } else {
        let (v, p) = sparse_taginfo(s, pos)->0;
        if sparse_taginfos(s, p, (count - 1) as nat) is None {
            None
        } else {
            let (vs, e) = sparse_taginfos(s, p, (count - 1) as nat)->0;
            Some((seq![v] + vs, e))
        }
    }
}

/// Every tag name of the list fits the format.
pub open spec fn bounded_taginfos(vs: Seq<TagInfoV>) -> bool {
    forall|i: int| 0 <= i < vs.len() ==> (#[trigger] vs[i]).name.len() <= max_number()
}

/// Appending one more tag extends the encoding.
proof fn lemma_senc_taginfos_snoc(vs: Seq<TagInfoV>, v: TagInfoV)
    ensures
        senc_taginfos(vs.push(v)) == senc_taginfos(vs) + senc_taginfo(v),
    decreases vs.len(),
{
    if vs.len() == 0 {
        assert(vs.push(v)[0] == v);
        assert(vs.push(v).drop_first() =~= Seq::<TagInfoV>::empty());
        assert(senc_taginfos(Seq::<TagInfoV>::empty()) =~= Seq::<char>::empty());
        assert(senc_taginfos(vs.push(v)) == senc_taginfo(vs.push(v)[0]) + senc_taginfos(
            vs.push(v).drop_first(),
        ));
        assert(senc_taginfos(vs.push(v)) =~= senc_taginfo(v) + Seq::<char>::empty());
        assert(senc_taginfo(v) + Seq::<char>::empty() =~= senc_taginfo(v));
        assert(senc_taginfos(vs) + senc_taginfo(v) =~= senc_taginfo(v));
    } else {
        assert(vs.push(v)[0] == vs[0]);
        assert(vs.push(v).drop_first() =~= vs.drop_first().push(v));
        lemma_senc_taginfos_snoc(vs.drop_first(), v);
        assert(senc_taginfos(vs.push(v)) == senc_taginfo(vs[0]) + (senc_taginfos(vs.drop_first())
            + senc_taginfo(v)));
        assert(senc_taginfo(vs[0]) + (senc_taginfos(vs.drop_first()) + senc_taginfo(v)) =~= (
        senc_taginfo(vs[0]) + senc_taginfos(vs.drop_first())) + senc_taginfo(v));
    }
}

/// Parsing a tag list it just wrote gives the list back.
proof fn lemma_rt_taginfos(s: Seq<char>, pos: int, vs: Seq<TagInfoV>)
    requires
        bounded_taginfos(vs),
        0 <= pos,
        pos + senc_taginfos(vs).len() <= s.len(),
        s.subrange(pos, pos + senc_taginfos(vs).len()) == senc_taginfos(vs),
    ensures
        sparse_taginfos(s, pos, vs.len()) == Some((vs, pos + senc_taginfos(vs).len())),
    decreases vs.len(),
{
    if vs.len() == 0 {
        assert(sparse_taginfos(s, pos, 0) == Some((Seq::<TagInfoV>::empty(), pos)));
        assert(vs =~= Seq::<TagInfoV>::empty());
    } else {
        let whole = senc_taginfos(vs);
        let e0 = senc_taginfo(vs[0]);
        let rest = senc_taginfos(vs.drop_first());
        assert(whole == e0 + rest);
        lemma_peel(s, pos, whole, e0, rest);
        lemma_rt_taginfo(s, pos, vs[0]);
        assert(bounded_taginfos(vs.drop_first())) by {
            assert(forall|i: int|
                0 <= i < vs.drop_first().len() ==> #[trigger] vs.drop_first()[i] == vs[i + 1]);
        }
        lemma_rt_taginfos(s, pos + e0.len(), vs.drop_first());
        assert(seq![vs[0]] + vs.drop_first() =~= vs);
    }
}

/// The whole tag store document: tag count, then the tags.
pub open spec fn senc_tagstore(vs: Seq<TagInfoV>) -> Seq<char> {
    senc_nat(vs.len()) + senc_taginfos(vs)
}

/// Reads a whole tag store document (nothing may follow it).
pub open spec fn sparse_tagstore(s: Seq<char>) -> Option<Seq<TagInfoV>> {
    if sparse_nat(s, 0) is None {
        None
    } else {
        let (count, p1) = sparse_nat(s, 0)->0;
        if sparse_taginfos(s, p1, count) is None {
            None
        } else {
            let (vs, p2) = sparse_taginfos(s, p1, count)->0;
            if p2 == s.len() {
                Some(vs)
            } else {
                None
            }
        }
    }
}

/// Round trip: a tag store document, written and read back, is the list
/// it came from.
pub proof fn lemma_tagstore_round_trip(vs: Seq<TagInfoV>)
    requires
        vs.len() <= max_number(),
        bounded_taginfos(vs),
    ensures
        sparse_tagstore(senc_tagstore(vs)) == Some(vs),
{
    let s = senc_tagstore(vs);
    let e0 = senc_nat(vs.len());
    let e1 = senc_taginfos(vs);
    assert(s == e0 + e1);
    assert(s.subrange(0, s.len() as int) =~= s);
    lemma_peel(s, 0, s, e0, e1);
    lemma_rt_nat(s, 0, vs.len());
    lemma_rt_taginfos(s, e0.len() as int, vs);
}

/// Writes a tag store record as a document.
pub fn encode_tagstore(store: &TagStore) -> (r: Vec<char>)
    ensures
        r@ == senc_tagstore(store.tags@.map_values(|t: TagInfo| t@)),
{
    let mut out: Vec<char> = Vec::new();
    let len = store.tags.len();
    push_nat(len as u128, &mut out);
    let mut i: usize = 0;
    while i < len
        invariant
            i <= len,
            len == store.tags@.len(),
            out@ == senc_nat(len as nat) + senc_taginfos(
                store.tags@.map_values(|t: TagInfo| t@).take(i as int),
            ),
        decreases len - i,
    {
        proof {
            let vs = store.tags@.map_values(|t: TagInfo| t@);
            lemma_senc_taginfos_snoc(vs.take(i as int), vs[i as int]);
            assert(vs.take(i as int).push(vs[i as int]) =~= vs.take(i as int + 1));
        }
        let t = &store.tags[i];
        let ghost before = out@;
        push_text(t.name.as_str(), &mut out);
        push_nat(t.last_used as u128, &mut out);
        push_nat(t.count as u128, &mut out);
        proof {
            let tv = store.tags@.map_values(|t: TagInfo| t@)[i as int];
            let e0 = senc_text(tv.name);
            let e1 = senc_nat(tv.last_used as nat);
            let e2 = senc_nat(tv.count as nat);
            lemma_assoc(before + e0, e1, e2);
            lemma_assoc(before, e0, e1 + e2);
            assert(out@ == before + senc_taginfo(tv));
        }
        i = i + 1;
    }
    proof {
        let vs = store.tags@.map_values(|t: TagInfo| t@);
        assert(vs.take(len as int) =~= vs);
    }
    out
}

/// Reads one learned tag, per `sparse_taginfo`.
fn parse_taginfo(s: &Vec<char>, pos: usize) -> (r: Option<(TagInfo, usize)>)
    requires
        pos <= s@.len(),
    ensures
        match sparse_taginfo(s@, pos as int) {
            Some((v, e)) => r matches Some(p) && p.0@ == v && p.1 == e && e <= s@.len(),
            None => r is None,
        },
{
    let r1 = match parse_text(s, pos) {
        None => {
            return None;
        },
        Some(x) => x,
    };
    let r2 = match parse_nat(s, r1.1) {
        None => {
            return None;
        },
        Some(x) => x,
    };
    if r2.0 > u64::MAX as u128 {
        return None;
    }
    let r3 = match parse_nat(s, r2.1) {
        None => {
            return None;
        },
        Some(x) => x,
    };
    if r3.0 > u32::MAX as u128 {
        return None;
    }
    Some((TagInfo { name: r1.0, last_used: r2.0 as u64, count: r3.0 as u32 }, r3.1))
}

/// Reads a whole tag store document, per `sparse_tagstore`. The result is
/// as stored; callers re-establish the store invariant with
/// `TagStore::normalize`.
pub fn parse_tagstore(s: &Vec<char>) -> (r: Option<TagStore>)
    ensures
        match sparse_tagstore(s@) {
            Some(vs) => r matches Some(st) && st.tags@.map_values(|t: TagInfo| t@) == vs,
            None => r is None,
        },
{
    let r1 = match parse_nat(s, 0) {
        None => {
            return None;
        },
        Some(x) => x,
    };
    let count = r1.0;
    let mut pos = r1.1;
    let mut tags: Vec<TagInfo> = Vec::new();
    let mut k: u128 = 0;
    while k < count
        invariant
            k <= count,
            pos <= s@.len(),
            tags@.len() == k,
            sparse_nat(s@, 0) == Some((count as nat, r1.1 as int)),
            sparse_taginfos(s@, r1.1 as int, count as nat) == (match sparse_taginfos(
                s@,
                pos as int,
                (count - k) as nat,
            ) {
                None => None::<(Seq<TagInfoV>, int)>,
                Some((vs, e)) => Some((tags@.map_values(|x: TagInfo| x@) + vs, e)),
            }),
        decreases count - k,
    {
        let step = match parse_taginfo(s, pos) {
            None => {
                proof {
                    assert(sparse_taginfos(s@, pos as int, (count - k) as nat) is None);
                    assert(sparse_taginfos(s@, r1.1 as int, count as nat) is None);
                }
                return None;
            },
            Some(x) => x,
        };
        proof {
            let vs_now = tags@.map_values(|x: TagInfo| x@);
            let v = (sparse_taginfo(s@, pos as int)->0).0;
            assert(tags@.push(step.0).map_values(|x: TagInfo| x@) =~= vs_now.push(step.0@));
            assert(vs_now.push(step.0@) =~= vs_now + seq![v]);
            assert forall|vs: Seq<TagInfoV>| true implies (vs_now + (seq![v] + vs)) =~= ((vs_now
                + seq![v]) + vs) by {}
        }
        tags.push(step.0);
        pos = step.1;
        k = k + 1;
    }
    proof {
        assert(sparse_taginfos(s@, pos as int, 0) == Some((Seq::<TagInfoV>::empty(), pos as int)));
        assert(tags@.map_values(|x: TagInfo| x@) + Seq::<TagInfoV>::empty() =~= tags@.map_values(
            |x: TagInfo| x@,
        ));
    }
    if pos != s.len() {
        return None;
    }
    Some(TagStore { tags })
}

} // verus!

// === task store record ===

verus! {

use crate::tasks::Task;
use crate::tasks::TaskV;

/// Text fields, one after another.
pub open spec fn senc_texts(ts: Seq<Seq<char>>) -> Seq<char>
    decreases ts.len(),
{
    if ts.len() == 0 {
        Seq::empty()
    } else {
        senc_text(ts[0]) + senc_texts(ts.drop_first())
    }
}

/// Reads `count` text fields starting at `pos`.
pub open spec fn sparse_texts(s: Seq<char>, pos: int, count: nat) -> Option<(Seq<Seq<char>>, int)>
    decreases count,
{
    if count == 0 {
        Some((Seq::empty(), pos))
    } else if sparse_text(s, pos) is None {
        None
    } else {
        let (t, p) = sparse_text(s, pos)->0;
        if sparse_texts(s, p, (count - 1) as nat) is None {
            None
        } else {
            let (ts, e) = sparse_texts(s, p, (count - 1) as nat)->0;
            Some((seq![t] + ts, e))
        }
    }
}

/// Every text of the list fits the format.
pub open spec fn bounded_texts(ts: Seq<Seq<char>>) -> bool {
    forall|i: int| 0 <= i < ts.len() ==> (#[trigger] ts[i]).len() <= max_number()
}

/// Appending one more text extends the encoding.
proof fn lemma_senc_texts_snoc(ts: Seq<Seq<char>>, t: Seq<char>)
    ensures
        senc_texts(ts.push(t)) == senc_texts(ts) + senc_text(t),
    decreases ts.len(),
{
    if ts.len() == 0 {
        assert(ts.push(t)[0] == t);
        assert(ts.push(t).drop_first() =~= Seq::<Seq<char>>::empty());
        assert(senc_texts(Seq::<Seq<char>>::empty()) =~= Seq::<char>::empty());
        assert(senc_texts(ts.push(t)) == senc_text(ts.push(t)[0]) + senc_texts(
            ts.push(t).drop_first(),
        ));
        assert(senc_texts(ts.push(t)) =~= senc_text(t) + Seq::<char>::empty());
        assert(senc_text(t) + Seq::<char>::empty() =~= senc_text(t));
        assert(senc_texts(ts) + senc_text(t) =~= senc_text(t));
    } else {
        assert(ts.push(t)[0] == ts[0]);
        assert(ts.push(t).drop_first() =~= ts.drop_first().push(t));
        lemma_senc_texts_snoc(ts.drop_first(), t);
        assert(senc_texts(ts.push(t)) == senc_text(ts[0]) + (senc_texts(ts.drop_first())
            + senc_text(t)));
        assert(senc_text(ts[0]) + (senc_texts(ts.drop_first()) + senc_text(t)) =~= (senc_text(
            ts[0],
        ) + senc_texts(ts.drop_first())) + senc_text(t));
    }
}

/// Parsing a text list it just wrote gives the list back.
proof fn lemma_rt_texts(s: Seq<char>, pos: int, ts: Seq<Seq<char>>)
    requires
        bounded_texts(ts),
        0 <= pos,
        pos + senc_texts(ts).len() <= s.len(),
        s.subrange(pos, pos + senc_texts(ts).len()) == senc_texts(ts),
    ensures
        sparse_texts(s, pos, ts.len()) == Some((ts, pos + senc_texts(ts).len())),
    decreases ts.len(),
{
    if ts.len() == 0 {
        assert(sparse_texts(s, pos, 0) == Some((Seq::<Seq<char>>::empty(), pos)));
        assert(ts =~= Seq::<Seq<char>>::empty());
    } else {
        let whole = senc_texts(ts);
        let e0 = senc_text(ts[0]);
        let rest = senc_texts(ts.drop_first());
        assert(whole == e0 + rest);
        lemma_peel(s, pos, whole, e0, rest);
        lemma_rt_text(s, pos, ts[0]);
        assert(bounded_texts(ts.drop_first())) by {
            assert(forall|i: int|
                0 <= i < ts.drop_first().len() ==> #[trigger] ts.drop_first()[i] == ts[i + 1]);
        }
        lemma_rt_texts(s, pos + e0.len(), ts.drop_first());
        assert(seq![ts[0]] + ts.drop_first() =~= ts);
    }
}

/// One task: identifier, name, completion flag, pomodoro counter, tag
/// count, the tag names.
pub open spec fn senc_task(v: TaskV) -> Seq<char> {
    senc_nat(v.id as nat) + (senc_text(v.name) + (senc_bool(v.completed) + (senc_nat(
        v.pomodoros_spent as nat,
    ) + (senc_nat(v.tags.len()) + senc_texts(v.tags)))))
}

/// Reads one task at `pos`.
pub open spec fn sparse_task(s: Seq<char>, pos: int) -> Option<(TaskV, int)> {
    if sparse_nat(s, pos) is None {
        None
    } else {
        let (id, p1) = sparse_nat(s, pos)->0;
        if sparse_text(s, p1) is None {
            None
        } else {
            let (name, p2) = sparse_text(s, p1)->0;
            if sparse_bool(s, p2) is None {
                None
            } else {
                let (completed, p3) = sparse_bool(s, p2)->0;
                if sparse_nat(s, p3) is None {
                    None
                } else {
                    let (pom, p4) = sparse_nat(s, p3)->0;
                    if pom > u32::MAX || sparse_nat(s, p4) is None {
                        None
                    } else {
                        let (tc, p5) = sparse_nat(s, p4)->0;
                        if sparse_texts(s, p5, tc) is None {
                            None
                        } else {
                            let (tags, p6) = sparse_texts(s, p5, tc)->0;
                            Some(
                                (
                                    TaskV {
                                        id: id as u128,
                                        name,
                                        completed,
                                        pomodoros_spent: pom as u32,
                                        tags,
                                    },
                                    p6,
                                ),
                            )
                        }
                    }
                }
            }
        }
    }
}

/// The task's texts fit the format.
pub open spec fn bounded_task(v: TaskV) -> bool {
    &&& v.name.len() <= max_number()
    &&& v.tags.len() <= max_number()
    &&& bounded_texts(v.tags)
}

/// Parsing a task it just wrote gives the task back.
#[verifier::rlimit(100)]
#[verifier::spinoff_prover]
proof fn lemma_rt_task(s: Seq<char>, pos: int, v: TaskV)
    requires
        bounded_task(v),
        0 <= pos,
        pos + senc_task(v).len() <= s.len(),
        s.subrange(pos, pos + senc_task(v).len()) == senc_task(v),
    ensures
        sparse_task(s, pos) == Some((v, pos + senc_task(v).len())),
{
    let e0 = senc_nat(v.id as nat);
    let e1 = senc_text(v.name);
    let e2 = senc_bool(v.completed);
    let e3 = senc_nat(v.pomodoros_spent as nat);
    let e4 = senc_nat(v.tags.len());
    let e5 = senc_texts(v.tags);
    let r5 = e5;
    let r4 = e4 + r5;
    let r3 = e3 + r4;
    let r2 = e2 + r3;
    let r1 = e1 + r2;
    let r0 = e0 + r1;
    assert(senc_task(v) == r0);
    let p0 = pos;
    lemma_peel(s, p0, r0, e0, r1);
    lemma_rt_nat(s, p0, v.id as nat);
    let p1 = p0 + e0.len();
    lemma_peel(s, p1, r1, e1, r2);
    lemma_rt_text(s, p1, v.name);
    let p2 = p1 + e1.len();
    lemma_peel(s, p2, r2, e2, r3);
    lemma_rt_bool(s, p2, v.completed);
    let p3 = p2 + e2.len();
    lemma_peel(s, p3, r3, e3, r4);
    lemma_rt_nat(s, p3, v.pomodoros_spent as nat);
    let p4 = p3 + e3.len();
    lemma_peel(s, p4, r4, e4, r5);
    lemma_rt_nat(s, p4, v.tags.len());
    let p5 = p4 + e4.len();
    lemma_rt_texts(s, p5, v.tags);
}

/// The tasks, one after another.
pub open spec fn senc_tasks(vs: Seq<TaskV>) -> Seq<char>
    decreases vs.len(),
{
    if vs.len() == 0 {
        Seq::empty()
    } else {
        senc_task(vs[0]) + senc_tasks(vs.drop_first())
    }
}

/// Reads `count` tasks starting at `pos`.
pub open spec fn sparse_tasks(s: Seq<char>, pos: int, count: nat) -> Option<(Seq<TaskV>, int)>
    decreases count,
{
    if count == 0 {
        Some((Seq::empty(), pos))
    } else if sparse_task(s, pos) is None {
        None
    } else {
        let (v, p) = sparse_task(s, pos)->0;
        if sparse_tasks(s, p, (count - 1) as nat) is None {
            None
        } else {
            let (vs, e) = sparse_tasks(s, p, (count - 1) as nat)->0;
            Some((seq![v] + vs, e))
        }
    }
}

/// Every task of the list is bounded.
pub open spec fn bounded_tasks(vs: Seq<TaskV>) -> bool {
    forall|i: int| 0 <= i < vs.len() ==> bounded_task(#[trigger] vs[i])
}

/// Appending one more task extends the encoding.
proof fn lemma_senc_tasks_snoc(vs: Seq<TaskV>, v: TaskV)
    ensures
        senc_tasks(vs.push(v)) == senc_tasks(vs) + senc_task(v),
    decreases vs.len(),
{
    if vs.len() == 0 {
        assert(vs.push(v)[0] == v);
        assert(vs.push(v).drop_first() =~= Seq::<TaskV>::empty());
        assert(senc_tasks(Seq::<TaskV>::empty()) =~= Seq::<char>::empty());
        assert(senc_tasks(vs.push(v)) == senc_task(vs.push(v)[0]) + senc_tasks(
            vs.push(v).drop_first(),
        ));
        assert(senc_tasks(vs.push(v)) =~= senc_task(v) + Seq::<char>::empty());
        assert(senc_task(v) + Seq::<char>::empty() =~= senc_task(v));
        assert(senc_tasks(vs) + senc_task(v) =~= senc_task(v));
    } else {
        assert(vs.push(v)[0] == vs[0]);
        assert(vs.push(v).drop_first() =~= vs.drop_first().push(v));
        lemma_senc_tasks_snoc(vs.drop_first(), v);
        assert(senc_tasks(vs.push(v)) == senc_task(vs[0]) + (senc_tasks(vs.drop_first())
            + senc_task(v)));
        assert(senc_task(vs[0]) + (senc_tasks(vs.drop_first()) + senc_task(v)) =~= (senc_task(
            vs[0],
        ) + senc_tasks(vs.drop_first())) + senc_task(v));
    }
}

/// Parsing a task list it just wrote gives the list back.
proof fn lemma_rt_tasks(s: Seq<char>, pos: int, vs: Seq<TaskV>)
    requires
        bounded_tasks(vs),
        0 <= pos,
        pos + senc_tasks(vs).len() <= s.len(),
        s.subrange(pos, pos + senc_tasks(vs).len()) == senc_tasks(vs),
    ensures
        sparse_tasks(s, pos, vs.len()) == Some((vs, pos + senc_tasks(vs).len())),
    decreases vs.len(),
{
    if vs.len() == 0 {
        assert(sparse_tasks(s, pos, 0) == Some((Seq::<TaskV>::empty(), pos)));
        assert(vs =~= Seq::<TaskV>::empty());
    } else {
        let whole = senc_tasks(vs);
        let e0 = senc_task(vs[0]);
        let rest = senc_tasks(vs.drop_first());
        assert(whole == e0 + rest);
        lemma_peel(s, pos, whole, e0, rest);
        lemma_rt_task(s, pos, vs[0]);
        assert(bounded_tasks(vs.drop_first())) by {
            assert(forall|i: int|
                0 <= i < vs.drop_first().len() ==> #[trigger] vs.drop_first()[i] == vs[i + 1]);
        }
        lemma_rt_tasks(s, pos + e0.len(), vs.drop_first());
        assert(seq![vs[0]] + vs.drop_first() =~= vs);
    }
}

/// The whole task list document: task count, then the tasks.
pub open spec fn senc_taskstore(vs: Seq<TaskV>) -> Seq<char> {
    senc_nat(vs.len()) + senc_tasks(vs)
}

/// Reads a whole task list document (nothing may follow it).
pub open spec fn sparse_taskstore(s: Seq<char>) -> Option<Seq<TaskV>> {
    if sparse_nat(s, 0) is None {
        None
    } else {
        let (count, p1) = sparse_nat(s, 0)->0;
        if sparse_tasks(s, p1, count) is None {
            None
        } else {
            let (vs, p2) = sparse_tasks(s, p1, count)->0;
            if p2 == s.len() {
                Some(vs)
            } else {
                None
            }
        }
    }
}

/// Round trip: a task list document, written and read back, is the list
/// it came from.
pub proof fn lemma_taskstore_round_trip(vs: Seq<TaskV>)
    requires
        vs.len() <= max_number(),
        bounded_tasks(vs),
    ensures
        sparse_taskstore(senc_taskstore(vs)) == Some(vs),
{
    let s = senc_taskstore(vs);
    let e0 = senc_nat(vs.len());
    let e1 = senc_tasks(vs);
    assert(s == e0 + e1);
    assert(s.subrange(0, s.len() as int) =~= s);
    lemma_peel(s, 0, s, e0, e1);
    lemma_rt_nat(s, 0, vs.len());
    lemma_rt_tasks(s, e0.len() as int, vs);
}

/// Appends one task.
fn encode_task(t: &Task, out: &mut Vec<char>)
    ensures
        final(out)@ == old(out)@ + senc_task(t@),
{
    push_nat(t.id, out);
    push_text(t.name.as_str(), out);
    push_bool(t.completed, out);
    push_nat(t.pomodoros_spent as u128, out);
    let len = t.tags.len();
    push_nat(len as u128, out);
    let ghost head = old(out)@ + senc_nat(t@.id as nat) + senc_text(t@.name) + senc_bool(
        t@.completed,
    ) + senc_nat(t@.pomodoros_spent as nat) + senc_nat(t@.tags.len());
    let mut i: usize = 0;
    while i < len
        invariant
            i <= len,
            len == t.tags@.len(),
            out@ == head + senc_texts(t@.tags.take(i as int)),
        decreases len - i,
    {
        proof {
            lemma_senc_texts_snoc(t@.tags.take(i as int), t@.tags[i as int]);
            assert(t@.tags.take(i as int).push(t@.tags[i as int]) =~= t@.tags.take(i as int + 1));
        }
        push_text(t.tags[i].as_str(), out);
        i = i + 1;
    }
    proof {
        assert(t@.tags.take(len as int) =~= t@.tags);
        let b = old(out)@;
        let e0 = senc_nat(t@.id as nat);
        let e1 = senc_text(t@.name);
        let e2 = senc_bool(t@.completed);
        let e3 = senc_nat(t@.pomodoros_spent as nat);
        let e4 = senc_nat(t@.tags.len());
        let e5 = senc_texts(t@.tags);
        let l0 = b + e0;
        let l1 = l0 + e1;
        let l2 = l1 + e2;
        let l3 = l2 + e3;
        let l4 = l3 + e4;
        let l5 = l4 + e5;
        assert(out@ == l5);
        let r5 = e5;
        let r4 = e4 + r5;
        let r3 = e3 + r4;
        let r2 = e2 + r3;
        let r1 = e1 + r2;
        let r0 = e0 + r1;
        lemma_assoc(l3, e4, e5);
        assert(l5 == l3 + r4);
        lemma_assoc(l2, e3, r4);
        assert(l5 == l2 + r3);
        lemma_assoc(l1, e2, r3);
        assert(l5 == l1 + r2);
        lemma_assoc(l0, e1, r2);
        assert(l5 == l0 + r1);
        lemma_assoc(b, e0, r1);
        assert(l5 == b + r0);
        assert(out@ == old(out)@ + senc_task(t@));
    }
}

/// Writes a task list record as a document.
pub fn encode_taskstore(tasks: &Vec<Task>) -> (r: Vec<char>)
    ensures
        r@ == senc_taskstore(tasks@.map_values(|t: Task| t@)),
{
    let mut out: Vec<char> = Vec::new();
    let len = tasks.len();
    push_nat(len as u128, &mut out);
    let mut i: usize = 0;
    while i < len
        invariant
            i <= len,
            len == tasks@.len(),
            out@ == senc_nat(len as nat) + senc_tasks(
                tasks@.map_values(|t: Task| t@).take(i as int),
            ),
        decreases len - i,
    {
        proof {
            let vs = tasks@.map_values(|t: Task| t@);
            lemma_senc_tasks_snoc(vs.take(i as int), vs[i as int]);
            assert(vs.take(i as int).push(vs[i as int]) =~= vs.take(i as int + 1));
        }
        encode_task(&tasks[i], &mut out);
        i = i + 1;
    }
    proof {
        let vs = tasks@.map_values(|t: Task| t@);
        assert(vs.take(len as int) =~= vs);
    }
    out
}

/// Reads `count` text fields, per `sparse_texts`.
fn parse_texts(s: &Vec<char>, pos: usize, count: u128) -> (r: Option<(Vec<String>, usize)>)
    requires
        pos <= s@.len(),
    ensures
        match sparse_texts(s@, pos as int, count as nat) {
            Some((ts, e)) => r matches Some(p) && p.0@.map_values(|x: String| x@) == ts && p.1 == e
                && e <= s@.len(),
            None => r is None,
        },
{
    let mut cur = pos;
    let mut texts: Vec<String> = Vec::new();
    let mut k: u128 = 0;
    while k < count
        invariant
            k <= count,
            cur <= s@.len(),
            texts@.len() == k,
            sparse_texts(s@, pos as int, count as nat) == (match sparse_texts(
                s@,
                cur as int,
                (count - k) as nat,
            ) {
                None => None::<(Seq<Seq<char>>, int)>,
                Some((ts, e)) => Some((texts@.map_values(|x: String| x@) + ts, e)),
            }),
        decreases count - k,
    {
        let step = match parse_text(s, cur) {
            None => {
                proof {
                    assert(sparse_texts(s@, cur as int, (count - k) as nat) is None);
                }
                return None;
            },
            Some(x) => x,
        };
        proof {
            let ts_now = texts@.map_values(|x: String| x@);
            let t = (sparse_text(s@, cur as int)->0).0;
            assert(texts@.push(step.0).map_values(|x: String| x@) =~= ts_now.push(step.0@));
            assert(ts_now.push(step.0@) =~= ts_now + seq![t]);
            assert forall|ts: Seq<Seq<char>>| true implies (ts_now + (seq![t] + ts)) =~= ((ts_now
                + seq![t]) + ts) by {}
        }
        texts.push(step.0);
        cur = step.1;
        k = k + 1;
    }
    proof {
        assert(sparse_texts(s@, cur as int, 0) == Some((Seq::<Seq<char>>::empty(), cur as int)));
        assert(texts@.map_values(|x: String| x@) + Seq::<Seq<char>>::empty() =~= texts@.map_values(
            |x: String| x@,
        ));
    }
    Some((texts, cur))
}

/// Reads one task, per `sparse_task`.
fn parse_task(s: &Vec<char>, pos: usize) -> (r: Option<(Task, usize)>)
    requires
        pos <= s@.len(),
    ensures
        match sparse_task(s@, pos as int) {
            Some((v, e)) => r matches Some(p) && p.0@ == v && p.1 == e && e <= s@.len(),
            None => r is None,
        },
{
    let r1 = match parse_nat(s, pos) {
        None => {
            return None;
        },
        Some(x) => x,
    };
    let r2 = match parse_text(s, r1.1) {
        None => {
            return None;
        },
        Some(x) => x,
    };
    let r3 = match parse_bool(s, r2.1) {
        None => {
            return None;
        },
        Some(x) => x,
    };
    let r4 = match parse_nat(s, r3.1) {
        None => {
            return None;
        },
        Some(x) => x,
    };
    if r4.0 > u32::MAX as u128 {
        return None;
    }
    let r5 = match parse_nat(s, r4.1) {
        None => {
            return None;
        },
        Some(x) => x,
    };
    let r6 = match parse_texts(s, r5.1, r5.0) {
        None => {
            return None;
        },
        Some(x) => x,
    };
    Some(
        (
            Task {
                id: r1.0,
                name: r2.0,
                completed: r3.0,
                pomodoros_spent: r4.0 as u32,
                tags: r6.0,
            },
            r6.1,
        ),
    )
}

/// Reads a whole task list document, per `sparse_taskstore`.
pub fn parse_taskstore(s: &Vec<char>) -> (r: Option<Vec<Task>>)
    ensures
        match sparse_taskstore(s@) {
            Some(vs) => r matches Some(ts) && ts@.map_values(|t: Task| t@) == vs,
            None => r is None,
        },
{
    let r1 = match parse_nat(s, 0) {
        None => {
            return None;
        },
        Some(x) => x,
    };
    let count = r1.0;
    let mut pos = r1.1;
    let mut tasks: Vec<Task> = Vec::new();
    let mut k: u128 = 0;
    while k < count
        invariant
            k <= count,
            pos <= s@.len(),
            tasks@.len() == k,
            sparse_nat(s@, 0) == Some((count as nat, r1.1 as int)),
            sparse_tasks(s@, r1.1 as int, count as nat) == (match sparse_tasks(
                s@,
                pos as int,
                (count - k) as nat,
            ) {
                None => None::<(Seq<TaskV>, int)>,
                Some((vs, e)) => Some((tasks@.map_values(|x: Task| x@) + vs, e)),
            }),
        decreases count - k,
    {
        let step = match parse_task(s, pos) {
            None => {
                proof {
                    assert(sparse_tasks(s@, pos as int, (count - k) as nat) is None);
                    assert(sparse_tasks(s@, r1.1 as int, count as nat) is None);
                }
                return None;
            },
            Some(x) => x,
        };
        proof {
            let vs_now = tasks@.map_values(|x: Task| x@);
            let v = (sparse_task(s@, pos as int)->0).0;
            assert(tasks@.push(step.0).map_values(|x: Task| x@) =~= vs_now.push(step.0@));
            assert(vs_now.push(step.0@) =~= vs_now + seq![v]);
            assert forall|vs: Seq<TaskV>| true implies (vs_now + (seq![v] + vs)) =~= ((vs_now
                + seq![v]) + vs) by {}
        }
        tasks.push(step.0);
        pos = step.1;
        k = k + 1;
    }
    proof {
        assert(sparse_tasks(s@, pos as int, 0) == Some((Seq::<TaskV>::empty(), pos as int)));
        assert(tasks@.map_values(|x: Task| x@) + Seq::<TaskV>::empty() =~= tasks@.map_values(
            |x: Task| x@,
        ));
    }
    if pos != s.len() {
        return None;
    }
    Some(tasks)
}

} // verus!
