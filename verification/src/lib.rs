//! Filename sanitizer.
//!
//! Converts an arbitrary Unicode string into one that is a legal filename
//! component on the operating systems selected by a [`Mode`] value, by
//! escaping disallowed characters and disallowed whole filenames. It is a
//! pure transformation library: it never touches a filesystem.
//!
//! The main function is [`escape_str`], which takes a string and returns a
//! modified version usable as a filename.

use vstd::prelude::*;

pub mod mode;
pub mod model;
pub mod inverse;
pub mod laws;

pub use crate::mode::Mode;
use crate::model::disallowed_flags;
use crate::model::escape_chars;
use crate::model::escape_sequence;
use crate::model::escape_spec;
use crate::model::hex_digit;
use crate::model::hex_digits;
use crate::model::is_unix_reserved;
use crate::model::is_windows_reserved;
use crate::model::last_dot_index;
use crate::model::lemma_escape_chars_push;
use crate::model::lemma_last_dot_at;
use crate::model::lemma_no_dot;
use crate::model::unix_reserved_names;
use crate::model::windows_reserved_names;
use crate::model::spec_allowed;
use crate::model::windows_end_fixup;
use crate::model::TABLE_LEN;

verus! {

/// The table entry for code point `n`: the modes under which `n` is
/// disallowed as a filename character.
fn disallowed_flags_of(n: u32) -> (r: u32)
    requires
        n < TABLE_LEN,
    ensures
        r == disallowed_flags(n as int),
{
    if n == 0x00 || n == 0x0F || n == 0x2F {
        0x7
    } else if 0x01 <= n && n < 0x20 {
        0x2
    } else if n == 0x20 || n == 0x2E {
        0x8
    } else if n == 0x22 || n == 0x2A || n == 0x3C || n == 0x3E || n == 0x3F || n == 0x5C
        || n == 0x7C {
        0x2
    } else if n == 0x3A {
        0x6
    } else {
        0x0
    }
}

/// Checks whether the given character is allowed in a filename on every
/// system named in `mode`.
///
/// Disallowed characters by mode:
/// - [`Mode::unix`]: `\x00`, `\x0F`, `/`
/// - [`Mode::windows`]: `0x00`-`0x1F`, `<`, `>`, `:`, `"`, `/`, `\`, `|`,
///   `?`, `*`
/// - [`Mode::mac`]: `\x00`, `\x0F`, `/`, `:`
/// - [`Mode::all`]: all of the above.
/// - [`Mode::windows_end`]: space and `.`
pub fn allowed(c: char, mode: Mode) -> (r: bool)
    ensures
        r == spec_allowed(c, mode),
{
    let n = c as u32;
    if n >= TABLE_LEN {
        true
    } else {
        disallowed_flags_of(n) & mode.bits == 0
    }
}

/// The basenames reserved on Windows, in order: a filename with one of
/// these as its stem is rejected there whatever its characters.
pub fn windows_reserved() -> (v: Vec<&'static str>)
    ensures
        v@.len() == windows_reserved_names().len(),
        forall|i: int| 0 <= i < v@.len() ==> (#[trigger] v@[i])@ == windows_reserved_names()[i],
{
    let mut v: Vec<&'static str> = Vec::new();
    v.push("CON");
    v.push("PRN");
    v.push("AUX");
    v.push("NUL");
    v.push("COM1");
    v.push("COM2");
    v.push("COM3");
    v.push("COM4");
    v.push("COM5");
    v.push("COM6");
    v.push("COM7");
    v.push("COM8");
    v.push("COM9");
    v.push("LPT1");
    v.push("LPT2");
    v.push("LPT3");
    v.push("LPT4");
    v.push("LPT5");
    v.push("LPT6");
    v.push("LPT7");
    v.push("LPT8");
    v.push("LPT9");
    proof {
        reveal_strlit("CON");
        reveal_strlit("PRN");
        reveal_strlit("AUX");
        reveal_strlit("NUL");
        reveal_strlit("COM1");
        reveal_strlit("COM2");
        reveal_strlit("COM3");
        reveal_strlit("COM4");
        reveal_strlit("COM5");
        reveal_strlit("COM6");
        reveal_strlit("COM7");
        reveal_strlit("COM8");
        reveal_strlit("COM9");
        reveal_strlit("LPT1");
        reveal_strlit("LPT2");
        reveal_strlit("LPT3");
        reveal_strlit("LPT4");
        reveal_strlit("LPT5");
        reveal_strlit("LPT6");
        reveal_strlit("LPT7");
        reveal_strlit("LPT8");
        reveal_strlit("LPT9");
        assert forall|i: int| 0 <= i < v@.len() implies (#[trigger] v@[i])@
            == windows_reserved_names()[i] by {
            assert(v@[0]@ =~= windows_reserved_names()[0]);
            assert(v@[1]@ =~= windows_reserved_names()[1]);
            assert(v@[2]@ =~= windows_reserved_names()[2]);
            assert(v@[3]@ =~= windows_reserved_names()[3]);
            assert(v@[4]@ =~= windows_reserved_names()[4]);
            assert(v@[5]@ =~= windows_reserved_names()[5]);
            assert(v@[6]@ =~= windows_reserved_names()[6]);
            assert(v@[7]@ =~= windows_reserved_names()[7]);
            assert(v@[8]@ =~= windows_reserved_names()[8]);
            assert(v@[9]@ =~= windows_reserved_names()[9]);
            assert(v@[10]@ =~= windows_reserved_names()[10]);
            assert(v@[11]@ =~= windows_reserved_names()[11]);
            assert(v@[12]@ =~= windows_reserved_names()[12]);
            assert(v@[13]@ =~= windows_reserved_names()[13]);
            assert(v@[14]@ =~= windows_reserved_names()[14]);
            assert(v@[15]@ =~= windows_reserved_names()[15]);
            assert(v@[16]@ =~= windows_reserved_names()[16]);
            assert(v@[17]@ =~= windows_reserved_names()[17]);
            assert(v@[18]@ =~= windows_reserved_names()[18]);
            assert(v@[19]@ =~= windows_reserved_names()[19]);
            assert(v@[20]@ =~= windows_reserved_names()[20]);
            assert(v@[21]@ =~= windows_reserved_names()[21]);
        }
    }
    v
}

/// The filenames reserved on Unix and macOS, in order.
pub fn unix_reserved() -> (v: Vec<&'static str>)
    ensures
        v@.len() == unix_reserved_names().len(),
        forall|i: int| 0 <= i < v@.len() ==> (#[trigger] v@[i])@ == unix_reserved_names()[i],
{
    let mut v: Vec<&'static str> = Vec::new();
    v.push(".");
    v.push("..");
    proof {
        reveal_strlit(".");
        reveal_strlit("..");
        assert(v@[0]@ =~= unix_reserved_names()[0]);
        assert(v@[1]@ =~= unix_reserved_names()[1]);
    }
    v
}

/// Relies on `String::push`: appends the character to the end of the
/// string.
#[verifier::external_body]
fn push_char(s: &mut String, c: char)
    ensures
        final(s)@ == old(s)@ + seq![c],
{
    s.push(c);
}

/// Builds a `String` holding exactly the characters of `v`.
fn chars_to_string(v: &Vec<char>) -> (s: String)
    ensures
        s@ == v@,
{
    let mut s = String::new();
    let mut i: usize = 0;
    while i < v.len()
        invariant
            i <= v.len(),
            s@ == v@.subrange(0, i as int),
        decreases v.len() - i,
    {
        push_char(&mut s, v[i]);
        proof {
            assert(v@.subrange(0, i as int).push(v@[i as int]) =~= v@.subrange(0, i + 1));
        }
        i += 1;
    }
    proof {
        assert(v@.subrange(0, v.len() as int) =~= v@);
    }
    s
}

/// The uppercase hexadecimal digit character for a value below sixteen.
fn hex_digit_char(d: u32) -> (c: char)
    requires
        d < 16,
    ensures
        c == hex_digit(d as int),
{
    if d == 0x0 {
        '0'
    } else if d == 0x1 {
        '1'
    } else if d == 0x2 {
        '2'
    } else if d == 0x3 {
        '3'
    } else if d == 0x4 {
        '4'
    } else if d == 0x5 {
        '5'
    } else if d == 0x6 {
        '6'
    } else if d == 0x7 {
        '7'
    } else if d == 0x8 {
        '8'
    } else if d == 0x9 {
        '9'
    } else if d == 0xA {
        'A'
    } else if d == 0xB {
        'B'
    } else if d == 0xC {
        'C'
    } else if d == 0xD {
        'D'
    } else if d == 0xE {
        'E'
    } else {
        'F'
    }
}

/// Appends the hexadecimal digits of `v`, most significant first, with no
/// leading zeros.
fn push_hex_digits(out: &mut Vec<char>, v: u32)
    ensures
        final(out)@ == old(out)@ + hex_digits(v as nat),
    decreases v,
{
    if v < 16 {
        out.push(hex_digit_char(v));
        proof {
            assert(old(out)@.push(hex_digit(v as int)) =~= old(out)@ + hex_digits(v as nat));
        }
    } else {
        push_hex_digits(out, v / 16);
        out.push(hex_digit_char(v % 16));
        proof {
            assert((old(out)@ + hex_digits((v / 16) as nat)).push(hex_digit((v % 16) as int)) =~= old(
                out,
            )@ + hex_digits(v as nat));
        }
    }
}

/// Appends the escape sequence for `c`: the escape character followed by
/// the hexadecimal code of `c`'s code point, zero-padded to at least two
/// digits.
fn push_escape_sequence(out: &mut Vec<char>, c: char, esc: char)
    ensures
        final(out)@ == old(out)@ + escape_sequence(c, esc),
{
    out.push(esc);
    let v = c as u32;
    if v < 16 {
        out.push('0');
        push_hex_digits(out, v);
        proof {
            assert(old(out)@.push(esc).push('0') + hex_digits(v as nat) =~= old(out)@
                + escape_sequence(c, esc));
        }
    } else {
        push_hex_digits(out, v);
        proof {
            assert(old(out)@.push(esc) + hex_digits(v as nat) =~= old(out)@ + escape_sequence(
                c,
                esc,
            ));
        }
    }
}

/// Appends the characters of `p` with indices in `[lo, hi)`.
fn push_str_range(out: &mut Vec<char>, p: &str, lo: usize, hi: usize)
    requires
        lo <= hi <= p@.len(),
    ensures
        final(out)@ == old(out)@ + p@.subrange(lo as int, hi as int),
{
    let mut i: usize = lo;
    while i < hi
        invariant
            lo <= i <= hi <= p@.len(),
            out@ == old(out)@ + p@.subrange(lo as int, i as int),
        decreases hi - i,
    {
        let c = p.get_char(i);
        out.push(c);
        proof {
            assert((old(out)@ + p@.subrange(lo as int, i as int)).push(p@[i as int]) =~= old(out)@
                + p@.subrange(lo as int, i + 1));
        }
        i += 1;
    }
}

/// The index just past the last `.` of `p`, or `None` when `p` has no `.`.
fn find_last_dot(p: &str, n: usize) -> (r: Option<usize>)
    requires
        n == p@.len(),
    ensures
        match r {
            Some(k) => k < n && last_dot_index(p@) == k,
            None => last_dot_index(p@) == -1,
        },
{
    let mut i: usize = n;
    while i > 0
        invariant
            i <= n,
            n == p@.len(),
            forall|j: int| i <= j < n ==> p@[j] != '.',
        decreases i,
    {
        let c = p.get_char(i - 1);
        if c == '.' {
            proof {
                lemma_last_dot_at(p@, i - 1);
            }
            return Some(i - 1);
        }
        i = i - 1;
    }
    proof {
        lemma_no_dot(p@);
    }
    None
}

/// Whether the characters of `p` with indices in `[lo, hi)` spell one of
/// the basenames reserved on Windows.
fn windows_reserved_match(p: &str, lo: usize, hi: usize) -> (b: bool)
    requires
        lo <= hi <= p@.len(),
    ensures
        b == is_windows_reserved(p@.subrange(lo as int, hi as int)),
{
    let ghost s = p@.subrange(lo as int, hi as int);
    let len = hi - lo;
    if len == 3 {
        let c0 = p.get_char(lo);
        let c1 = p.get_char(lo + 1);
        let c2 = p.get_char(lo + 2);
        proof {
            assert(s =~= seq![c0, c1, c2]);
        }
        (c0 == 'C' && c1 == 'O' && c2 == 'N') || (c0 == 'P' && c1 == 'R' && c2 == 'N') || (c0 == 'A'
            && c1 == 'U' && c2 == 'X') || (c0 == 'N' && c1 == 'U' && c2 == 'L')
    } else if len == 4 {
        let c0 = p.get_char(lo);
        let c1 = p.get_char(lo + 1);
        let c2 = p.get_char(lo + 2);
        let c3 = p.get_char(lo + 3);
        proof {
            assert(s =~= seq![c0, c1, c2, c3]);
        }
        ((c0 == 'C' && c1 == 'O' && c2 == 'M') || (c0 == 'L' && c1 == 'P' && c2 == 'T')) && (c3
            == '1' || c3 == '2' || c3 == '3' || c3 == '4' || c3 == '5' || c3 == '6' || c3 == '7'
            || c3 == '8' || c3 == '9')
    } else {
        proof {
            assert(s.len() != 3 && s.len() != 4);
        }
        false
    }
}

/// Whether `p` is one of the filenames reserved on Unix and macOS:
/// `.` or `..`.
fn unix_reserved_match(p: &str, n: usize) -> (b: bool)
    requires
        n == p@.len(),
    ensures
        b == is_unix_reserved(p@),
{
    if n == 1 {
        let c0 = p.get_char(0);
        proof {
            assert(p@ =~= seq![c0]);
            assert(p@ != seq!['.', '.']);
        }
        c0 == '.'
    } else if n == 2 {
        let c0 = p.get_char(0);
        let c1 = p.get_char(1);
        proof {
            assert(p@ =~= seq![c0, c1]);
            assert(p@ != seq!['.']);
        }
        c0 == '.' && c1 == '.'
    } else {
        proof {
            assert(p@.len() != 1 && p@.len() != 2);
        }
        false
    }
}

/// Escapes the given string so that it may be used as a valid filename on
/// the systems named in `mode`.
///
/// Distinct inputs generate distinct outputs, provided the escape
/// character's code point is at most `0xFF` and is not `.` (see
/// `laws::lemma_escape_str_injective`).
///
/// The escape character may be any character that the caller is sure is
/// valid in a filename on the target systems; a good choice is `_`.
///
/// # Returns
///
/// A string in which the escape character and every disallowed character
/// are replaced by the escape character followed by the hexadecimal code
/// of the character, and in which a reserved filename is prefixed with
/// the escape character. The exact transform is `model::escape_spec`.
pub fn escape_str(p: &str, esc: char, mode: Mode) -> (res: String)
    ensures
        res@ == escape_spec(p@, esc, mode),
{
    let n = p.unicode_len();
    let mut out: Vec<char> = Vec::new();
    let mut start: usize = 0;

    if mode.contains(Mode::windows()) {
        match find_last_dot(p, n) {
            Some(k) => {
                if windows_reserved_match(p, 0, k) {
                    out.push(esc);
                    push_str_range(&mut out, p, 0, k);
                    out.push('.');
                    start = k + 1;
                    proof {
                        assert(out@ =~= seq![esc] + p@.subrange(0, k as int) + seq!['.']);
                    }
                }
            },
            None => {
                if windows_reserved_match(p, 0, n) {
                    out.push(esc);
                    push_str_range(&mut out, p, 0, n);
                    proof {
                        assert(p@.subrange(0, n as int) =~= p@);
                        assert(out@ =~= seq![esc] + p@);
                    }
                    return chars_to_string(&out);
                }
            },
        }
    }

    if out.len() == 0 && mode.intersects(Mode::unix().union(Mode::mac())) && unix_reserved_match(
        p,
        n,
    ) {
        out.push(esc);
        push_str_range(&mut out, p, 0, n);
        proof {
            assert(p@.subrange(0, n as int) =~= p@);
            assert(out@ =~= seq![esc] + p@);
        }
        return chars_to_string(&out);
    }

    let ghost pre = out@;
    let mut i: usize = start;
    proof {
        assert(pre + escape_chars(p@.subrange(start as int, start as int), esc, mode) =~= pre);
    }
    while i < n
        invariant
            start <= i <= n,
            n == p@.len(),
            out@ == pre + escape_chars(p@.subrange(start as int, i as int), esc, mode),
        decreases n - i,
    {
        let c = p.get_char(i);
        if c == esc || !allowed(c, mode) {
            push_escape_sequence(&mut out, c, esc);
        } else {
            out.push(c);
        }
        proof {
            lemma_escape_chars_push(p@.subrange(start as int, i as int), p@[i as int], esc, mode);
            assert(p@.subrange(start as int, i as int).push(p@[i as int]) =~= p@.subrange(
                start as int,
                i + 1,
            ));
            assert(out@ =~= pre + escape_chars(p@.subrange(start as int, i + 1), esc, mode));
        }
        i += 1;
    }

    let ghost assembled = out@;

    if mode.intersects(Mode::windows()) {
        match out.pop() {
            Some(c) => {
                if !allowed(c, Mode::windows_end()) {
                    push_escape_sequence(&mut out, c, esc);
                    proof {
                        assert(out@ =~= windows_end_fixup(assembled, esc, mode));
                    }
                } else {
                    out.push(c);
                    proof {
                        assert(out@ =~= assembled);
                        assert(out@ =~= windows_end_fixup(assembled, esc, mode));
                    }
                }
            },
            None => {
                proof {
                    assert(out@ =~= windows_end_fixup(assembled, esc, mode));
                }
            },
        }
    }

    proof {
        if start != 0 {
            assert(out@ == escape_spec(p@, esc, mode));
        } else {
            assert(p@.subrange(0, n as int) =~= p@);
            assert(out@ == escape_spec(p@, esc, mode));
        }
    }
    chars_to_string(&out)
}

} // verus!
