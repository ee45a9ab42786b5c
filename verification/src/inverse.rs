//! A ghost decoder for the escaping transform, used only to prove that the
//! transform is injective: every output decodes back to its input, so two
//! distinct inputs cannot share an output. Nothing here is executable; the
//! library offers no unescape operation.

use vstd::prelude::*;

use crate::mode::Mode;
use crate::model::escape_chars;
use crate::model::escape_sequence;
use crate::model::escaped_char;
use crate::model::hex_code;
use crate::model::hex_digit;
use crate::model::hex_digits;
use crate::model::escape_spec;
use crate::model::is_windows_reserved;
use crate::model::last_dot_index;
use crate::model::lemma_escape_chars_push;
use crate::model::lemma_last_dot_props;
use crate::model::unix_reserved_case;
use crate::model::windows_stem_case;
use crate::model::windows_whole_case;
use crate::model::needs_escape;
use crate::model::spec_allowed;
use crate::model::windows_end_fixup;
use crate::model::TABLE_LEN;

verus! {

/// The value of an uppercase hexadecimal digit character, or `-1` when
/// the character is no such digit.
pub open spec fn hex_value(c: char) -> int {
    if c == '0' {
        0x0
    } else if c == '1' {
        0x1
    } else if c == '2' {
        0x2
    } else if c == '3' {
        0x3
    } else if c == '4' {
        0x4
    } else if c == '5' {
        0x5
    } else if c == '6' {
        0x6
    } else if c == '7' {
        0x7
    } else if c == '8' {
        0x8
    } else if c == '9' {
        0x9
    } else if c == 'A' {
        0xA
    } else if c == 'B' {
        0xB
    } else if c == 'C' {
        0xC
    } else if c == 'D' {
        0xD
    } else if c == 'E' {
        0xE
    } else if c == 'F' {
        0xF
    } else {
        -1
    }
}

/// Whether `c` is an uppercase hexadecimal digit character.
pub open spec fn is_hex_digit(c: char) -> bool {
    hex_value(c) >= 0
}

/// Decodes the output of the per-character stage: a character other than
/// the escape character stands for itself, and the escape character
/// followed by two hexadecimal digits stands for the character with that
/// code point. Returns `None` for text that no input produces.
pub open spec fn decode_escaped(z: Seq<char>, esc: char) -> Option<Seq<char>>
    decreases z.len(),
{
    if z.len() == 0 {
        Some(Seq::empty())
    } else if z[0] != esc {
        match decode_escaped(z.drop_first(), esc) {
            Some(t) => Some(seq![z[0]] + t),
            None => None,
        }
    } else if z.len() >= 3 && is_hex_digit(z[1]) && is_hex_digit(z[2]) {
        match decode_escaped(z.skip(3), esc) {
            Some(t) => Some(seq![(((hex_value(z[1]) * 16 + hex_value(z[2])) as u32) as char)] + t),
            None => None,
        }
    } else {
        None
    }
}

/// Reading back the digit of a value below sixteen yields that value.
pub proof fn lemma_hex_digit_value(d: int)
    requires
        0 <= d < 16,
    ensures
        hex_value(hex_digit(d)) == d,
{
}

/// For a code point of at most `0xFF`, the padded hexadecimal code is
/// exactly two digits.
pub proof fn lemma_hex_code_two_digits(n: nat)
    requires
        n <= 255,
    ensures
        hex_code(n) == seq![hex_digit(n as int / 16), hex_digit(n as int % 16)],
{
    if n < 16 {
        assert(hex_code(n) =~= seq![hex_digit(n as int / 16), hex_digit(n as int % 16)]);
    } else {
        let q = n / 16;
        let r = n % 16;
        assert(q < 16);
        assert(hex_digits(q) == seq![hex_digit(q as int)]);
        assert(hex_digits(n) == hex_digits(q) + seq![hex_digit(r as int)]);
        assert(hex_digits(n) =~= seq![hex_digit(n as int / 16), hex_digit(n as int % 16)]);
    }
}

/// Decoding an escape sequence for `c` yields `c` and continues with the
/// remaining text.
proof fn lemma_decode_escape_sequence(c: char, esc: char, rest: Seq<char>)
    requires
        c as u32 <= 255,
    ensures
        decode_escaped(escape_sequence(c, esc) + rest, esc) == match decode_escaped(rest, esc) {
            Some(t) => Some(seq![c] + t),
            None => None::<Seq<char>>,
        },
{
    let n = (c as u32) as nat;
    lemma_hex_code_two_digits(n);
    lemma_hex_digit_value(n as int / 16);
    lemma_hex_digit_value(n as int % 16);
    let z = escape_sequence(c, esc) + rest;
    assert(z.len() == 3 + rest.len());
    assert(z[0] == esc);
    assert(z[1] == hex_digit(n as int / 16));
    assert(z[2] == hex_digit(n as int % 16));
    assert(hex_value(z[1]) * 16 + hex_value(z[2]) == n) by {
        assert(n as int / 16 * 16 + n as int % 16 == n);
    }
    vstd::utf8::char_u32_cast(c, c as u32);
    assert(((hex_value(z[1]) * 16 + hex_value(z[2])) as u32) as char == c);
    assert(z.skip(3) =~= rest);
}

/// Decoding a literal character yields that character and continues with
/// the remaining text.
proof fn lemma_decode_literal(c: char, esc: char, rest: Seq<char>)
    requires
        c != esc,
    ensures
        decode_escaped(seq![c] + rest, esc) == match decode_escaped(rest, esc) {
            Some(t) => Some(seq![c] + t),
            None => None::<Seq<char>>,
        },
{
    let z = seq![c] + rest;
    assert(z[0] == c);
    assert(z.drop_first() =~= rest);
}

/// The output of the per-character stage, followed by any further text,
/// decodes to the stage's input followed by whatever the further text
/// decodes to.
pub proof fn lemma_decode_escape_chars(s: Seq<char>, esc: char, mode: Mode, tail: Seq<char>)
    requires
        esc as u32 <= 255,
    ensures
        decode_escaped(escape_chars(s, esc, mode) + tail, esc) == match decode_escaped(tail, esc) {
            Some(t) => Some(s + t),
            None => None::<Seq<char>>,
        },
    decreases s.len(),
{
    if s.len() == 0 {
        assert(escape_chars(s, esc, mode) + tail =~= tail);
        if decode_escaped(tail, esc) is Some {
            assert(s + decode_escaped(tail, esc)->Some_0 =~= decode_escaped(tail, esc)->Some_0);
        }
    } else {
        let c = s[0];
        let rest = s.drop_first();
        lemma_decode_escape_chars(rest, esc, mode, tail);
        let mid = escape_chars(rest, esc, mode) + tail;
        if needs_escape(c, esc, mode) {
            if c != esc {
                assert((c as u32) < TABLE_LEN);
            }
            lemma_decode_escape_sequence(c, esc, mid);
            assert(escape_chars(s, esc, mode) + tail =~= escape_sequence(c, esc) + mid);
        } else {
            lemma_decode_literal(c, esc, mid);
            assert(escape_chars(s, esc, mode) + tail =~= seq![c] + mid);
        }
        if decode_escaped(tail, esc) is Some {
            let t = decode_escaped(tail, esc)->Some_0;
            assert(seq![c] + (rest + t) =~= s + t);
        }
    }
}

/// The output of the per-character stage alone decodes to its input.
pub proof fn lemma_decode_escape_chars_exact(s: Seq<char>, esc: char, mode: Mode)
    requires
        esc as u32 <= 255,
    ensures
        decode_escaped(escape_chars(s, esc, mode), esc) == Some(s),
{
    lemma_decode_escape_chars(s, esc, mode, Seq::empty());
    assert(escape_chars(s, esc, mode) + Seq::<char>::empty() =~= escape_chars(s, esc, mode));
    assert(s + Seq::<char>::empty() =~= s);
}

/// A hexadecimal digit character is allowed at the end of a Windows
/// filename.
proof fn lemma_hex_digit_windows_end_allowed(d: int)
    requires
        0 <= d < 16,
    ensures
        spec_allowed(hex_digit(d), Mode::spec_windows_end()),
{
    assert(0u32 & 0x8u32 == 0) by (bit_vector);
}

/// The output of the per-character stage followed by the
/// trailing-character fixup decodes to the stage's input.
pub proof fn lemma_decode_fixup(s: Seq<char>, esc: char, mode: Mode)
    requires
        esc as u32 <= 255,
    ensures
        decode_escaped(windows_end_fixup(escape_chars(s, esc, mode), esc, mode), esc) == Some(s),
{
    let e = escape_chars(s, esc, mode);
    if s.len() == 0 {
        assert(e.len() == 0);
        lemma_decode_escape_chars_exact(s, esc, mode);
    } else {
        let s0 = s.drop_last();
        let c = s.last();
        assert(s0.push(c) =~= s);
        lemma_escape_chars_push(s0, c, esc, mode);
        let e0 = escape_chars(s0, esc, mode);
        if needs_escape(c, esc, mode) {
            // The last emitted character is a hexadecimal digit, which the
            // fixup never touches.
            if c != esc {
                assert((c as u32) < TABLE_LEN);
            }
            let n = (c as u32) as nat;
            lemma_hex_code_two_digits(n);
            let last = hex_digit(n as int % 16);
            assert(escape_sequence(c, esc).len() == 3);
            assert(escape_sequence(c, esc).last() == last);
            assert(e.last() == last);
            lemma_hex_digit_windows_end_allowed(n as int % 16);
            assert(windows_end_fixup(e, esc, mode) == e);
            lemma_decode_escape_chars_exact(s, esc, mode);
        } else {
            assert(e =~= e0 + seq![c]);
            assert(e.last() == c);
            if mode.spec_intersects(Mode::spec_windows()) && !spec_allowed(
                c,
                Mode::spec_windows_end(),
            ) {
                // The fixup replaces the final literal character by its
                // escape sequence; the result still decodes to `s`.
                assert((c as u32) < TABLE_LEN);
                assert(e.drop_last() =~= e0);
                lemma_decode_escape_chars(s0, esc, mode, escape_sequence(c, esc));
                lemma_decode_escape_sequence(c, esc, Seq::empty());
                assert(escape_sequence(c, esc) + Seq::<char>::empty() =~= escape_sequence(c, esc));
                assert(seq![c] + Seq::<char>::empty() =~= seq![c]);
                assert(decode_escaped(escape_sequence(c, esc), esc) == Some(seq![c]));
                assert(windows_end_fixup(e, esc, mode) == e0 + escape_sequence(c, esc));
                assert(s0 + seq![c] =~= s);
            } else {
                assert(windows_end_fixup(e, esc, mode) == e);
                lemma_decode_escape_chars_exact(s, esc, mode);
            }
        }
    }
}

/// The digit sequence of a value is never empty.
proof fn lemma_hex_digits_len(n: nat)
    ensures
        hex_digits(n).len() >= 1,
    decreases n,
{
    if n >= 16 {
        lemma_hex_digits_len(n / 16);
    }
}

/// The per-character stage emits at least one character per input
/// character.
proof fn lemma_escape_chars_len(s: Seq<char>, esc: char, mode: Mode)
    ensures
        escape_chars(s, esc, mode).len() >= s.len(),
    decreases s.len(),
{
    if s.len() > 0 {
        lemma_escape_chars_len(s.drop_first(), esc, mode);
        if needs_escape(s[0], esc, mode) {
            lemma_hex_digits_len((s[0] as u32) as nat);
        }
    }
}

/// An escape sequence has at least three characters and ends in a
/// hexadecimal digit, which the Windows trailing rule accepts.
pub proof fn lemma_escape_sequence_end(c: char, esc: char)
    ensures
        escape_sequence(c, esc).len() >= 3,
        spec_allowed(escape_sequence(c, esc).last(), Mode::spec_windows_end()),
{
    let n = (c as u32) as nat;
    if n < 16 {
        assert(hex_code(n) == seq!['0'] + hex_digits(n));
        assert(hex_code(n).last() == hex_digit(n as int));
        lemma_hex_digit_windows_end_allowed(n as int);
    } else {
        lemma_hex_digits_len(n / 16);
        assert(hex_code(n).last() == hex_digit((n % 16) as int));
        lemma_hex_digit_windows_end_allowed((n % 16) as int);
    }
    assert(escape_sequence(c, esc).last() == hex_code(n).last());
}

/// The trailing-character fixup never shortens the text, and only
/// rewrites its final part: a fixup of `pre + z` with `z` nonempty is
/// `pre` followed by the fixup of `z`.
pub proof fn lemma_fixup_concat(pre: Seq<char>, z: Seq<char>, esc: char, mode: Mode)
    requires
        z.len() > 0,
    ensures
        windows_end_fixup(pre + z, esc, mode) == pre + windows_end_fixup(z, esc, mode),
{
    assert((pre + z).last() == z.last());
    if mode.spec_intersects(Mode::spec_windows()) && !spec_allowed(
        z.last(),
        Mode::spec_windows_end(),
    ) {
        assert((pre + z).drop_last() =~= pre + z.drop_last());
        assert((pre + z.drop_last()) + escape_sequence(z.last(), esc) =~= pre + (z.drop_last()
            + escape_sequence(z.last(), esc)));
    }
}

/// The shape of an output of the scanning stage and fixup: it is empty
/// only for an empty input, and when it begins with the escape character,
/// two hexadecimal digits follow.
pub proof fn lemma_plain_shape(s: Seq<char>, esc: char, mode: Mode)
    requires
        esc as u32 <= 255,
    ensures
        ({
            let out = windows_end_fixup(escape_chars(s, esc, mode), esc, mode);
            &&& (out.len() == 0 ==> s.len() == 0)
            &&& (out.len() > 0 && out[0] == esc ==> out.len() >= 3 && is_hex_digit(out[1])
                && is_hex_digit(out[2]))
        }),
{
    let e = escape_chars(s, esc, mode);
    let out = windows_end_fixup(e, esc, mode);
    lemma_escape_chars_len(s, esc, mode);
    if s.len() == 0 {
        assert(e.len() == 0);
        assert(out.len() == 0);
    } else {
        let u = escaped_char(s[0], esc, mode);
        let e1 = escape_chars(s.drop_first(), esc, mode);
        assert(e == u + e1);
        if needs_escape(s[0], esc, mode) {
            // The first unit is an escape sequence of exactly three
            // characters, two of them hexadecimal digits.
            if s[0] != esc {
                assert((s[0] as u32) < TABLE_LEN);
            }
            let n = (s[0] as u32) as nat;
            lemma_hex_code_two_digits(n);
            lemma_hex_digit_value(n as int / 16);
            lemma_hex_digit_value(n as int % 16);
            assert(u.len() == 3);
            assert(e[0] == esc && is_hex_digit(e[1]) && is_hex_digit(e[2]));
            if out != e {
                // The fixup fired, so the final character of `e` was a
                // space or dot; it cannot lie inside the first unit, whose
                // final character is a hexadecimal digit.
                assert(e.last() == if e1.len() > 0 {
                    e1.last()
                } else {
                    u.last()
                });
                lemma_hex_digit_windows_end_allowed(n as int % 16);
                assert(e1.len() > 0);
                assert(e.len() >= 4);
                assert(out == e.drop_last() + escape_sequence(e.last(), esc));
                assert(out[0] == e[0] && out[1] == e[1] && out[2] == e[2]);
            }
        } else {
            assert(e[0] == s[0] && s[0] != esc);
            if out != e {
                assert(out == e.drop_last() + escape_sequence(e.last(), esc));
                if e.len() == 1 {
                    // Only the replacement remains: an escape sequence.
                    let c = e.last();
                    assert((c as u32) < TABLE_LEN);
                    let n = (c as u32) as nat;
                    lemma_hex_code_two_digits(n);
                    lemma_hex_digit_value(n as int / 16);
                    lemma_hex_digit_value(n as int % 16);
                    assert(e.drop_last() =~= Seq::<char>::empty());
                    assert(out =~= escape_sequence(c, esc));
                    assert(out[0] == esc && is_hex_digit(out[1]) && is_hex_digit(out[2]));
                    assert(out.len() == 3);
                } else {
                    assert(out[0] == e[0]);
                    assert(out[0] != esc);
                }
            }
        }
    }
}

/// The shape of a Windows-reserved basename: three or four characters,
/// the second of which is `O`, `R`, `U` or `P` (never a hexadecimal
/// digit), and the third of which separates the three-character names
/// (`N`, `X`, `L`) from the four-character ones (`M`, `T`).
pub proof fn lemma_windows_reserved_shape(s: Seq<char>)
    requires
        is_windows_reserved(s),
    ensures
        3 <= s.len() <= 4,
        s[1] == 'O' || s[1] == 'R' || s[1] == 'U' || s[1] == 'P',
        !is_hex_digit(s[1]),
        s.len() == 3 ==> s[2] == 'N' || s[2] == 'X' || s[2] == 'L',
        s.len() == 4 ==> s[2] == 'M' || s[2] == 'T',
{
}

/// Recovers the input of `escape_spec` from its output: the inverse
/// transform, total on actual outputs for a fixed escape character and
/// mode. Text that no input produces may decode to `None`.
pub open spec fn recover(out: Seq<char>, esc: char, mode: Mode) -> Option<Seq<char>> {
    if out.len() == 0 || out[0] != esc || (out.len() >= 3 && is_hex_digit(out[1]) && is_hex_digit(
        out[2],
    )) {
        // No reserved-name stage fired: undo the per-character stage.
        decode_escaped(out, esc)
    } else if out.len() <= 5 {
        // A whole reserved name, passed through after the marker.
        Some(out.drop_first())
    } else {
        // A reserved stem, the dot, and the escaped remainder.
        let stem = if is_windows_reserved(out.subrange(1, 4)) {
            out.subrange(1, 4)
        } else {
            out.subrange(1, 5)
        };
        let p = 1 + stem.len() as int;
        if out[p] == esc {
            Some(stem + seq!['.'])
        } else {
            match decode_escaped(out.subrange(p + 1, out.len() as int), esc) {
                Some(r) => Some(stem + seq!['.'] + r),
                None => None,
            }
        }
    }
}

/// A three-character prefix of a four-character reserved name is not
/// itself a reserved name.
proof fn lemma_stem_prefix_not_reserved(stem: Seq<char>)
    requires
        is_windows_reserved(stem),
        stem.len() == 4,
    ensures
        !is_windows_reserved(stem.subrange(0, 3)),
{
    lemma_windows_reserved_shape(stem);
    let t = stem.subrange(0, 3);
    if is_windows_reserved(t) {
        lemma_windows_reserved_shape(t);
        assert(t[2] == stem[2]);
    }
}

/// Recovering the output of the whole transform yields its input: the
/// transform loses nothing, for an escape character with a code point of
/// at most `0xFF` that is not itself the dot.
pub proof fn lemma_recover_escape_spec(s: Seq<char>, esc: char, mode: Mode)
    requires
        esc as u32 <= 255,
        esc != '.',
    ensures
        recover(escape_spec(s, esc, mode), esc, mode) == Some(s),
{
    let out = escape_spec(s, esc, mode);
    if windows_stem_case(s, mode) {
        let i = last_dot_index(s);
        lemma_last_dot_props(s);
        let stem = s.subrange(0, i);
        let rest = s.subrange(i + 1, s.len() as int);
        lemma_windows_reserved_shape(stem);
        assert(s =~= stem + seq!['.'] + rest);
        let pre = seq![esc] + stem + seq!['.'];
        let base = seq![esc] + stem + seq!['.'] + escape_chars(rest, esc, mode);
        assert(mode.spec_intersects(Mode::spec_windows()));
        if rest.len() == 0 {
            assert(escape_chars(rest, esc, mode) == Seq::<char>::empty());
            assert(base =~= pre);
            assert(base.last() == '.');
            assert('.' as u32 == 0x2E);
            assert(0x8u32 & 0x8u32 != 0) by (bit_vector);
            assert(!spec_allowed('.', Mode::spec_windows_end()));
            assert(out == base.drop_last() + escape_sequence('.', esc));
            assert(base.drop_last() =~= seq![esc] + stem);
            lemma_hex_code_two_digits(('.' as u32) as nat);
            assert(escape_sequence('.', esc) =~= seq![esc, hex_digit(0x2), hex_digit(0xE)]);
            assert(out =~= seq![esc] + stem + seq![esc, '2', 'E']);
            assert(out.len() == 4 + stem.len());
            assert(out[0] == esc);
            assert(out[1] == stem[0] && out[2] == stem[1]);
            assert(out.len() > 5);
            let found = if is_windows_reserved(out.subrange(1, 4)) {
                out.subrange(1, 4)
            } else {
                out.subrange(1, 5)
            };
            if stem.len() == 3 {
                assert(out.subrange(1, 4) =~= stem);
                assert(found == stem);
            } else {
                assert(out.subrange(1, 4) =~= stem.subrange(0, 3));
                lemma_stem_prefix_not_reserved(stem);
                assert(out.subrange(1, 5) =~= stem);
                assert(found == stem);
            }
            let p = 1 + found.len() as int;
            assert(out[p] == esc);
            assert(recover(out, esc, mode) == Some(stem + seq!['.']));
            assert(stem + seq!['.'] =~= s);
        } else {
            lemma_escape_chars_len(rest, esc, mode);
            let z0 = escape_chars(rest, esc, mode);
            assert(base =~= pre + z0);
            lemma_fixup_concat(pre, z0, esc, mode);
            let z = windows_end_fixup(z0, esc, mode);
            assert(out == pre + z);
            assert(z.len() >= 1) by {
                if z != z0 {
                    assert(z == z0.drop_last() + escape_sequence(z0.last(), esc));
                }
            }
            assert(out.len() == 2 + stem.len() + z.len());
            assert(out.len() > 5);
            assert(out[0] == esc);
            assert(out[1] == stem[0] && out[2] == stem[1]);
            lemma_windows_reserved_shape(stem);
            let found = if is_windows_reserved(out.subrange(1, 4)) {
                out.subrange(1, 4)
            } else {
                out.subrange(1, 5)
            };
            if stem.len() == 3 {
                assert(out.subrange(1, 4) =~= stem);
                assert(found == stem);
            } else {
                assert(out.subrange(1, 4) =~= stem.subrange(0, 3));
                lemma_stem_prefix_not_reserved(stem);
                assert(out.subrange(1, 5) =~= stem);
                assert(found == stem);
            }
            let p = 1 + found.len() as int;
            assert(out[p] == '.');
            assert(out[p] != esc);
            assert(out.subrange(p + 1, out.len() as int) =~= z);
            lemma_decode_fixup(rest, esc, mode);
            assert(decode_escaped(z, esc) == Some(rest));
            assert(recover(out, esc, mode) == Some(stem + seq!['.'] + rest));
        }
    } else if windows_whole_case(s, mode) {
        lemma_windows_reserved_shape(s);
        assert(out == seq![esc] + s);
        assert(out.len() == 1 + s.len());
        assert(out[0] == esc && out[1] == s[0] && out[2] == s[1]);
        assert(!(out.len() >= 3 && is_hex_digit(out[1]) && is_hex_digit(out[2])));
        assert(out.len() <= 5);
        assert(out.drop_first() =~= s);
    } else if unix_reserved_case(s, mode) {
        assert(out == seq![esc] + s);
        assert(out[0] == esc);
        assert(out[1] == s[0]);
        assert(s[0] == '.');
        assert(!is_hex_digit('.'));
        assert(out.len() <= 3);
        assert(out.drop_first() =~= s);
    } else {
        assert(out == windows_end_fixup(escape_chars(s, esc, mode), esc, mode));
        lemma_plain_shape(s, esc, mode);
        lemma_decode_fixup(s, esc, mode);
        if out.len() == 0 {
            assert(recover(out, esc, mode) == decode_escaped(out, esc));
        } else if out[0] != esc {
            assert(recover(out, esc, mode) == decode_escaped(out, esc));
        } else {
            assert(out.len() >= 3 && is_hex_digit(out[1]) && is_hex_digit(out[2]));
            assert(recover(out, esc, mode) == decode_escaped(out, esc));
        }
    }
}

} // verus!
