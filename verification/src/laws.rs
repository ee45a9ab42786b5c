//! The guarantees of the escaping transform, each stated and proved over
//! the model that `escape_str`'s contract uses.

use vstd::prelude::*;

use crate::mode::Mode;
use crate::model::escape_chars;
use crate::model::escape_sequence;
use crate::model::escape_spec;
use crate::model::escaped_char;
use crate::model::needs_escape;
use crate::model::spec_allowed;
use crate::model::unix_reserved_case;
use crate::model::windows_end_fixup;
use crate::model::windows_stem_case;
use crate::model::windows_whole_case;
use crate::model::TABLE_LEN;
use crate::inverse::lemma_escape_sequence_end;
use crate::inverse::lemma_fixup_concat;
use crate::inverse::lemma_recover_escape_spec;
use crate::inverse::recover;

verus! {

/// Injectivity: for a fixed escape character and mode, distinct inputs
/// produce distinct outputs, provided the escape character's code point
/// is at most `0xFF` and is not the dot. (Beyond those bounds the
/// guarantee genuinely fails: with a multi-digit escape character, or
/// with the dot doubling as the marker and the separator, two inputs can
/// collide.)
pub proof fn lemma_escape_str_injective(a: Seq<char>, b: Seq<char>, esc: char, mode: Mode)
    requires
        esc as u32 <= 255,
        esc != '.',
        a != b,
    ensures
        escape_spec(a, esc, mode) != escape_spec(b, esc, mode),
{
    if escape_spec(a, esc, mode) == escape_spec(b, esc, mode) {
        lemma_recover_escape_spec(a, esc, mode);
        lemma_recover_escape_spec(b, esc, mode);
        assert(recover(escape_spec(a, esc, mode), esc, mode) == Some(a));
        assert(recover(escape_spec(b, esc, mode), esc, mode) == Some(b));
    }
}

/// The per-character stage keeps a text with nothing to escape unchanged.
proof fn lemma_escape_chars_identity(s: Seq<char>, esc: char, mode: Mode)
    requires
        forall|i: int| 0 <= i < s.len() ==> !needs_escape(#[trigger] s[i], esc, mode),
    ensures
        escape_chars(s, esc, mode) == s,
    decreases s.len(),
{
    if s.len() > 0 {
        assert(!needs_escape(s[0], esc, mode));
        lemma_escape_chars_identity(s.drop_first(), esc, mode);
        assert(seq![s[0]] + s.drop_first() =~= s);
    }
}

/// Allowed-character fixed point: when every character of the input is
/// allowed under `mode` and differs from the escape character, the input
/// does not end in a character the Windows trailing rule rejects (when
/// that rule is active), and no reserved-name stage matches, the input
/// comes back unchanged.
pub proof fn lemma_allowed_fixed_point(s: Seq<char>, esc: char, mode: Mode)
    requires
        forall|i: int|
            0 <= i < s.len() ==> spec_allowed(#[trigger] s[i], mode) && s[i] != esc,
        mode.spec_intersects(Mode::spec_windows()) && s.len() > 0 ==> spec_allowed(
            s.last(),
            Mode::spec_windows_end(),
        ),
        !windows_stem_case(s, mode),
        !windows_whole_case(s, mode),
        !unix_reserved_case(s, mode),
    ensures
        escape_spec(s, esc, mode) == s,
{
    assert(forall|i: int| 0 <= i < s.len() ==> !needs_escape(#[trigger] s[i], esc, mode));
    lemma_escape_chars_identity(s, esc, mode);
    assert(windows_end_fixup(s, esc, mode) == s);
}

/// The per-character stage distributes over concatenation.
pub proof fn lemma_escape_chars_concat(a: Seq<char>, b: Seq<char>, esc: char, mode: Mode)
    ensures
        escape_chars(a + b, esc, mode) == escape_chars(a, esc, mode) + escape_chars(b, esc, mode),
    decreases a.len(),
{
    if a.len() == 0 {
        assert(a + b =~= b);
        assert(escape_chars(a, esc, mode) + escape_chars(b, esc, mode) =~= escape_chars(
            b,
            esc,
            mode,
        ));
    } else {
        assert((a + b)[0] == a[0]);
        assert((a + b).drop_first() =~= a.drop_first() + b);
        lemma_escape_chars_concat(a.drop_first(), b, esc, mode);
        assert(escape_chars(a + b, esc, mode) =~= escape_chars(a, esc, mode) + escape_chars(
            b,
            esc,
            mode,
        ));
    }
}

/// What the per-character stage makes of the character at one position:
/// the text splits there, and the character's own emission stands between
/// the two escaped parts.
pub proof fn lemma_escape_chars_at(s: Seq<char>, i: int, esc: char, mode: Mode)
    requires
        0 <= i < s.len(),
    ensures
        escape_chars(s, esc, mode) == escape_chars(s.subrange(0, i), esc, mode) + escaped_char(
            s[i],
            esc,
            mode,
        ) + escape_chars(s.subrange(i + 1, s.len() as int), esc, mode),
{
    let front = s.subrange(0, i);
    let back = s.subrange(i + 1, s.len() as int);
    assert(s =~= front + (seq![s[i]] + back));
    lemma_escape_chars_concat(front, seq![s[i]] + back, esc, mode);
    lemma_escape_chars_concat(seq![s[i]], back, esc, mode);
    assert(seq![s[i]].drop_first() =~= Seq::<char>::empty());
    assert(escape_chars(Seq::<char>::empty(), esc, mode) == Seq::<char>::empty());
    assert(escape_chars(seq![s[i]], esc, mode) =~= escaped_char(s[i], esc, mode));
    assert(escape_chars(s, esc, mode) =~= escape_chars(front, esc, mode) + escaped_char(
        s[i],
        esc,
        mode,
    ) + escape_chars(back, esc, mode));
}

/// Escape-character escaping: every literal occurrence of the escape
/// character in the scanned text is replaced by the escape character
/// followed by its own hexadecimal code.
pub proof fn lemma_escape_char_escaped(s: Seq<char>, i: int, esc: char, mode: Mode)
    requires
        0 <= i < s.len(),
        s[i] == esc,
    ensures
        escape_chars(s, esc, mode) == escape_chars(s.subrange(0, i), esc, mode) + escape_sequence(
            esc,
            esc,
        ) + escape_chars(s.subrange(i + 1, s.len() as int), esc, mode),
{
    lemma_escape_chars_at(s, i, esc, mode);
}

/// The trailing-character fixup leaves a middle part of the text alone
/// when the part ends in a character the trailing rule accepts.
proof fn lemma_fixup_after_unit(
    front: Seq<char>,
    unit: Seq<char>,
    back: Seq<char>,
    esc: char,
    mode: Mode,
)
    requires
        unit.len() > 0,
        spec_allowed(unit.last(), Mode::spec_windows_end()),
    ensures
        windows_end_fixup(front + unit + back, esc, mode) == front + unit + windows_end_fixup(
            back,
            esc,
            mode,
        ),
{
    if back.len() == 0 {
        assert(front + unit + back =~= front + unit);
        assert((front + unit).last() == unit.last());
        assert(windows_end_fixup(back, esc, mode) == back);
    } else {
        assert(front + unit + back =~= (front + unit) + back);
        lemma_fixup_concat(front + unit, back, esc, mode);
    }
}

/// Escape-character escaping, stated of the whole transform: when no
/// reserved-name stage matches, a literal occurrence of the escape
/// character splits the output into the escaped text before it, the
/// escape character's own escape sequence, and the escaped (and, at the
/// very end, fixed-up) text after it.
pub proof fn lemma_escape_char_escaped_full(s: Seq<char>, i: int, esc: char, mode: Mode)
    requires
        !windows_stem_case(s, mode),
        !windows_whole_case(s, mode),
        !unix_reserved_case(s, mode),
        0 <= i < s.len(),
        s[i] == esc,
    ensures
        escape_spec(s, esc, mode) == escape_chars(s.subrange(0, i), esc, mode) + escape_sequence(
            esc,
            esc,
        ) + windows_end_fixup(
            escape_chars(s.subrange(i + 1, s.len() as int), esc, mode),
            esc,
            mode,
        ),
{
    lemma_escape_chars_at(s, i, esc, mode);
    lemma_escape_sequence_end(esc, esc);
    lemma_fixup_after_unit(
        escape_chars(s.subrange(0, i), esc, mode),
        escape_sequence(esc, esc),
        escape_chars(s.subrange(i + 1, s.len() as int), esc, mode),
        esc,
        mode,
    );
}

/// Boundary: a code point at or beyond the classification table's range
/// is allowed under every mode.
pub proof fn lemma_table_boundary_allowed(c: char, mode: Mode)
    requires
        c as u32 >= TABLE_LEN,
    ensures
        spec_allowed(c, mode),
{
}

/// Boundary: a character at or beyond the classification table's range,
/// other than the escape character itself, passes the per-character stage
/// unchanged, whatever the mode.
pub proof fn lemma_table_boundary_not_escaped(s: Seq<char>, i: int, esc: char, mode: Mode)
    requires
        0 <= i < s.len(),
        s[i] as u32 >= TABLE_LEN,
        s[i] != esc,
    ensures
        escape_chars(s, esc, mode) == escape_chars(s.subrange(0, i), esc, mode) + seq![s[i]]
            + escape_chars(s.subrange(i + 1, s.len() as int), esc, mode),
{
    lemma_escape_chars_at(s, i, esc, mode);
}

/// Boundary, stated of the whole transform: when no reserved-name stage
/// matches, a character beyond the table's range (other than the escape
/// character) stands unchanged between the escaped text before it and the
/// escaped (and, at the very end, fixed-up) text after it.
pub proof fn lemma_table_boundary_full(s: Seq<char>, i: int, esc: char, mode: Mode)
    requires
        !windows_stem_case(s, mode),
        !windows_whole_case(s, mode),
        !unix_reserved_case(s, mode),
        0 <= i < s.len(),
        s[i] as u32 >= TABLE_LEN,
        s[i] != esc,
    ensures
        escape_spec(s, esc, mode) == escape_chars(s.subrange(0, i), esc, mode) + seq![s[i]]
            + windows_end_fixup(
            escape_chars(s.subrange(i + 1, s.len() as int), esc, mode),
            esc,
            mode,
        ),
{
    lemma_escape_chars_at(s, i, esc, mode);
    lemma_fixup_after_unit(
        escape_chars(s.subrange(0, i), esc, mode),
        seq![s[i]],
        escape_chars(s.subrange(i + 1, s.len() as int), esc, mode),
        esc,
        mode,
    );
}

} // verus!
