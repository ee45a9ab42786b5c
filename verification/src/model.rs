//! The mathematical model of the escaping algorithm: the character
//! classification table, the reserved-name sets, and the transform that
//! `escape_str` implements, all as spec functions over `Seq<char>`.

use vstd::prelude::*;

use crate::mode::Mode;

verus! {

/// The number of code points the classification table covers. Code points
/// at or beyond this bound are always allowed under every mode.
pub const TABLE_LEN: u32 = 128;

/// The classification table: the set of modes (as bits) under which code
/// point `n` is disallowed as a filename character.
///
/// Entries, by code point:
/// - `NUL`, `SI` and `/` are disallowed on Unix, Windows and macOS;
/// - every other control character below `0x20` is disallowed on Windows;
/// - space and `.` are disallowed at the end of a Windows filename;
/// - `"`, `*`, `<`, `>`, `?`, `\` and `|` are disallowed on Windows;
/// - `:` is disallowed on Windows and macOS;
/// - everything else below `128` is allowed everywhere.
pub open spec fn disallowed_flags(n: int) -> u32 {
    if n == 0x00 || n == 0x0F || n == 0x2F {
        0x7
    } else if 0x01 <= n < 0x20 {
        0x2
    } else if n == 0x20 || n == 0x2E {
        0x8
    } else if n == 0x22 || n == 0x2A || n == 0x3C || n == 0x3E || n == 0x3F || n == 0x5C
        || n == 0x7C {
        0x2
    } else if n == 0x3A {
        0x6
    } else {
        0x0
    }
}

/// Whether the character `c` is permitted as a filename character under
/// every rule set named in `mode`. Code points outside the classification
/// table's range are always permitted.
pub open spec fn spec_allowed(c: char, mode: Mode) -> bool {
    c as u32 >= TABLE_LEN || disallowed_flags((c as u32) as int) & mode.bits == 0
}

/// Whether `s` is one of the basenames reserved on Windows, compared
/// case-sensitively: `CON`, `PRN`, `AUX`, `NUL`, `COM1`-`COM9`,
/// `LPT1`-`LPT9`.
pub open spec fn is_windows_reserved(s: Seq<char>) -> bool {
    ||| s == seq!['C', 'O', 'N']
    ||| s == seq!['P', 'R', 'N']
    ||| s == seq!['A', 'U', 'X']
    ||| s == seq!['N', 'U', 'L']
    ||| s == seq!['C', 'O', 'M', '1']
    ||| s == seq!['C', 'O', 'M', '2']
    ||| s == seq!['C', 'O', 'M', '3']
    ||| s == seq!['C', 'O', 'M', '4']
    ||| s == seq!['C', 'O', 'M', '5']
    ||| s == seq!['C', 'O', 'M', '6']
    ||| s == seq!['C', 'O', 'M', '7']
    ||| s == seq!['C', 'O', 'M', '8']
    ||| s == seq!['C', 'O', 'M', '9']
    ||| s == seq!['L', 'P', 'T', '1']
    ||| s == seq!['L', 'P', 'T', '2']
    ||| s == seq!['L', 'P', 'T', '3']
    ||| s == seq!['L', 'P', 'T', '4']
    ||| s == seq!['L', 'P', 'T', '5']
    ||| s == seq!['L', 'P', 'T', '6']
    ||| s == seq!['L', 'P', 'T', '7']
    ||| s == seq!['L', 'P', 'T', '8']
    ||| s == seq!['L', 'P', 'T', '9']
}

/// Whether `s` is one of the filenames reserved on Unix and macOS:
/// `.` and `..`.
pub open spec fn is_unix_reserved(s: Seq<char>) -> bool {
    s == seq!['.'] || s == seq!['.', '.']
}

/// The basenames reserved on Windows, in order.
pub open spec fn windows_reserved_names() -> Seq<Seq<char>> {
    seq![
        seq!['C', 'O', 'N'],
        seq!['P', 'R', 'N'],
        seq!['A', 'U', 'X'],
        seq!['N', 'U', 'L'],
        seq!['C', 'O', 'M', '1'],
        seq!['C', 'O', 'M', '2'],
        seq!['C', 'O', 'M', '3'],
        seq!['C', 'O', 'M', '4'],
        seq!['C', 'O', 'M', '5'],
        seq!['C', 'O', 'M', '6'],
        seq!['C', 'O', 'M', '7'],
        seq!['C', 'O', 'M', '8'],
        seq!['C', 'O', 'M', '9'],
        seq!['L', 'P', 'T', '1'],
        seq!['L', 'P', 'T', '2'],
        seq!['L', 'P', 'T', '3'],
        seq!['L', 'P', 'T', '4'],
        seq!['L', 'P', 'T', '5'],
        seq!['L', 'P', 'T', '6'],
        seq!['L', 'P', 'T', '7'],
        seq!['L', 'P', 'T', '8'],
        seq!['L', 'P', 'T', '9'],
    ]
}

/// The filenames reserved on Unix and macOS, in order.
pub open spec fn unix_reserved_names() -> Seq<Seq<char>> {
    seq![seq!['.'], seq!['.', '.']]
}

/// A sequence is a reserved Windows basename exactly when the ordered
/// list of reserved names holds it.
pub proof fn lemma_windows_reserved_names(s: Seq<char>)
    ensures
        is_windows_reserved(s) <==> windows_reserved_names().contains(s),
{
    if windows_reserved_names().contains(s) {
        let i = choose|i: int|
            0 <= i < windows_reserved_names().len() && windows_reserved_names()[i] == s;
        assert(is_windows_reserved(s));
    }
}

/// A sequence is a reserved Unix/macOS filename exactly when the ordered
/// list of reserved names holds it.
pub proof fn lemma_unix_reserved_names(s: Seq<char>)
    ensures
        is_unix_reserved(s) <==> unix_reserved_names().contains(s),
{
    if is_unix_reserved(s) {
        if s == seq!['.'] {
            assert(unix_reserved_names()[0] == s);
        } else {
            assert(unix_reserved_names()[1] == s);
        }
    }
    if unix_reserved_names().contains(s) {
        let i = choose|i: int|
            0 <= i < unix_reserved_names().len() && unix_reserved_names()[i] == s;
        assert(is_unix_reserved(s));
    }
}

/// The uppercase hexadecimal digit for a value below sixteen.
pub open spec fn hex_digit(d: int) -> char {
    if d == 0x0 {
        '0'
    } else if d == 0x1 {
        '1'
    } else if d == 0x2 {
        '2'
    } else if d == 0x3 {
        '3'
    } else if d == 0x4 {
        '4'
    } else if d == 0x5 {
        '5'
    } else if d == 0x6 {
        '6'
    } else if d == 0x7 {
        '7'
    } else if d == 0x8 {
        '8'
    } else if d == 0x9 {
        '9'
    } else if d == 0xA {
        'A'
    } else if d == 0xB {
        'B'
    } else if d == 0xC {
        'C'
    } else if d == 0xD {
        'D'
    } else if d == 0xE {
        'E'
    } else {
        'F'
    }
}

/// The uppercase hexadecimal digits of `n`, most significant first, with
/// no leading zeros.
pub open spec fn hex_digits(n: nat) -> Seq<char>
    decreases n,
{
    if n < 16 {
        seq![hex_digit(n as int)]
    } else {
        hex_digits(n / 16) + seq![hex_digit((n % 16) as int)]
    }
}

/// The uppercase hexadecimal digits of `n`, zero-padded to at least two
/// digits: what `{:02X}` formatting produces.
pub open spec fn hex_code(n: nat) -> Seq<char> {
    if n < 16 {
        seq!['0'] + hex_digits(n)
    } else {
        hex_digits(n)
    }
}

/// The escape sequence for the character `c`: the escape character
/// followed by the hexadecimal code of `c`'s code point.
pub open spec fn escape_sequence(c: char, esc: char) -> Seq<char> {
    seq![esc] + hex_code((c as u32) as nat)
}

/// Whether the per-character stage escapes `c`: it does when `c` is the
/// escape character itself, or is not allowed under `mode`.
pub open spec fn needs_escape(c: char, esc: char, mode: Mode) -> bool {
    c == esc || !spec_allowed(c, mode)
}

/// What the per-character stage emits for the single character `c`.
pub open spec fn escaped_char(c: char, esc: char, mode: Mode) -> Seq<char> {
    if needs_escape(c, esc, mode) {
        escape_sequence(c, esc)
    } else {
        seq![c]
    }
}

/// The per-character stage: every character of `s` that is the escape
/// character or is disallowed under `mode` is replaced by its escape
/// sequence; every other character is kept unchanged.
pub open spec fn escape_chars(s: Seq<char>, esc: char, mode: Mode) -> Seq<char>
    decreases s.len(),
{
    if s.len() == 0 {
        Seq::empty()
    } else {
        escaped_char(s[0], esc, mode) + escape_chars(s.drop_first(), esc, mode)
    }
}

/// The Windows trailing-character fixup: when `mode` intersects the
/// Windows rule set and the assembled output ends in a character that is
/// disallowed at the end of a Windows filename (space or dot), that last
/// character is replaced by its escape sequence.
pub open spec fn windows_end_fixup(s: Seq<char>, esc: char, mode: Mode) -> Seq<char> {
    if mode.spec_intersects(Mode::spec_windows()) && s.len() > 0 && !spec_allowed(
        s.last(),
        Mode::spec_windows_end(),
    ) {
        s.drop_last() + escape_sequence(s.last(), esc)
    } else {
        s
    }
}

/// The index of the last `.` in `s`, or `-1` when `s` has none.
pub open spec fn last_dot_index(s: Seq<char>) -> int
    decreases s.len(),
{
    if s.len() == 0 {
        -1
    } else if s.last() == '.' {
        s.len() - 1
    } else {
        last_dot_index(s.drop_last())
    }
}

/// Whether the Windows reserved-basename stage matches a stem: `mode`
/// contains the Windows rule set, `s` has a `.`, and everything before
/// the last `.` is a reserved basename.
pub open spec fn windows_stem_case(s: Seq<char>, mode: Mode) -> bool {
    &&& mode.spec_contains(Mode::spec_windows())
    &&& last_dot_index(s) >= 0
    &&& is_windows_reserved(s.subrange(0, last_dot_index(s)))
}

/// Whether the Windows reserved-basename stage matches the whole input:
/// `mode` contains the Windows rule set, `s` has no `.`, and `s` is a
/// reserved basename.
pub open spec fn windows_whole_case(s: Seq<char>, mode: Mode) -> bool {
    &&& mode.spec_contains(Mode::spec_windows())
    &&& last_dot_index(s) < 0
    &&& is_windows_reserved(s)
}

/// Whether the Unix/macOS reserved-name stage matches: neither Windows
/// reserved-basename case fired, `mode` intersects the Unix or macOS rule
/// set, and the input is `.` or `..`.
pub open spec fn unix_reserved_case(s: Seq<char>, mode: Mode) -> bool {
    &&& !windows_stem_case(s, mode)
    &&& !windows_whole_case(s, mode)
    &&& mode.spec_intersects(Mode::spec_unix().spec_union(Mode::spec_mac()))
    &&& is_unix_reserved(s)
}

/// What `escape_str` returns, as a function of the input's characters,
/// the escape character and the mode.
///
/// Four ordered stages:
/// 1. when `mode` contains the Windows rule set and the stem before the
///    last `.` is a Windows-reserved basename, the output is the escape
///    character, the stem and the dot, followed by the remaining stages
///    applied to the rest; when the whole input (with no `.`) is such a
///    basename, the output is the escape character followed by the input,
///    and the remaining stages are skipped;
/// 2. otherwise, when `mode` intersects the Unix or macOS rule set and
///    the input is `.` or `..`, the output is the escape character
///    followed by the input, and the remaining stages are skipped;
/// 3. per-character escaping of the text still under consideration;
/// 4. the Windows trailing-character fixup on the assembled output.
pub open spec fn escape_spec(s: Seq<char>, esc: char, mode: Mode) -> Seq<char> {
    if windows_stem_case(s, mode) {
        let i = last_dot_index(s);
        windows_end_fixup(
            seq![esc] + s.subrange(0, i) + seq!['.'] + escape_chars(
                s.subrange(i + 1, s.len() as int),
                esc,
                mode,
            ),
            esc,
            mode,
        )
    } else if windows_whole_case(s, mode) {
        seq![esc] + s
    } else if unix_reserved_case(s, mode) {
        seq![esc] + s
    } else {
        windows_end_fixup(escape_chars(s, esc, mode), esc, mode)
    }
}

/// The per-character stage distributes over appending one character.
pub proof fn lemma_escape_chars_push(s: Seq<char>, c: char, esc: char, mode: Mode)
    ensures
        escape_chars(s.push(c), esc, mode) == escape_chars(s, esc, mode) + escaped_char(
            c,
            esc,
            mode,
        ),
    decreases s.len(),
{
    if s.len() == 0 {
        assert(s.push(c).len() == 1);
        assert(s.push(c)[0] == c);
        assert(s.push(c).drop_first() =~= Seq::<char>::empty());
        assert(escape_chars(Seq::<char>::empty(), esc, mode) == Seq::<char>::empty());
        assert(escape_chars(s.push(c), esc, mode) =~= escape_chars(s, esc, mode) + escaped_char(
            c,
            esc,
            mode,
        ));
    } else {
        assert(s.push(c).len() == s.len() + 1);
        assert(s.push(c)[0] == s[0]);
        assert(s.push(c).drop_first() =~= s.drop_first().push(c));
        lemma_escape_chars_push(s.drop_first(), c, esc, mode);
        assert(escape_chars(s.push(c), esc, mode) =~= escape_chars(s, esc, mode) + escaped_char(
            c,
            esc,
            mode,
        ));
    }
}

/// When `s[k]` is a `.` and no later character is, `k` is the index of
/// the last `.`.
pub proof fn lemma_last_dot_at(s: Seq<char>, k: int)
    requires
        0 <= k < s.len(),
        s[k] == '.',
        forall|j: int| k < j < s.len() ==> s[j] != '.',
    ensures
        last_dot_index(s) == k,
    decreases s.len(),
{
    if k < s.len() - 1 {
        lemma_last_dot_at(s.drop_last(), k);
    }
}

/// A found last `.` lies in range and is a `.`.
pub proof fn lemma_last_dot_props(s: Seq<char>)
    ensures
        last_dot_index(s) >= 0 ==> last_dot_index(s) < s.len() && s[last_dot_index(s)] == '.',
    decreases s.len(),
{
    if s.len() > 0 && s.last() != '.' {
        lemma_last_dot_props(s.drop_last());
    }
}

/// When no character of `s` is a `.`, there is no last `.`.
pub proof fn lemma_no_dot(s: Seq<char>)
    requires
        forall|j: int| 0 <= j < s.len() ==> s[j] != '.',
    ensures
        last_dot_index(s) == -1,
    decreases s.len(),
{
    if s.len() > 0 {
        lemma_no_dot(s.drop_last());
    }
}

} // verus!
