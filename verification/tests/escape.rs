use filesan::{allowed, escape_str, unix_reserved, windows_reserved, Mode};

#[test]
fn esc() {
    assert_eq!(
        escape_str("\x00hello/the_re.txt:.", '_', Mode::none()),
        "\x00hello/the_5Fre.txt:."
    );
    assert_eq!(
        escape_str("\x00hello/the_re.txt:.", '_', Mode::unix()),
        "_00hello_2Fthe_5Fre.txt:."
    );
    assert_eq!(
        escape_str("\x00hello/the_re.txt:.", '_', Mode::windows()),
        "_00hello_2Fthe_5Fre.txt_3A_2E"
    );
    assert_eq!(
        escape_str("\x00hello/the_re.txt:.", '_', Mode::mac()),
        "_00hello_2Fthe_5Fre.txt_3A."
    );

    assert_eq!(escape_str("..", '_', Mode::unix()), "_..");
    assert_eq!(escape_str("..", '_', Mode::windows()), "._2E");
    assert_eq!(escape_str("..", '_', Mode::mac()), "_..");

    assert_eq!(escape_str("...txt", '_', Mode::unix()), "...txt");
    assert_eq!(escape_str("...txt", '_', Mode::windows()), "...txt");
    assert_eq!(escape_str("...txt", '_', Mode::mac()), "...txt");

    assert_eq!(escape_str("NUL", '_', Mode::unix()), "NUL");
    assert_eq!(escape_str("NUL", '_', Mode::windows()), "_NUL");
    assert_eq!(escape_str("NUL", '_', Mode::mac()), "NUL");

    assert_eq!(escape_str("NUL.txt", '_', Mode::unix()), "NUL.txt");
    assert_eq!(escape_str("NUL.txt", '_', Mode::windows()), "_NUL.txt");
    assert_eq!(escape_str("NUL.txt", '_', Mode::mac()), "NUL.txt");
}

#[test]
fn reserved_stem_with_empty_rest() {
    // The stem stage emits the dot, and the trailing fixup then escapes it.
    assert_eq!(escape_str("NUL.", '_', Mode::windows()), "_NUL_2E");
    assert_eq!(escape_str("COM9.c", '_', Mode::windows()), "_COM9.c");
    assert_eq!(escape_str("LPT1", '_', Mode::windows()), "_LPT1");
    assert_eq!(escape_str("CON", '_', Mode::windows()), "_CON");
    // Case-sensitive: lowercase names are not reserved.
    assert_eq!(escape_str("con", '_', Mode::windows()), "con");
    // A reserved name inside a longer stem does not match.
    assert_eq!(escape_str("CONX.txt", '_', Mode::windows()), "CONX.txt");
    // A stem that itself contains a dot is not reserved either; the
    // trailing fixup still rewrites the final dot.
    assert_eq!(escape_str("NUL..", '_', Mode::all()), "NUL._2E");
    assert_eq!(escape_str("COM1", '_', Mode::all()), "_COM1");
}

#[test]
fn single_dot_under_windows() {
    // "." is not Windows-reserved; the trailing fixup escapes the dot.
    assert_eq!(escape_str(".", '_', Mode::windows()), "_2E");
    assert_eq!(escape_str(".", '_', Mode::unix()), "_.");
    assert_eq!(escape_str(".", '_', Mode::mac()), "_.");
    // With every rule set active the Unix stage still short-circuits,
    // because "." triggers no Windows reserved basename.
    assert_eq!(escape_str(".", '_', Mode::all()), "_.");
    assert_eq!(escape_str("..", '_', Mode::all()), "_..");
}

#[test]
fn trailing_space_and_windows_end() {
    assert_eq!(escape_str("ab ", '_', Mode::windows()), "ab_20");
    assert_eq!(escape_str("ab ", '_', Mode::unix()), "ab ");
    // The narrow trailing rule set escapes spaces and dots everywhere in
    // the scan, and runs no fixup of its own.
    assert_eq!(escape_str("a.b ", '_', Mode::windows_end()), "a_2Eb_20");
}

#[test]
fn escape_character_is_escaped() {
    assert_eq!(escape_str("a_b", '_', Mode::none()), "a_5Fb");
    assert_eq!(escape_str("_", '_', Mode::none()), "_5F");
    assert_eq!(escape_str("__", '-', Mode::none()), "__");
}

#[test]
fn boundary_code_points_pass_through() {
    // Code points at or beyond the table's range are never classified.
    assert_eq!(escape_str("caf\u{e9}", '_', Mode::all()), "caf\u{e9}");
    assert_eq!(escape_str("\u{1F600}", '_', Mode::all()), "\u{1F600}");
    assert!(allowed('\u{80}', Mode::all()));
    assert!(allowed('\u{1F600}', Mode::all()));
}

#[test]
fn fixed_point_on_allowed_input() {
    assert_eq!(escape_str("hello.txt", '-', Mode::all()), "hello.txt");
    assert_eq!(escape_str("", '_', Mode::all()), "");
    assert_eq!(escape_str("", '_', Mode::none()), "");
}

#[test]
fn distinct_inputs_distinct_outputs() {
    let pairs = [
        ("NUL", "_NUL"),
        ("a", "_61"),
        (".", ".."),
        ("the_re", "the\x00re"),
        ("ab ", "ab_20"),
    ];
    for (a, b) in pairs.iter() {
        for mode in [
            Mode::none(),
            Mode::unix(),
            Mode::windows(),
            Mode::mac(),
            Mode::all(),
        ] {
            assert_ne!(escape_str(a, '_', mode), escape_str(b, '_', mode));
        }
    }
}

#[test]
fn injectivity_needs_a_sane_escape_character() {
    // The uniqueness guarantee asks for an escape character that is not
    // the dot and has a code point of at most 0xFF. Outside those bounds
    // distinct inputs can genuinely collide: with the dot as the marker,
    // the reserved-stem separator is ambiguous,
    assert_eq!(
        escape_str("NUL.", '.', Mode::windows()),
        escape_str("NUL.2E", '.', Mode::windows())
    );
    // and with a multi-digit escape character, its own escape sequence is
    // ambiguous against a two-digit one followed by a literal.
    assert_eq!(
        escape_str("\u{1bc}", '\u{1bc}', Mode::windows()),
        escape_str("\x1bC", '\u{1bc}', Mode::windows())
    );
}

#[test]
fn allowed_characters_by_mode() {
    assert!(!allowed('\x00', Mode::unix()));
    assert!(!allowed('/', Mode::unix()));
    assert!(allowed(':', Mode::unix()));
    assert!(!allowed(':', Mode::mac()));
    assert!(!allowed(':', Mode::windows()));
    assert!(!allowed('"', Mode::windows()));
    assert!(!allowed('\\', Mode::windows()));
    assert!(!allowed('|', Mode::windows()));
    assert!(!allowed('?', Mode::windows()));
    assert!(!allowed('*', Mode::windows()));
    assert!(!allowed('<', Mode::windows()));
    assert!(!allowed('>', Mode::windows()));
    assert!(!allowed('\x1F', Mode::windows()));
    assert!(allowed('\x01', Mode::unix()));
    assert!(allowed('.', Mode::windows()));
    assert!(!allowed('.', Mode::windows_end()));
    assert!(!allowed(' ', Mode::windows_end()));
    assert!(allowed('a', Mode::all()));
    assert!(allowed('a', Mode::windows_end()));
}

#[test]
fn multi_digit_escape_sequences() {
    // An escape character with a two-digit code point above the table.
    assert_eq!(
        escape_str("\u{fc}", '\u{fc}', Mode::none()),
        "\u{fc}FC"
    );
    // An escape character whose code point needs five digits.
    assert_eq!(
        escape_str("\u{1F600}", '\u{1F600}', Mode::none()),
        "\u{1F600}1F600"
    );
}

#[test]
fn reserved_name_lists() {
    let win = windows_reserved();
    assert_eq!(win.len(), 22);
    assert_eq!(win[0], "CON");
    assert_eq!(win[3], "NUL");
    assert_eq!(win[4], "COM1");
    assert_eq!(win[21], "LPT9");
    let unix = unix_reserved();
    assert_eq!(unix, vec![".", ".."]);
}

#[test]
fn mode_operations() {
    assert!(Mode::all().contains(Mode::unix()));
    assert!(Mode::all().contains(Mode::windows()));
    assert!(Mode::all().contains(Mode::mac()));
    assert!(!Mode::all().contains(Mode::windows_end()));
    assert!(!Mode::windows().contains(Mode::all()));
    assert!(Mode::unix().union(Mode::windows()).union(Mode::mac()) == Mode::all());
    assert!(Mode::unix().intersects(Mode::all()));
    assert!(!Mode::unix().intersects(Mode::mac()));
    assert!(!Mode::none().intersects(Mode::all()));
    assert!(Mode::windows().contains(Mode::none()));
}
