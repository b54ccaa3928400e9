//! Canonical escaping of event field text for the JSON payload, and the
//! matching string parser. Escaping replaces the quote, the backslash and
//! the thirty-two control characters; everything else passes through, so
//! the payload of an event stays on a single line whatever the fields hold.

use vstd::prelude::*;

verus! {

/// The characters that the payload never carries unescaped: the thirty-two
/// control characters that would also break line framing.
pub open spec fn is_ctl(c: char) -> bool {
    (c as u32) < 32
}

/// The lowercase hexadecimal digit of value `v` (meaningful for `0 <= v < 16`).
pub open spec fn hex_digit(v: int) -> char {
    if v == 0 {
        '0'
    } else if v == 1 {
        '1'
    } else if v == 2 {
        '2'
    } else if v == 3 {
        '3'
    } else if v == 4 {
        '4'
    } else if v == 5 {
        '5'
    } else if v == 6 {
        '6'
    } else if v == 7 {
        '7'
    } else if v == 8 {
        '8'
    } else if v == 9 {
        '9'
    } else if v == 10 {
        'a'
    } else if v == 11 {
        'b'
    } else if v == 12 {
        'c'
    } else if v == 13 {
        'd'
    } else if v == 14 {
        'e'
    } else {
        'f'
    }
}

/// The value of a lowercase hexadecimal digit, and -1 for any other character.
pub open spec fn hex_val(c: char) -> int {
    if c == '0' {
        0
    } else if c == '1' {
        1
    } else if c == '2' {
        2
    } else if c == '3' {
        3
    } else if c == '4' {
        4
    } else if c == '5' {
        5
    } else if c == '6' {
        6
    } else if c == '7' {
        7
    } else if c == '8' {
        8
    } else if c == '9' {
        9
    } else if c == 'a' {
        10
    } else if c == 'b' {
        11
    } else if c == 'c' {
        12
    } else if c == 'd' {
        13
    } else if c == 'e' {
        14
    } else if c == 'f' {
        15
    } else {
        -1
    }
}

/// A character is a lowercase hexadecimal digit.
pub open spec fn is_hex(c: char) -> bool {
    hex_val(c) >= 0
}

/// The control character with code point `v` (meaningful for `0 <= v < 32`).
pub open spec fn ctl_char(v: int) -> char {
    if v == 0 {
        '\u{0}'
    } else if v == 1 {
        '\u{1}'
    } else if v == 2 {
        '\u{2}'
    } else if v == 3 {
        '\u{3}'
    } else if v == 4 {
        '\u{4}'
    } else if v == 5 {
        '\u{5}'
    } else if v == 6 {
        '\u{6}'
    } else if v == 7 {
        '\u{7}'
    } else if v == 8 {
        '\u{8}'
    } else if v == 9 {
        '\u{9}'
    } else if v == 10 {
        '\u{a}'
    } else if v == 11 {
        '\u{b}'
    } else if v == 12 {
        '\u{c}'
    } else if v == 13 {
        '\u{d}'
    } else if v == 14 {
        '\u{e}'
    } else if v == 15 {
        '\u{f}'
    } else if v == 16 {
        '\u{10}'
    } else if v == 17 {
        '\u{11}'
    } else if v == 18 {
        '\u{12}'
    } else if v == 19 {
        '\u{13}'
    } else if v == 20 {
        '\u{14}'
    } else if v == 21 {
        '\u{15}'
    } else if v == 22 {
        '\u{16}'
    } else if v == 23 {
        '\u{17}'
    } else if v == 24 {
        '\u{18}'
    } else if v == 25 {
        '\u{19}'
    } else if v == 26 {
        '\u{1a}'
    } else if v == 27 {
        '\u{1b}'
    } else if v == 28 {
        '\u{1c}'
    } else if v == 29 {
        '\u{1d}'
    } else if v == 30 {
        '\u{1e}'
    } else {
        '\u{1f}'
    }
}

/// The canonical escape of one character: `\"` for the quote, `\\` for the
/// backslash, `\u00xx` for a control character, the character itself otherwise.
pub open spec fn esc_char(c: char) -> Seq<char> {
    if c == '"' {
        seq!['\\', '"']
    } else if c == '\\' {
        seq!['\\', '\\']
    } else if is_ctl(c) {
        seq!['\\', 'u', '0', '0', hex_digit((c as u32) as int / 16), hex_digit((c as u32) as int % 16)]
    } else {
        seq![c]
    }
}

/// The canonical escape of a string, character by character.
pub open spec fn esc_str(s: Seq<char>) -> Seq<char>
    decreases s.len(),
{
    if s.len() == 0 {
        Seq::empty()
    } else {
        esc_char(s[0]) + esc_str(s.skip(1))
    }
}

/// Prepends one decoded character to the outcome of parsing the rest.
pub open spec fn parse_cons(c: char, rest: Option<(Seq<char>, Seq<char>)>) -> Option<(Seq<char>, Seq<char>)> {
    match rest {
        None => None,
        Some((t, r)) => Some((seq![c] + t, r)),
    }
}

/// Parses an escaped string up to and including its closing quote, accepting
/// exactly the canonical escapes that `esc_str` produces. On success it yields
/// the decoded characters and what follows the closing quote.
pub open spec fn parse_jstring(s: Seq<char>) -> Option<(Seq<char>, Seq<char>)>
    decreases s.len(),
{
    if s.len() == 0 {
        None
    } else if s[0] == '"' {
        Some((Seq::empty(), s.skip(1)))
    } else if s[0] == '\\' {
        if s.len() >= 2 && (s[1] == '"' || s[1] == '\\') {
            parse_cons(s[1], parse_jstring(s.skip(2)))
        } else if s.len() >= 6 && s[1] == 'u' && s[2] == '0' && s[3] == '0' && is_hex(s[4]) && is_hex(
            s[5],
        ) && hex_val(s[4]) * 16 + hex_val(s[5]) < 32 {
            parse_cons(ctl_char(hex_val(s[4]) * 16 + hex_val(s[5])), parse_jstring(s.skip(6)))
        } else {
            None
        }
    } else if is_ctl(s[0]) {
        None
    } else {
        parse_cons(s[0], parse_jstring(s.skip(1)))
    }
}

/// A lowercase hexadecimal digit is recovered from its value.
proof fn lemma_hex_digit_val(c: char)
    requires
        is_hex(c),
    ensures
        hex_digit(hex_val(c)) == c,
{
}

/// A control character is recovered from its code point.
proof fn lemma_ctl_char_of_code(c: char)
    requires
        is_ctl(c),
    ensures
        ctl_char((c as u32) as int) == c,
        0 <= (c as u32) as int / 16 < 2,
        0 <= (c as u32) as int % 16 < 16,
{
}

/// The code point of a recovered control character is the value it was
/// recovered from.
proof fn lemma_ctl_char_code(v: int)
    requires
        0 <= v < 32,
    ensures
        (ctl_char(v) as u32) as int == v,
        ctl_char(v) != '"',
        ctl_char(v) != '\\',
{
}

/// Escaping distributes over concatenation.
pub proof fn lemma_esc_str_concat(s: Seq<char>, t: Seq<char>)
    ensures
        esc_str(s + t) == esc_str(s) + esc_str(t),
    decreases s.len(),
{
    if s.len() == 0 {
        assert(s + t =~= t);
        assert(esc_str(s) + esc_str(t) =~= esc_str(t));
    } else {
        lemma_esc_str_concat(s.skip(1), t);
        assert((s + t).skip(1) =~= s.skip(1) + t);
        assert((s + t)[0] == s[0]);
        assert(esc_str(s + t) == esc_char(s[0]) + (esc_str(s.skip(1)) + esc_str(t)));
        assert(esc_char(s[0]) + (esc_str(s.skip(1)) + esc_str(t)) =~= (esc_char(s[0]) + esc_str(
            s.skip(1),
        )) + esc_str(t));
    }
}

/// The escape of one character is the escape of the string of that character.
pub proof fn lemma_esc_str_single(c: char)
    ensures
        esc_str(seq![c]) == esc_char(c),
{
    assert(seq![c].skip(1) =~= Seq::<char>::empty());
    assert(esc_char(c) + esc_str(seq![c].skip(1)) =~= esc_char(c));
}

/// An escaped string carries no control character, in particular no newline.
pub proof fn lemma_esc_str_no_ctl(s: Seq<char>)
    ensures
        forall|i: int| 0 <= i < esc_str(s).len() ==> !is_ctl(#[trigger] esc_str(s)[i]),
    decreases s.len(),
{
    if s.len() > 0 {
        lemma_esc_str_no_ctl(s.skip(1));
        assert forall|i: int| 0 <= i < esc_str(s).len() implies !is_ctl(#[trigger] esc_str(s)[i]) by {
            let e = esc_char(s[0]);
            if i < e.len() {
                assert(esc_str(s)[i] == e[i]);
                if s[0] == '"' || s[0] == '\\' || is_ctl(s[0]) {
                    assert(!is_ctl(e[i]));
                } else {
                    assert(e[i] == s[0]);
                }
            } else {
                assert(esc_str(s)[i] == esc_str(s.skip(1))[i - e.len()]);
            }
        }
    }
}

/// Parsing inverts escaping: the escape of `a`, a closing quote, and any
/// tail parse back to exactly `a` and that tail.
pub proof fn lemma_parse_esc(a: Seq<char>, tail: Seq<char>)
    ensures
        parse_jstring(esc_str(a) + seq!['"'] + tail) == Some((a, tail)),
    decreases a.len(),
{
    let s = esc_str(a) + seq!['"'] + tail;
    if a.len() == 0 {
        assert(s =~= seq!['"'] + tail);
        assert(s[0] == '"');
        assert(s.skip(1) =~= tail);
        assert(a =~= Seq::<char>::empty());
    } else {
        let c = a[0];
        let e = esc_char(c);
        let rest = esc_str(a.skip(1)) + seq!['"'] + tail;
        lemma_parse_esc(a.skip(1), tail);
        assert(s =~= e + rest);
        assert(seq![c] + a.skip(1) =~= a);
        if c == '"' {
            assert(s[0] == '\\' && s[1] == '"');
            assert(s.skip(2) =~= rest);
        } else if c == '\\' {
            assert(s[0] == '\\' && s[1] == '\\');
            assert(s.skip(2) =~= rest);
        } else if is_ctl(c) {
            let v = (c as u32) as int;
            lemma_ctl_char_of_code(c);
            assert(s[0] == '\\' && s[1] == 'u' && s[2] == '0' && s[3] == '0');
            assert(s[4] == hex_digit(v / 16) && s[5] == hex_digit(v % 16));
            assert(hex_val(hex_digit(v / 16)) == v / 16);
            assert(hex_val(hex_digit(v % 16)) == v % 16);
            assert(is_hex(s[4]) && is_hex(s[5]));
            assert((v / 16) * 16 + v % 16 == v) by {
                vstd::arithmetic::div_mod::lemma_fundamental_div_mod(v, 16);
            }
            assert(hex_val(s[4]) * 16 + hex_val(s[5]) == v);
            assert(ctl_char(v) == c);
            assert(s.skip(6) =~= rest);
            assert(parse_jstring(s) == parse_cons(c, Some((a.skip(1), tail))));
        } else {
            assert(s[0] == c);
            assert(s[0] != '"' && s[0] != '\\' && !is_ctl(s[0]));
            assert(s.skip(1) =~= rest);
        }
        assert(parse_jstring(s) == Some((a, tail)));
    }
}

/// Parsing is sound: whatever parses was exactly the canonical escape of the
/// parsed characters followed by the closing quote and the remainder.
pub proof fn lemma_parse_sound(s: Seq<char>)
    ensures
        parse_jstring(s) matches Some((a, rest)) ==> s == esc_str(a) + seq!['"'] + rest,
    decreases s.len(),
{
    if s.len() == 0 {
    } else if s[0] == '"' {
        let rest = s.skip(1);
        assert(s =~= esc_str(Seq::<char>::empty()) + seq!['"'] + rest);
    } else if s[0] == '\\' {
        if s.len() >= 2 && (s[1] == '"' || s[1] == '\\') {
            lemma_parse_sound(s.skip(2));
            if parse_jstring(s.skip(2)) is Some {
                let (t, r) = parse_jstring(s.skip(2))->Some_0;
                assert(s.skip(2) == esc_str(t) + seq!['"'] + r);
                lemma_esc_str_concat(seq![s[1]], t);
                lemma_esc_str_single(s[1]);
                assert(seq![s[1]] + t =~= (seq![s[1]] + t));
                assert(esc_char(s[1]) =~= seq!['\\', s[1]]);
                assert(s =~= seq!['\\', s[1]] + s.skip(2));
                assert(s =~= esc_str(seq![s[1]] + t) + seq!['"'] + r);
            }
        } else if s.len() >= 6 && s[1] == 'u' && s[2] == '0' && s[3] == '0' && is_hex(s[4])
            && is_hex(s[5]) && hex_val(s[4]) * 16 + hex_val(s[5]) < 32 {
            lemma_parse_sound(s.skip(6));
            if parse_jstring(s.skip(6)) is Some {
                let (t, r) = parse_jstring(s.skip(6))->Some_0;
                let v = hex_val(s[4]) * 16 + hex_val(s[5]);
                let c = ctl_char(v);
                lemma_ctl_char_code(v);
                assert(is_ctl(c));
                assert((c as u32) as int == v);
                assert(hex_val(s[4]) < 2) by {
                    assert(hex_val(s[5]) >= 0 && hex_val(s[4]) >= 0);
                    assert(hex_val(s[4]) * 16 < 32 - hex_val(s[5]));
                }
                assert(v / 16 == hex_val(s[4]) && v % 16 == hex_val(s[5])) by {
                    vstd::arithmetic::div_mod::lemma_fundamental_div_mod_converse(
                        v,
                        16,
                        hex_val(s[4]),
                        hex_val(s[5]),
                    );
                }
                lemma_hex_digit_val(s[4]);
                lemma_hex_digit_val(s[5]);
                assert(esc_char(c) =~= seq!['\\', 'u', '0', '0', s[4], s[5]]);
                assert(s.skip(6) == esc_str(t) + seq!['"'] + r);
                lemma_esc_str_concat(seq![c], t);
                lemma_esc_str_single(c);
                assert(s =~= seq!['\\', 'u', '0', '0', s[4], s[5]] + s.skip(6));
                assert(s =~= esc_str(seq![c] + t) + seq!['"'] + r);
            }
        }
    } else if is_ctl(s[0]) {
    } else {
        lemma_parse_sound(s.skip(1));
        if parse_jstring(s.skip(1)) is Some {
                let (t, r) = parse_jstring(s.skip(1))->Some_0;
            assert(s.skip(1) == esc_str(t) + seq!['"'] + r);
            lemma_esc_str_concat(seq![s[0]], t);
            lemma_esc_str_single(s[0]);
            assert(esc_char(s[0]) =~= seq![s[0]]);
            assert(s =~= seq![s[0]] + s.skip(1));
            assert(s =~= esc_str(seq![s[0]] + t) + seq!['"'] + r);
        }
    }
}

/// Text without quotes, backslashes or control characters is its own escape:
/// such a contract address or request id stands verbatim in the payload and
/// in the framed line.
pub proof fn lemma_esc_str_plain(s: Seq<char>)
    requires
        forall|i: int| 0 <= i < s.len() ==> s[i] != '"' && s[i] != '\\' && !is_ctl(#[trigger] s[i]),
    ensures
        esc_str(s) == s,
    decreases s.len(),
{
    if s.len() == 0 {
        assert(esc_str(s) =~= s);
    } else {
        assert forall|i: int| 0 <= i < s.skip(1).len() implies s.skip(1)[i] != '"' && s.skip(1)[i]
            != '\\' && !is_ctl(#[trigger] s.skip(1)[i]) by {
            assert(s.skip(1)[i] == s[i + 1]);
        }
        lemma_esc_str_plain(s.skip(1));
        assert(esc_char(s[0]) == seq![s[0]]);
        assert(seq![s[0]] + s.skip(1) =~= s);
    }
}

/// Executable table of `hex_val`.
fn hex_val_exec(c: char) -> (r: Option<u8>)
    ensures
        match r {
            Some(v) => hex_val(c) == v as int && v < 16,
            None => hex_val(c) == -1,
        },
{
    if c == '0' {
        Some(0)
    } else if c == '1' {
        Some(1)
    } else if c == '2' {
        Some(2)
    } else if c == '3' {
        Some(3)
    } else if c == '4' {
        Some(4)
    } else if c == '5' {
        Some(5)
    } else if c == '6' {
        Some(6)
    } else if c == '7' {
        Some(7)
    } else if c == '8' {
        Some(8)
    } else if c == '9' {
        Some(9)
    } else if c == 'a' {
        Some(10)
    } else if c == 'b' {
        Some(11)
    } else if c == 'c' {
        Some(12)
    } else if c == 'd' {
        Some(13)
    } else if c == 'e' {
        Some(14)
    } else if c == 'f' {
        Some(15)
    } else {
        None
    }
}

/// The one-character string of the lowercase hexadecimal digit of value `v`.
pub(crate) fn hex_digit_str(v: u8) -> (r: &'static str)
    requires
        v < 16,
    ensures
        r@ == seq![hex_digit(v as int)],
{
    if v == 0 {
        proof {
            reveal_strlit("0");
            assert("0"@ =~= seq!['0']);
        }
        "0"
    } else if v == 1 {
        proof {
            reveal_strlit("1");
            assert("1"@ =~= seq!['1']);
        }
        "1"
    } else if v == 2 {
        proof {
            reveal_strlit("2");
            assert("2"@ =~= seq!['2']);
        }
        "2"
    } else if v == 3 {
        proof {
            reveal_strlit("3");
            assert("3"@ =~= seq!['3']);
        }
        "3"
    } else if v == 4 {
        proof {
            reveal_strlit("4");
            assert("4"@ =~= seq!['4']);
        }
        "4"
    } else if v == 5 {
        proof {
            reveal_strlit("5");
            assert("5"@ =~= seq!['5']);
        }
        "5"
    } else if v == 6 {
        proof {
            reveal_strlit("6");
            assert("6"@ =~= seq!['6']);
        }
        "6"
    } else if v == 7 {
        proof {
            reveal_strlit("7");
            assert("7"@ =~= seq!['7']);
        }
        "7"
    } else if v == 8 {
        proof {
            reveal_strlit("8");
            assert("8"@ =~= seq!['8']);
        }
        "8"
    } else if v == 9 {
        proof {
            reveal_strlit("9");
            assert("9"@ =~= seq!['9']);
        }
        "9"
    } else if v == 10 {
        proof {
            reveal_strlit("a");
            assert("a"@ =~= seq!['a']);
        }
        "a"
    } else if v == 11 {
        proof {
            reveal_strlit("b");
            assert("b"@ =~= seq!['b']);
        }
        "b"
    } else if v == 12 {
        proof {
            reveal_strlit("c");
            assert("c"@ =~= seq!['c']);
        }
        "c"
    } else if v == 13 {
        proof {
            reveal_strlit("d");
            assert("d"@ =~= seq!['d']);
        }
        "d"
    } else if v == 14 {
        proof {
            reveal_strlit("e");
            assert("e"@ =~= seq!['e']);
        }
        "e"
    } else {
        proof {
            reveal_strlit("f");
            assert("f"@ =~= seq!['f']);
        }
        "f"
    }
}

/// The one-character string of the control character with code point `v`.
fn ctl_str(v: u8) -> (r: &'static str)
    requires
        v < 32,
    ensures
        r@ == seq![ctl_char(v as int)],
{
    if v == 0 {
        proof {
            reveal_strlit("\u{0}");
            assert("\u{0}"@ =~= seq!['\u{0}']);
        }
        "\u{0}"
    } else if v == 1 {
        proof {
            reveal_strlit("\u{1}");
            assert("\u{1}"@ =~= seq!['\u{1}']);
        }
        "\u{1}"
    } else if v == 2 {
        proof {
            reveal_strlit("\u{2}");
            assert("\u{2}"@ =~= seq!['\u{2}']);
        }
        "\u{2}"
    } else if v == 3 {
        proof {
            reveal_strlit("\u{3}");
            assert("\u{3}"@ =~= seq!['\u{3}']);
        }
        "\u{3}"
    } else if v == 4 {
        proof {
            reveal_strlit("\u{4}");
            assert("\u{4}"@ =~= seq!['\u{4}']);
        }
        "\u{4}"
    } else if v == 5 {
        proof {
            reveal_strlit("\u{5}");
            assert("\u{5}"@ =~= seq!['\u{5}']);
        }
        "\u{5}"
    } else if v == 6 {
        proof {
            reveal_strlit("\u{6}");
            assert("\u{6}"@ =~= seq!['\u{6}']);
        }
        "\u{6}"
    } else if v == 7 {
        proof {
            reveal_strlit("\u{7}");
            assert("\u{7}"@ =~= seq!['\u{7}']);
        }
        "\u{7}"
    } else if v == 8 {
        proof {
            reveal_strlit("\u{8}");
            assert("\u{8}"@ =~= seq!['\u{8}']);
        }
        "\u{8}"
    } else if v == 9 {
        proof {
            reveal_strlit("\u{9}");
            assert("\u{9}"@ =~= seq!['\u{9}']);
        }
        "\u{9}"
    } else if v == 10 {
        proof {
            reveal_strlit("\u{a}");
            assert("\u{a}"@ =~= seq!['\u{a}']);
        }
        "\u{a}"
    } else if v == 11 {
        proof {
            reveal_strlit("\u{b}");
            assert("\u{b}"@ =~= seq!['\u{b}']);
        }
        "\u{b}"
    } else if v == 12 {
        proof {
            reveal_strlit("\u{c}");
            assert("\u{c}"@ =~= seq!['\u{c}']);
        }
        "\u{c}"
    } else if v == 13 {
        proof {
            reveal_strlit("\u{d}");
            assert("\u{d}"@ =~= seq!['\u{d}']);
        }
        "\u{d}"
    } else if v == 14 {
        proof {
            reveal_strlit("\u{e}");
            assert("\u{e}"@ =~= seq!['\u{e}']);
        }
        "\u{e}"
    } else if v == 15 {
        proof {
            reveal_strlit("\u{f}");
            assert("\u{f}"@ =~= seq!['\u{f}']);
        }
        "\u{f}"
    } else if v == 16 {
        proof {
            reveal_strlit("\u{10}");
            assert("\u{10}"@ =~= seq!['\u{10}']);
        }
        "\u{10}"
    } else if v == 17 {
        proof {
            reveal_strlit("\u{11}");
            assert("\u{11}"@ =~= seq!['\u{11}']);
        }
        "\u{11}"
    } else if v == 18 {
        proof {
            reveal_strlit("\u{12}");
            assert("\u{12}"@ =~= seq!['\u{12}']);
        }
        "\u{12}"
    } else if v == 19 {
        proof {
            reveal_strlit("\u{13}");
            assert("\u{13}"@ =~= seq!['\u{13}']);
        }
        "\u{13}"
    } else if v == 20 {
        proof {
            reveal_strlit("\u{14}");
            assert("\u{14}"@ =~= seq!['\u{14}']);
        }
        "\u{14}"
    } else if v == 21 {
        proof {
            reveal_strlit("\u{15}");
            assert("\u{15}"@ =~= seq!['\u{15}']);
        }
        "\u{15}"
    } else if v == 22 {
        proof {
            reveal_strlit("\u{16}");
            assert("\u{16}"@ =~= seq!['\u{16}']);
        }
        "\u{16}"
    } else if v == 23 {
        proof {
            reveal_strlit("\u{17}");
            assert("\u{17}"@ =~= seq!['\u{17}']);
        }
        "\u{17}"
    } else if v == 24 {
        proof {
            reveal_strlit("\u{18}");
            assert("\u{18}"@ =~= seq!['\u{18}']);
        }
        "\u{18}"
    } else if v == 25 {
        proof {
            reveal_strlit("\u{19}");
            assert("\u{19}"@ =~= seq!['\u{19}']);
        }
        "\u{19}"
    } else if v == 26 {
        proof {
            reveal_strlit("\u{1a}");
            assert("\u{1a}"@ =~= seq!['\u{1a}']);
        }
        "\u{1a}"
    } else if v == 27 {
        proof {
            reveal_strlit("\u{1b}");
            assert("\u{1b}"@ =~= seq!['\u{1b}']);
        }
        "\u{1b}"
    } else if v == 28 {
        proof {
            reveal_strlit("\u{1c}");
            assert("\u{1c}"@ =~= seq!['\u{1c}']);
        }
        "\u{1c}"
    } else if v == 29 {
        proof {
            reveal_strlit("\u{1d}");
            assert("\u{1d}"@ =~= seq!['\u{1d}']);
        }
        "\u{1d}"
    } else if v == 30 {
        proof {
            reveal_strlit("\u{1e}");
            assert("\u{1e}"@ =~= seq!['\u{1e}']);
        }
        "\u{1e}"
    } else {
        proof {
            reveal_strlit("\u{1f}");
            assert("\u{1f}"@ =~= seq!['\u{1f}']);
        }
        "\u{1f}"
    }
}


/// `lit` stands in `s` at position `from`.
pub open spec fn has_lit_at(s: Seq<char>, from: int, lit: Seq<char>) -> bool {
    from + lit.len() <= s.len() && s.subrange(from, from + lit.len()) == lit
}

/// Compares the characters of `s` from position `from` with `lit`.
pub(crate) fn starts_with_lit(s: &str, from: usize, lit: &str) -> (r: bool)
    requires
        from <= s@.len(),
    ensures
        r == has_lit_at(s@, from as int, lit@),
{
    let n = s.unicode_len();
    let ln = lit.unicode_len();
    if n - from < ln {
        return false;
    }
    let mut j: usize = 0;
    while j < ln
        invariant
            n == s@.len(),
            ln == lit@.len(),
            from + ln <= n,
            j <= ln,
            forall|k: int| 0 <= k < j ==> s@[from + k] == lit@[k],
        decreases ln - j,
    {
        if s.get_char(from + j) != lit.get_char(j) {
            proof {
                if has_lit_at(s@, from as int, lit@) {
                    assert(s@.subrange(from as int, from as int + ln as int)[j as int] == s@[from
                        + j]);
                }
            }
            return false;
        }
        j += 1;
    }
    proof {
        assert(s@.subrange(from as int, from as int + ln as int) =~= lit@);
    }
    true
}

/// Appends the canonical escape of `s` to `out`.
pub(crate) fn append_escaped(out: &mut String, s: &str)
    ensures
        final(out)@ == old(out)@ + esc_str(s@),
{
    let ghost base = out@;
    let n = s.unicode_len();
    let mut i: usize = 0;
    while i < n
        invariant
            n == s@.len(),
            i <= n,
            out@ == base + esc_str(s@.take(i as int)),
        decreases n - i,
    {
        let c = s.get_char(i);
        proof {
            assert(s@.take(i as int + 1) =~= s@.take(i as int) + seq![c]);
            lemma_esc_str_concat(s@.take(i as int), seq![c]);
            lemma_esc_str_single(c);
        }
        if c == '"' {
            out.append("\\\"");
            proof {
                reveal_strlit("\\\"");
                assert("\\\""@ =~= esc_char(c));
            }
        } else if c == '\\' {
            out.append("\\\\");
            proof {
                reveal_strlit("\\\\");
                assert("\\\\"@ =~= esc_char(c));
            }
        } else if (c as u32) < 32 {
            let v = c as u32;
            out.append("\\u00");
            let h1 = hex_digit_str((v / 16) as u8);
            let h2 = hex_digit_str((v % 16) as u8);
            out.append(h1);
            out.append(h2);
            proof {
                reveal_strlit("\\u00");
                assert("\\u00"@ =~= seq!['\\', 'u', '0', '0']);
                assert("\\u00"@ + h1@ + h2@ =~= esc_char(c));
            }
        } else {
            let piece = s.substring_char(i, i + 1);
            out.append(piece);
            proof {
                assert(piece@ =~= esc_char(c));
            }
        }
        proof {
            assert(out@ =~= base + esc_str(s@.take(i as int + 1)));
        }
        i += 1;
    }
    proof {
        assert(s@.take(n as int) =~= s@);
    }
}

/// Parses the escaped field that stands in `s` at position `from`, up to and
/// including its closing quote, returning the decoded field and the position
/// of the first character after the quote.
pub(crate) fn parse_field(s: &str, from: usize) -> (r: Option<(String, usize)>)
    requires
        from <= s@.len(),
    ensures
        match r {
            Some(p) => from <= p.1 <= s@.len() && parse_jstring(s@.skip(from as int)) == Some(
                (p.0@, s@.skip(p.1 as int)),
            ),
            None => parse_jstring(s@.skip(from as int)) is None,
        },
{
    let n = s.unicode_len();
    let mut cur: usize = from;
    let mut acc = String::new();
    loop
        invariant
            from <= cur <= n,
            n == s@.len(),
            parse_jstring(s@.skip(from as int)) is Some <==> parse_jstring(s@.skip(cur as int))
                is Some,
            parse_jstring(s@.skip(cur as int)) is Some ==> parse_jstring(s@.skip(from as int))
                == Some(
                (
                    acc@ + parse_jstring(s@.skip(cur as int))->Some_0.0,
                    parse_jstring(s@.skip(cur as int))->Some_0.1,
                ),
            ),
        decreases n - cur,
    {
        let ghost s1 = s@.skip(cur as int);
        if cur == n {
            proof {
                assert(s1.len() == 0);
            }
            return None;
        }
        let c = s.get_char(cur);
        proof {
            assert(s1[0] == c);
        }
        if c == '"' {
            proof {
                assert(s1.skip(1) =~= s@.skip(cur + 1));
                assert(parse_jstring(s1) == Some((Seq::<char>::empty(), s@.skip(cur + 1))));
                assert(acc@ + Seq::<char>::empty() =~= acc@);
            }
            return Some((acc, cur + 1));
        } else if c == '\\' {
            if n - cur < 2 {
                proof {
                    assert(s1.len() < 2);
                }
                return None;
            }
            let c2 = s.get_char(cur + 1);
            proof {
                assert(s1[1] == c2);
            }
            if c2 == '"' || c2 == '\\' {
                proof {
                    assert(s1.skip(2) =~= s@.skip(cur + 2));
                    assert(parse_jstring(s1) == parse_cons(c2, parse_jstring(s@.skip(cur + 2))));
                }
                if c2 == '"' {
                    acc.append("\"");
                    proof {
                        reveal_strlit("\"");
                        assert("\""@ =~= seq![c2]);
                    }
                } else {
                    acc.append("\\");
                    proof {
                        reveal_strlit("\\");
                        assert("\\"@ =~= seq![c2]);
                    }
                }
                proof {
                    if parse_jstring(s@.skip(cur + 2)) is Some {
                        let (t, rst) = parse_jstring(s@.skip(cur + 2))->Some_0;
                        assert(acc@ + t =~= (acc@.subrange(0, acc@.len() - 1) + (seq![c2] + t)));
                    }
                }
                cur = cur + 2;
            } else if c2 == 'u' {
                if n - cur < 6 {
                    proof {
                        assert(s1.len() < 6);
                    }
                    return None;
                }
                let c3 = s.get_char(cur + 2);
                let c4 = s.get_char(cur + 3);
                let h1 = s.get_char(cur + 4);
                let h2 = s.get_char(cur + 5);
                proof {
                    assert(s1[2] == c3 && s1[3] == c4 && s1[4] == h1 && s1[5] == h2);
                }
                if c3 != '0' || c4 != '0' {
                    return None;
                }
                let v1 = hex_val_exec(h1);
                let v2 = hex_val_exec(h2);
                match (v1, v2) {
                    (Some(a), Some(b)) => {
                        let v = a * 16 + b;
                        if v < 32 {
                            let piece = ctl_str(v);
                            acc.append(piece);
                            proof {
                                assert(s1.skip(6) =~= s@.skip(cur + 6));
                                assert(parse_jstring(s1) == parse_cons(
                                    ctl_char(v as int),
                                    parse_jstring(s@.skip(cur + 6)),
                                ));
                                if parse_jstring(s@.skip(cur + 6)) is Some {
                                    let (t, rst) = parse_jstring(s@.skip(cur + 6))->Some_0;
                                    assert(acc@ + t =~= (acc@.subrange(0, acc@.len() - 1) + (seq![
                                        ctl_char(v as int),
                                    ] + t)));
                                }
                            }
                            cur = cur + 6;
                        } else {
                            return None;
                        }
                    },
                    _ => {
                        return None;
                    },
                }
            } else {
                return None;
            }
        } else if (c as u32) < 32 {
            return None;
        } else {
            let piece = s.substring_char(cur, cur + 1);
            acc.append(piece);
            proof {
                assert(piece@ =~= seq![c]);
                assert(s1.skip(1) =~= s@.skip(cur + 1));
                assert(parse_jstring(s1) == parse_cons(c, parse_jstring(s@.skip(cur + 1))));
                if parse_jstring(s@.skip(cur + 1)) is Some {
                    let (t, rst) = parse_jstring(s@.skip(cur + 1))->Some_0;
                    assert(acc@ + t =~= (acc@.subrange(0, acc@.len() - 1) + (seq![c] + t)));
                }
            }
            cur = cur + 1;
        }
    }
}

} // verus!
