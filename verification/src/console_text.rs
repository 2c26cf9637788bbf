//! The early framebuffer console's text handling: ANSI color escape codes,
//! splitting written text into printed characters and style changes, and the
//! cursor's movement over the character grid.
use vstd::prelude::*;
use vstd::slice::slice_subrange;
use crate::framebuffer::font_character_size;

verus! {

#[derive(Debug, Copy, Clone, PartialEq, Eq, Structural)]
pub enum AsciiEscapeCode {
    Foreground { color: AsciiColor, style: AsciiForegroundStyle, high_intensity: bool },
    Background { color: AsciiColor, high_intensity: bool },
    Reset,
}

#[derive(Debug, Copy, Clone, PartialEq, Eq, Structural)]
pub enum AsciiForegroundStyle {
    Regular,
    Bold,
    Underline,
}

#[derive(Debug, Copy, Clone, PartialEq, Eq, Structural)]
pub enum AsciiColor {
    Black,
    Red,
    Green,
    Yellow,
    Blue,
    Purple,
    Cyan,
    White,
}

/// The color with ANSI number `byte` (0 to 7).
pub open spec fn spec_color_from_byte(byte: int) -> Option<AsciiColor> {
    if byte == 0 {
        Some(AsciiColor::Black)
    } else if byte == 1 {
        Some(AsciiColor::Red)
    } else if byte == 2 {
        Some(AsciiColor::Green)
    } else if byte == 3 {
        Some(AsciiColor::Yellow)
    } else if byte == 4 {
        Some(AsciiColor::Blue)
    } else if byte == 5 {
        Some(AsciiColor::Purple)
    } else if byte == 6 {
        Some(AsciiColor::Cyan)
    } else if byte == 7 {
        Some(AsciiColor::White)
    } else {
        None
    }
}

pub fn color_from_byte(byte: u8) -> (r: Option<AsciiColor>)
    ensures
        r == spec_color_from_byte(byte as int),
{
    match byte {
        0 => Some(AsciiColor::Black),
        1 => Some(AsciiColor::Red),
        2 => Some(AsciiColor::Green),
        3 => Some(AsciiColor::Yellow),
        4 => Some(AsciiColor::Blue),
        5 => Some(AsciiColor::Purple),
        6 => Some(AsciiColor::Cyan),
        7 => Some(AsciiColor::White),
        _ => None,
    }
}

pub open spec fn is_ascii_digit(c: char) -> bool {
    '0' <= c && c <= '9'
}

pub open spec fn digit_value(c: char) -> int {
    (c as int) - ('0' as int)
}

/// The decimal number spelled by the digits of `s`; other characters are skipped.
pub open spec fn number_value(s: Seq<char>) -> int
    decreases s.len(),
{
    if s.len() == 0 {
        0
    } else if is_ascii_digit(s.last()) {
        number_value(s.drop_last()) * 10 + digit_value(s.last())
    } else {
        number_value(s.drop_last())
    }
}

/// Reading more characters never makes the number smaller.
pub proof fn lemma_number_value_prefix(s: Seq<char>, i: int)
    requires
        0 <= i <= s.len(),
    ensures
        0 <= number_value(s.take(i)) <= number_value(s),
    decreases s.len() - i,
{
    if i < s.len() {
        lemma_number_value_prefix(s, i + 1);
        assert(s.take(i + 1).drop_last() =~= s.take(i));
        lemma_number_value_nonneg(s.take(i));
    } else {
        assert(s.take(i) =~= s);
        lemma_number_value_nonneg(s);
    }
}

proof fn lemma_number_value_nonneg(s: Seq<char>)
    ensures
        number_value(s) >= 0,
    decreases s.len(),
{
    if s.len() > 0 {
        lemma_number_value_nonneg(s.drop_last());
    }
}

/// Reads the decimal number spelled by the digits of `chars`.
pub fn parse_number_from_chars(chars: &[char]) -> (r: usize)
    requires
        number_value(chars@) <= usize::MAX,
    ensures
        r == number_value(chars@),
{
    let mut acc: usize = 0;
    let mut i: usize = 0;
    while i < chars.len()
        invariant
            i <= chars@.len(),
            number_value(chars@) <= usize::MAX,
            acc == number_value(chars@.take(i as int)),
        decreases chars@.len() - i,
    {
        let c = chars[i];
        proof {
            lemma_number_value_prefix(chars@, i + 1);
            assert(chars@.take(i + 1).drop_last() =~= chars@.take(i as int));
            assert(chars@.take(i + 1).last() == c);
        }
        if c >= '0' && c <= '9' {
            acc = acc * 10;
            acc = acc + (c as usize - '0' as usize);
        }
        i = i + 1;
    }
    assert(chars@.take(i as int) =~= chars@);
    acc
}

/// The end of the run of digits that starts at `i`.
pub open spec fn digits_end(s: Seq<char>, i: int) -> int
    decreases s.len() - i,
{
    if i < 0 || i >= s.len() || !is_ascii_digit(s[i]) {
        i
    } else {
        digits_end(s, i + 1)
    }
}

pub proof fn lemma_digits_end(s: Seq<char>, i: int)
    requires
        0 <= i,
    ensures
        i <= digits_end(s, i),
        i <= s.len() ==> digits_end(s, i) <= s.len(),
        forall|k: int| i <= k < digits_end(s, i) ==> is_ascii_digit(#[trigger] s[k]),
        digits_end(s, i) < s.len() ==> !is_ascii_digit(s[digits_end(s, i)]),
    decreases s.len() - i,
{
    if i < s.len() && is_ascii_digit(s[i]) {
        lemma_digits_end(s, i + 1);
    }
}

/// The number spelled by the run of digits that starts at `i`.
pub open spec fn run_value(s: Seq<char>, i: int) -> int {
    number_value(s.subrange(i, digits_end(s, i)))
}

/// The escape code spelled by the characters between `ESC [` and `m`, if any.
/// A missing number counts as 0; codes `40`-`47`, `1;30`-`1;37`, `1;90`-`1;97`,
/// `0`, `0;30`-`0;37`, `0;90`-`0;97`, `0;100`-`0;107` and `4;30`-`4;37` are
/// understood.
pub open spec fn spec_parse_ascii_code(s: Seq<char>) -> Option<AsciiEscapeCode> {
    let e1 = digits_end(s, 0);
    let n1 = run_value(s, 0);
    if 40 <= n1 <= 47 {
        Some(
            AsciiEscapeCode::Background {
                color: spec_color_from_byte(n1 - 40).unwrap(),
                high_intensity: false,
            },
        )
    } else if n1 == 1 {
        if e1 >= s.len() || s[e1] != ';' {
            None
        } else {
            let n2 = run_value(s, e1 + 1);
            if 30 <= n2 <= 37 {
                Some(
                    AsciiEscapeCode::Foreground {
                        color: spec_color_from_byte(n2 - 30).unwrap(),
                        style: AsciiForegroundStyle::Bold,
                        high_intensity: false,
                    },
                )
            } else if 90 <= n2 <= 97 {
                Some(
                    AsciiEscapeCode::Foreground {
                        color: spec_color_from_byte(n2 - 90).unwrap(),
                        style: AsciiForegroundStyle::Bold,
                        high_intensity: true,
                    },
                )
            } else {
                None
            }
        }
    } else if n1 == 0 {
        if e1 >= s.len() {
            Some(AsciiEscapeCode::Reset)
        } else if s[e1] != ';' {
            None
        } else {
            let n2 = run_value(s, e1 + 1);
            if 30 <= n2 <= 37 {
                Some(
                    AsciiEscapeCode::Foreground {
                        color: spec_color_from_byte(n2 - 30).unwrap(),
                        style: AsciiForegroundStyle::Regular,
                        high_intensity: false,
                    },
                )
            } else if 90 <= n2 <= 97 {
                Some(
                    AsciiEscapeCode::Foreground {
                        color: spec_color_from_byte(n2 - 90).unwrap(),
                        style: AsciiForegroundStyle::Regular,
                        high_intensity: true,
                    },
                )
            } else if 100 <= n2 <= 107 {
                Some(
                    AsciiEscapeCode::Background {
                        color: spec_color_from_byte(n2 - 100).unwrap(),
                        high_intensity: true,
                    },
                )
            } else {
                None
            }
        }
    } else if n1 == 4 {
        if e1 >= s.len() || s[e1] != ';' {
            None
        } else {
            let n2 = run_value(s, e1 + 1);
            if 30 <= n2 <= 37 {
                Some(
                    AsciiEscapeCode::Foreground {
                        color: spec_color_from_byte(n2 - 30).unwrap(),
                        style: AsciiForegroundStyle::Underline,
                        high_intensity: false,
                    },
                )
            } else {
                None
            }
        }
    } else {
        None
    }
}

/// The digit that names `c` in ANSI color codes: black is 0, red 1, green 2,
/// yellow 3, blue 4, purple 5, cyan 6 and white 7.
pub open spec fn ansi_digit(c: AsciiColor) -> char {
    match c {
        AsciiColor::Black => '0',
        AsciiColor::Red => '1',
        AsciiColor::Green => '2',
        AsciiColor::Yellow => '3',
        AsciiColor::Blue => '4',
        AsciiColor::Purple => '5',
        AsciiColor::Cyan => '6',
        AsciiColor::White => '7',
    }
}

/// A run of digits that ends the text or a non-digit: where it ends and the
/// number it spells, for runs of one, two and three digits.
proof fn lemma_short_run(s: Seq<char>, i: int, n: int)
    requires
        0 <= i,
        1 <= n <= 3,
        i + n <= s.len(),
        forall|k: int| i <= k < i + n ==> is_ascii_digit(#[trigger] s[k]),
        i + n == s.len() || !is_ascii_digit(s[i + n]),
    ensures
        digits_end(s, i) == i + n,
        n == 1 ==> run_value(s, i) == digit_value(s[i]),
        n == 2 ==> run_value(s, i) == digit_value(s[i]) * 10 + digit_value(s[i + 1]),
        n == 3 ==> run_value(s, i) == (digit_value(s[i]) * 10 + digit_value(s[i + 1])) * 10
            + digit_value(s[i + 2]),
{
    assert(is_ascii_digit(s[i]));
    if n >= 2 {
        assert(is_ascii_digit(s[i + 1]));
    }
    if n >= 3 {
        assert(is_ascii_digit(s[i + 2]));
    }
    assert(digits_end(s, i + n) == i + n);
    if n >= 3 {
        assert(digits_end(s, i + 2) == i + 3);
    }
    if n >= 2 {
        assert(digits_end(s, i + 1) == i + n);
    }
    let sub = s.subrange(i, i + n);
    let e = Seq::<char>::empty();
    assert(sub.take(0) =~= e);
    let one = seq![s[i]];
    assert(one.drop_last() =~= e);
    assert(number_value(e) == 0);
    assert(one.last() == s[i]);
    assert(number_value(one) == digit_value(s[i]));
    if n == 1 {
        assert(sub =~= one);
    }
    let two = seq![s[i], s[i + 1]];
    if n >= 2 {
        assert(two.drop_last() =~= one);
        assert(two.last() == s[i + 1]);
        assert(number_value(two) == digit_value(s[i]) * 10 + digit_value(s[i + 1]));
    }
    if n == 2 {
        assert(sub =~= two);
    }
    if n == 3 {
        let three = seq![s[i], s[i + 1], s[i + 2]];
        assert(three.drop_last() =~= two);
        assert(three.last() == s[i + 2]);
        assert(sub =~= three);
    }
}

/// `ESC [ 4 c m` sets the background to color `c` at normal intensity: codes
/// 40 to 47.
pub proof fn lemma_background_codes(c: AsciiColor)
    ensures
        spec_parse_ascii_code(seq!['4', ansi_digit(c)]) == Some(
            AsciiEscapeCode::Background { color: c, high_intensity: false },
        ),
{
    let s = seq!['4', ansi_digit(c)];
    lemma_short_run(s, 0, 2);
}

/// `ESC [ 1 ; 3 c m` sets a bold foreground of color `c`, and `ESC [ 1 ; 9 c m`
/// a bold high-intensity one.
pub proof fn lemma_bold_codes(c: AsciiColor)
    ensures
        spec_parse_ascii_code(seq!['1', ';', '3', ansi_digit(c)]) == Some(
            AsciiEscapeCode::Foreground {
                color: c,
                style: AsciiForegroundStyle::Bold,
                high_intensity: false,
            },
        ),
        spec_parse_ascii_code(seq!['1', ';', '9', ansi_digit(c)]) == Some(
            AsciiEscapeCode::Foreground {
                color: c,
                style: AsciiForegroundStyle::Bold,
                high_intensity: true,
            },
        ),
{
    let s = seq!['1', ';', '3', ansi_digit(c)];
    lemma_short_run(s, 0, 1);
    lemma_short_run(s, 2, 2);
    let t = seq!['1', ';', '9', ansi_digit(c)];
    lemma_short_run(t, 0, 1);
    lemma_short_run(t, 2, 2);
}

/// `ESC [ 0 ; 3 c m` sets a regular foreground of color `c`, `ESC [ 0 ; 9 c m`
/// a regular high-intensity one, and `ESC [ 0 ; 1 0 c m` a high-intensity
/// background of color `c`.
pub proof fn lemma_regular_codes(c: AsciiColor)
    ensures
        spec_parse_ascii_code(seq!['0', ';', '3', ansi_digit(c)]) == Some(
            AsciiEscapeCode::Foreground {
                color: c,
                style: AsciiForegroundStyle::Regular,
                high_intensity: false,
            },
        ),
        spec_parse_ascii_code(seq!['0', ';', '9', ansi_digit(c)]) == Some(
            AsciiEscapeCode::Foreground {
                color: c,
                style: AsciiForegroundStyle::Regular,
                high_intensity: true,
            },
        ),
        spec_parse_ascii_code(seq!['0', ';', '1', '0', ansi_digit(c)]) == Some(
            AsciiEscapeCode::Background { color: c, high_intensity: true },
        ),
{
    let s = seq!['0', ';', '3', ansi_digit(c)];
    lemma_short_run(s, 0, 1);
    lemma_short_run(s, 2, 2);
    let t = seq!['0', ';', '9', ansi_digit(c)];
    lemma_short_run(t, 0, 1);
    lemma_short_run(t, 2, 2);
    let u = seq!['0', ';', '1', '0', ansi_digit(c)];
    lemma_short_run(u, 0, 1);
    lemma_short_run(u, 2, 3);
}

/// `ESC [ 4 ; 3 c m` sets an underlined foreground of color `c`.
pub proof fn lemma_underline_codes(c: AsciiColor)
    ensures
        spec_parse_ascii_code(seq!['4', ';', '3', ansi_digit(c)]) == Some(
            AsciiEscapeCode::Foreground {
                color: c,
                style: AsciiForegroundStyle::Underline,
                high_intensity: false,
            },
        ),
{
    let s = seq!['4', ';', '3', ansi_digit(c)];
    lemma_short_run(s, 0, 1);
    lemma_short_run(s, 2, 2);
}

/// `ESC [ m` and `ESC [ 0 m` reset the style.
pub proof fn lemma_reset_codes()
    ensures
        spec_parse_ascii_code(Seq::<char>::empty()) == Some(AsciiEscapeCode::Reset),
        spec_parse_ascii_code(seq!['0']) == Some(AsciiEscapeCode::Reset),
{
    let e = Seq::<char>::empty();
    assert(digits_end(e, 0) == 0);
    assert(e.subrange(0, 0) =~= e);
    lemma_short_run(seq!['0'], 0, 1);
}

/// Reading the numbers of an escape code overflows nothing.
pub open spec fn ascii_code_defined(s: Seq<char>) -> bool {
    let e1 = digits_end(s, 0);
    let n1 = run_value(s, 0);
    &&& n1 <= usize::MAX
    &&& (n1 == 0 || n1 == 1 || n1 == 4) && e1 < s.len() && s[e1] == ';' ==> run_value(s, e1 + 1)
        <= usize::MAX
}

/// The end of the run of digits of `code` that starts at `i`.
fn find_digits_end(code: &[char], i: usize) -> (r: usize)
    requires
        i <= code@.len(),
    ensures
        r == digits_end(code@, i as int),
{
    let mut k = i;
    while k < code.len() && code[k] >= '0' && code[k] <= '9'
        invariant
            i <= k <= code@.len(),
            digits_end(code@, k as int) == digits_end(code@, i as int),
        decreases code@.len() - k,
    {
        k = k + 1;
    }
    k
}

/// Reads the number spelled by the run of digits of `code` that starts at `i`.
fn parse_run(code: &[char], i: usize) -> (r: usize)
    requires
        i <= code@.len(),
        run_value(code@, i as int) <= usize::MAX,
    ensures
        r == run_value(code@, i as int),
{
    let e = find_digits_end(code, i);
    proof {
        lemma_digits_end(code@, i as int);
    }
    parse_number_from_chars(slice_subrange(code, i, e))
}

/// Reads the escape code spelled by the characters between `ESC [` and `m`.
pub fn parse_ascii_code(code_chars: &[char]) -> (r: Option<AsciiEscapeCode>)
    requires
        ascii_code_defined(code_chars@),
    ensures
        r == spec_parse_ascii_code(code_chars@),
{
    let ghost s = code_chars@;
    proof {
        lemma_digits_end(s, 0);
    }
    let e1 = find_digits_end(code_chars, 0);
    let n1 = parse_run(code_chars, 0);
    if n1 >= 40 && n1 <= 47 {
        return Some(
            AsciiEscapeCode::Background {
                color: color_from_byte((n1 - 40) as u8)?,
                high_intensity: false,
            },
        );
    }
    if n1 == 1 {
        if e1 >= code_chars.len() || code_chars[e1] != ';' {
            return None;
        }
        proof {
            lemma_digits_end(s, e1 + 1);
        }
        let n2 = parse_run(code_chars, e1 + 1);
        if n2 >= 30 && n2 <= 37 {
            return Some(
                AsciiEscapeCode::Foreground {
                    color: color_from_byte((n2 - 30) as u8)?,
                    style: AsciiForegroundStyle::Bold,
                    high_intensity: false,
                },
            );
        } else if n2 >= 90 && n2 <= 97 {
            return Some(
                AsciiEscapeCode::Foreground {
                    color: color_from_byte((n2 - 90) as u8)?,
                    style: AsciiForegroundStyle::Bold,
                    high_intensity: true,
                },
            );
        } else {
            return None;
        }
    }
    if n1 == 0 {
        if e1 >= code_chars.len() {
            return Some(AsciiEscapeCode::Reset);
        }
        if code_chars[e1] != ';' {
            return None;
        }
        let n2 = parse_run(code_chars, e1 + 1);
        if n2 >= 30 && n2 <= 37 {
            return Some(
                AsciiEscapeCode::Foreground {
                    color: color_from_byte((n2 - 30) as u8)?,
                    style: AsciiForegroundStyle::Regular,
                    high_intensity: false,
                },
            );
        } else if n2 >= 90 && n2 <= 97 {
            return Some(
                AsciiEscapeCode::Foreground {
                    color: color_from_byte((n2 - 90) as u8)?,
                    style: AsciiForegroundStyle::Regular,
                    high_intensity: true,
                },
            );
        } else if n2 >= 100 && n2 <= 107 {
            return Some(
                AsciiEscapeCode::Background {
                    color: color_from_byte((n2 - 100) as u8)?,
                    high_intensity: true,
                },
            );
        } else {
            return None;
        }
    }
    if n1 == 4 {
        if e1 >= code_chars.len() || code_chars[e1] != ';' {
            return None;
        }
        proof {
            lemma_digits_end(s, e1 + 1);
        }
        let n2 = parse_run(code_chars, e1 + 1);
        if n2 >= 30 && n2 <= 37 {
            return Some(
                AsciiEscapeCode::Foreground {
                    color: color_from_byte((n2 - 30) as u8)?,
                    style: AsciiForegroundStyle::Underline,
                    high_intensity: false,
                },
            );
        } else {
            return None;
        }
    }
    None
}

/// What writing text asks the console to do, in order.
#[derive(Debug, Copy, Clone, PartialEq, Eq, Structural)]
pub enum ConsoleAction {
    /// Draw this character at the cursor.
    Print(char),
    /// Change the colors and style of what is drawn next.
    SetStyle(AsciiEscapeCode),
}

/// The first `m` at or after `i`, or the end of `s`.
pub open spec fn find_m(s: Seq<char>, i: int) -> int
    decreases s.len() - i,
{
    if i < 0 || i >= s.len() || s[i] == 'm' {
        i
    } else {
        find_m(s, i + 1)
    }
}

pub proof fn lemma_find_m(s: Seq<char>, i: int)
    requires
        0 <= i <= s.len(),
    ensures
        i <= find_m(s, i) <= s.len(),
        forall|k: int| i <= k < find_m(s, i) ==> #[trigger] s[k] != 'm',
        find_m(s, i) < s.len() ==> s[find_m(s, i)] == 'm',
    decreases s.len() - i,
{
    if i < s.len() && s[i] != 'm' {
        lemma_find_m(s, i + 1);
    }
}

/// An escape sequence starts at the front of `s`: `ESC` followed by `[`.
pub open spec fn starts_escape(s: Seq<char>) -> bool {
    s.len() >= 2 && s[0] == '\u{1b}' && s[1] == '['
}

/// The characters of the escape code at the front of `s`: those after `ESC [` up to the first `m`.
pub open spec fn escape_code_chars(s: Seq<char>) -> Seq<char> {
    s.subrange(2, find_m(s, 2))
}

/// Where the text resumes after a recognized escape sequence at the front of
/// `s`: after its closing `m`, or at the end if there is none.
pub open spec fn after_escape(s: Seq<char>) -> int {
    if find_m(s, 2) < s.len() {
        find_m(s, 2) + 1
    } else {
        s.len() as int
    }
}

/// The actions asked for by what stands at the front of nonempty text `s`,
/// and how many characters that consumes. A recognized escape sequence
/// becomes a style change and is consumed through its `m`; an `ESC [` that
/// starts no recognized code consumes only the `ESC` and asks for nothing;
/// any other character is printed.
pub open spec fn console_step(s: Seq<char>) -> (Seq<ConsoleAction>, int) {
    if starts_escape(s) {
        match spec_parse_ascii_code(escape_code_chars(s)) {
            Some(code) => (seq![ConsoleAction::SetStyle(code)], after_escape(s)),
            None => (seq![], 1),
        }
    } else {
        (seq![ConsoleAction::Print(s[0])], 1)
    }
}

/// The actions that writing `s` asks for, front to back.
pub open spec fn console_actions(s: Seq<char>) -> Seq<ConsoleAction>
    decreases s.len(),
{
    if s.len() == 0 {
        seq![]
    } else {
        proof {
            lemma_console_step(s);
        }
        console_step(s).0 + console_actions(s.subrange(console_step(s).1, s.len() as int))
    }
}

/// The first `m` from `i` on is at `e` when none stands before it.
proof fn lemma_find_m_at(s: Seq<char>, i: int, e: int)
    requires
        0 <= i <= e < s.len(),
        s[e] == 'm',
        forall|k: int| i <= k < e ==> #[trigger] s[k] != 'm',
    ensures
        find_m(s, i) == e,
    decreases e - i,
{
    if i < e {
        lemma_find_m_at(s, i + 1, e);
    }
}

/// An escape sequence `ESC [ code m` whose code is understood becomes one
/// style change to that code, and the text after its `m` is handled as if
/// the sequence were not there.
pub proof fn lemma_escape_sequence_sets_style(code: Seq<char>, rest: Seq<char>)
    requires
        forall|k: int| 0 <= k < code.len() ==> #[trigger] code[k] != 'm',
        (spec_parse_ascii_code(code) is Some),
    ensures
        console_actions(seq!['\u{1b}', '['] + code + seq!['m'] + rest) == seq![
            ConsoleAction::SetStyle(spec_parse_ascii_code(code).unwrap()),
        ] + console_actions(rest),
{
    let s = seq!['\u{1b}', '['] + code + seq!['m'] + rest;
    let e: int = code.len() as int + 2;
    assert forall|k: int| 2 <= k < e implies #[trigger] s[k] != 'm' by {
        assert(s[k] == code[k - 2]);
    }
    assert(s[e] == 'm');
    lemma_find_m_at(s, 2, e);
    assert(starts_escape(s));
    assert(escape_code_chars(s) =~= code);
    assert(after_escape(s) == e + 1);
    assert(s.subrange(e + 1, s.len() as int) =~= rest);
}

/// An `ESC [` that starts no code the console understands is dropped: the
/// `ESC` asks for nothing, and the text goes on from the `[`, which is printed.
pub proof fn lemma_unknown_escape_dropped(t: Seq<char>)
    requires
        (spec_parse_ascii_code(escape_code_chars(seq!['\u{1b}', '['] + t)) is None),
    ensures
        console_actions(seq!['\u{1b}', '['] + t) == seq![ConsoleAction::Print('[')]
            + console_actions(t),
{
    let s = seq!['\u{1b}', '['] + t;
    assert(starts_escape(s));
    let s1 = s.subrange(1, s.len() as int);
    assert(s1 =~= seq!['['] + t);
    assert(!starts_escape(s1));
    assert(s1.subrange(1, s1.len() as int) =~= t);
    assert(console_actions(s) == seq![] + console_actions(s1));
    assert(seq![] + console_actions(s1) =~= console_actions(s1));
}

/// A character other than `ESC` at the front of the text is printed, and the
/// rest of the text is handled on its own.
pub proof fn lemma_plain_character_printed(c: char, rest: Seq<char>)
    requires
        c != '\u{1b}',
    ensures
        console_actions(seq![c] + rest) == seq![ConsoleAction::Print(c)] + console_actions(rest),
{
    let s = seq![c] + rest;
    assert(!starts_escape(s));
    assert(s.subrange(1, s.len() as int) =~= rest);
}

/// Reading every escape code in `s` overflows nothing.
pub open spec fn console_text_defined(s: Seq<char>) -> bool
    decreases s.len(),
{
    if s.len() == 0 {
        true
    } else {
        proof {
            lemma_console_step(s);
        }
        &&& starts_escape(s) ==> ascii_code_defined(escape_code_chars(s))
        &&& console_text_defined(s.subrange(console_step(s).1, s.len() as int))
    }
}

/// Each step consumes at least one character and no more than there are.
pub proof fn lemma_console_step(s: Seq<char>)
    requires
        s.len() > 0,
    ensures
        1 <= console_step(s).1 <= s.len(),
{
    if starts_escape(s) {
        lemma_find_m(s, 2);
    }
}

proof fn lemma_push_is_concat(b: Seq<ConsoleAction>, a: ConsoleAction)
    ensures
        b.push(a) == b + seq![a],
{
    assert(b.push(a) =~= b + seq![a]);
}

proof fn lemma_after_escape(s: Seq<char>)
    requires
        starts_escape(s),
    ensures
        2 <= find_m(s, 2) <= s.len(),
        2 <= after_escape(s) <= s.len(),
{
    lemma_find_m(s, 2);
}

/// Each character of `s` printed, in order.
pub open spec fn printed(s: Seq<char>) -> Seq<ConsoleAction>
    decreases s.len(),
{
    if s.len() == 0 {
        seq![]
    } else {
        seq![ConsoleAction::Print(s[0])] + printed(s.subrange(1, s.len() as int))
    }
}

/// Text without an escape character is printed as it is, character by character.
pub proof fn lemma_plain_text_printed(s: Seq<char>)
    requires
        forall|i: int| 0 <= i < s.len() ==> s[i] != '\u{1b}',
    ensures
        console_actions(s) == printed(s),
    decreases s.len(),
{
    if s.len() > 0 {
        lemma_console_step(s);
        assert(!starts_escape(s));
        lemma_plain_text_printed(s.subrange(1, s.len() as int));
    }
}

/// Whether the run of digits of `code` that starts at `i` spells a number a `usize` holds.
fn run_fits(code: &[char], i: usize) -> (r: bool)
    requires
        i <= code@.len(),
    ensures
        r == (run_value(code@, i as int) <= usize::MAX),
{
    let e = find_digits_end(code, i);
    proof {
        lemma_digits_end(code@, i as int);
    }
    let digits = slice_subrange(code, i, e);
    let mut acc: usize = 0;
    let mut k: usize = 0;
    while k < digits.len()
        invariant
            k <= digits@.len(),
            digits@ == code@.subrange(i as int, digits_end(code@, i as int)),
            acc == number_value(digits@.take(k as int)),
        decreases digits@.len() - k,
    {
        let c = digits[k];
        proof {
            assert(digits@.take(k + 1).drop_last() =~= digits@.take(k as int));
            assert(digits@.take(k + 1).last() == c);
        }
        if c >= '0' && c <= '9' {
            let d = c as usize - '0' as usize;
            match acc.checked_mul(10) {
                None => {
                    proof {
                        lemma_number_value_prefix(digits@, k + 1);
                    }
                    return false;
                },
                Some(m) => match m.checked_add(d) {
                    None => {
                        proof {
                            lemma_number_value_prefix(digits@, k + 1);
                        }
                        return false;
                    },
                    Some(n) => {
                        acc = n;
                    },
                },
            }
        }
        k = k + 1;
    }
    assert(digits@.take(k as int) =~= digits@);
    true
}

/// Whether reading the numbers of the escape code `code` overflows nothing.
pub fn ascii_code_defined_check(code: &[char]) -> (r: bool)
    ensures
        r == ascii_code_defined(code@),
{
    if !run_fits(code, 0) {
        return false;
    }
    let e1 = find_digits_end(code, 0);
    proof {
        lemma_digits_end(code@, 0);
    }
    let n1 = parse_run(code, 0);
    if (n1 == 0 || n1 == 1 || n1 == 4) && e1 < code.len() && code[e1] == ';' {
        if !run_fits(code, e1 + 1) {
            return false;
        }
    }
    true
}

/// Whether the escape codes of `text` can all be read without overflow, as
/// `console_write_actions` needs.
pub fn console_text_defined_check(text: &[char]) -> (r: bool)
    ensures
        r == console_text_defined(text@),
{
    let len = text.len();
    let mut pos: usize = 0;
    assert(text@.subrange(0, len as int) =~= text@);
    while pos < len
        invariant
            len == text@.len(),
            pos <= len,
            console_text_defined(text@) == console_text_defined(
                text@.subrange(pos as int, len as int),
            ),
        decreases len - pos,
    {
        let ghost rest = text@.subrange(pos as int, len as int);
        proof {
            lemma_console_step(rest);
        }
        let c = text[pos];
        if c == '\x1b' && len - pos >= 2 && text[pos + 1] == '[' {
            let mut m = pos + 2;
            while m < len && text[m] != 'm'
                invariant
                    pos + 2 <= m <= len,
                    len == text@.len(),
                    rest == text@.subrange(pos as int, len as int),
                    find_m(rest, (m - pos) as int) == find_m(rest, 2),
                decreases len - m,
            {
                m = m + 1;
            }
            proof {
                lemma_after_escape(rest);
                assert(find_m(rest, 2) == m - pos);
                assert(escape_code_chars(rest) =~= text@.subrange(pos + 2, m as int));
            }
            let code_chars = slice_subrange(text, pos + 2, m);
            if !ascii_code_defined_check(code_chars) {
                return false;
            }
            match parse_ascii_code(code_chars) {
                Some(_) => {
                    let next = if m < len {
                        m + 1
                    } else {
                        len
                    };
                    assert(rest.subrange(after_escape(rest), rest.len() as int) =~= text@.subrange(
                        next as int,
                        len as int,
                    ));
                    pos = next;
                },
                None => {
                    assert(rest.subrange(1, rest.len() as int) =~= text@.subrange(
                        pos + 1,
                        len as int,
                    ));
                    pos = pos + 1;
                },
            }
        } else {
            assert(rest[0] == c);
            assert(len - pos >= 2 ==> rest[1] == text@[pos + 1]);
            assert(!starts_escape(rest));
            assert(rest.subrange(1, rest.len() as int) =~= text@.subrange(pos + 1, len as int));
            pos = pos + 1;
        }
    }
    true
}

/// Splits the text written to the console into printed characters and style changes.
pub fn console_write_actions(text: &[char]) -> (r: Vec<ConsoleAction>)
    requires
        console_text_defined(text@),
    ensures
        r@ == console_actions(text@),
{
    let mut actions: Vec<ConsoleAction> = Vec::new();
    let len = text.len();
    let mut pos: usize = 0;
    assert(text@.subrange(0, len as int) =~= text@);
    while pos < len
        invariant
            len == text@.len(),
            pos <= len,
            console_text_defined(text@.subrange(pos as int, len as int)),
            actions@ + console_actions(text@.subrange(pos as int, len as int)) == console_actions(
                text@,
            ),
        decreases len - pos,
    {
        let ghost rest = text@.subrange(pos as int, len as int);
        let c = text[pos];
        if c == '\x1b' && len - pos >= 2 && text[pos + 1] == '[' {
            let mut m = pos + 2;
            while m < len && text[m] != 'm'
                invariant
                    pos + 2 <= m <= len,
                    len == text@.len(),
                    rest == text@.subrange(pos as int, len as int),
                    find_m(rest, (m - pos) as int) == find_m(rest, 2),
                decreases len - m,
            {
                m = m + 1;
            }
            proof {
                lemma_after_escape(rest);
                assert(find_m(rest, 2) == m - pos);
                assert(escape_code_chars(rest) =~= text@.subrange(pos + 2, m as int));
            }
            let code_chars = slice_subrange(text, pos + 2, m);
            match parse_ascii_code(code_chars) {
                Some(code) => {
                    let ghost before = actions@;
                    actions.push(ConsoleAction::SetStyle(code));
                    let next = if m < len {
                        m + 1
                    } else {
                        len
                    };
                    assert(rest.subrange(after_escape(rest), rest.len() as int) =~= text@.subrange(
                        next as int,
                        len as int,
                    ));
                    assert(actions@ + console_actions(text@.subrange(next as int, len as int))
                        =~= before + console_actions(rest));
                    pos = next;
                },
                None => {
                    assert(rest.subrange(1, rest.len() as int) =~= text@.subrange(
                        pos + 1,
                        len as int,
                    ));
                    pos = pos + 1;
                },
            }
        } else {
            let ghost before = actions@;
            assert(rest[0] == c);
            assert(len - pos >= 2 ==> rest[1] == text@[pos + 1]);
            assert(!starts_escape(rest));
            actions.push(ConsoleAction::Print(c));
            assert(rest.subrange(1, rest.len() as int) =~= text@.subrange(pos + 1, len as int));
            assert(console_actions(rest) == seq![ConsoleAction::Print(c)] + console_actions(
                text@.subrange(pos + 1, len as int),
            ));
            proof {
                lemma_push_is_concat(before, ConsoleAction::Print(c));
            }
            assert(actions@ + console_actions(text@.subrange(pos + 1, len as int)) =~= before
                + console_actions(rest));
            pos = pos + 1;
        }
    }
    assert(actions@ + seq![] =~= actions@);
    actions
}

/// The colors and style in which the console draws characters.
#[derive(Debug, Copy, Clone, PartialEq, Eq, Structural)]
pub struct ConsoleStyle {
    pub foreground_color: AsciiColor,
    pub foreground_style: AsciiForegroundStyle,
    pub foreground_high_intensity: bool,
    pub background_color: AsciiColor,
    pub background_high_intensity: bool,
}

pub open spec fn spec_default_style() -> ConsoleStyle {
    ConsoleStyle {
        foreground_color: AsciiColor::White,
        foreground_style: AsciiForegroundStyle::Regular,
        foreground_high_intensity: true,
        background_color: AsciiColor::Black,
        background_high_intensity: true,
    }
}

pub open spec fn spec_apply_code(style: ConsoleStyle, code: AsciiEscapeCode) -> ConsoleStyle {
    match code {
        AsciiEscapeCode::Foreground { color, style: fs, high_intensity } => ConsoleStyle {
            foreground_color: color,
            foreground_style: fs,
            foreground_high_intensity: high_intensity,
            ..style
        },
        AsciiEscapeCode::Background { color, high_intensity } => ConsoleStyle {
            background_color: color,
            background_high_intensity: high_intensity,
            ..style
        },
        AsciiEscapeCode::Reset => spec_default_style(),
    }
}

/// What an escape code does to the style, field by field: a foreground code
/// sets the foreground's color, weight and intensity to the code's and leaves
/// the background as it was; a background code sets the background's color
/// and intensity and leaves the foreground as it was; a reset goes back to
/// bright white, regular weight, on bright black.
pub proof fn lemma_apply_code_fields(style: ConsoleStyle, code: AsciiEscapeCode)
    ensures
        ({
            let r = spec_apply_code(style, code);
            match code {
                AsciiEscapeCode::Foreground { color, style: weight, high_intensity } => {
                    &&& r.foreground_color == color
                    &&& r.foreground_style == weight
                    &&& r.foreground_high_intensity == high_intensity
                    &&& r.background_color == style.background_color
                    &&& r.background_high_intensity == style.background_high_intensity
                },
                AsciiEscapeCode::Background { color, high_intensity } => {
                    &&& r.background_color == color
                    &&& r.background_high_intensity == high_intensity
                    &&& r.foreground_color == style.foreground_color
                    &&& r.foreground_style == style.foreground_style
                    &&& r.foreground_high_intensity == style.foreground_high_intensity
                },
                AsciiEscapeCode::Reset => {
                    &&& r.foreground_color == AsciiColor::White
                    &&& r.foreground_style == AsciiForegroundStyle::Regular
                    &&& r.foreground_high_intensity
                    &&& r.background_color == AsciiColor::Black
                    &&& r.background_high_intensity
                },
            }
        }),
{
}

impl ConsoleStyle {
    /// The style the console starts with: bright white on bright black, regular weight.
    pub fn initial() -> (r: Self)
        ensures
            r == spec_default_style(),
    {
        ConsoleStyle {
            foreground_color: AsciiColor::White,
            foreground_style: AsciiForegroundStyle::Regular,
            foreground_high_intensity: true,
            background_color: AsciiColor::Black,
            background_high_intensity: true,
        }
    }

    /// Applies an escape code: a foreground code sets the foreground, a
    /// background code the background, and a reset restores the initial style.
    pub fn apply(&mut self, code: AsciiEscapeCode)
        ensures
            *final(self) == spec_apply_code(*old(self), code),
            code is Foreground ==> final(self).background_color == old(self).background_color
                && final(self).background_high_intensity == old(self).background_high_intensity,
            code is Background ==> final(self).foreground_color == old(self).foreground_color
                && final(self).foreground_style == old(self).foreground_style
                && final(self).foreground_high_intensity == old(self).foreground_high_intensity,
    {
        proof {
            lemma_apply_code_fields(*self, code);
        }
        match code {
            AsciiEscapeCode::Foreground { color, style, high_intensity } => {
                self.foreground_color = color;
                self.foreground_style = style;
                self.foreground_high_intensity = high_intensity;
            },
            AsciiEscapeCode::Background { color, high_intensity } => {
                self.background_color = color;
                self.background_high_intensity = high_intensity;
            },
            AsciiEscapeCode::Reset => {
                *self = ConsoleStyle::initial();
            },
        }
    }
}

/// A pixel position on the framebuffer.
#[derive(Debug, Copy, Clone, PartialEq, Eq, Structural)]
pub struct PixelPoint {
    pub x: i32,
    pub y: i32,
}

/// Where the cursor goes after one character, whether the screen scrolls, and
/// where (in pixels) the character is drawn, if it is drawn at all.
#[derive(Debug, Copy, Clone, PartialEq, Eq, Structural)]
pub struct CursorStep {
    pub new_x: i32,
    pub new_y: i32,
    pub should_scroll: bool,
    pub draw_at: Option<PixelPoint>,
}

/// A newline moves to the start of the next line without drawing; any other
/// character is drawn at the cursor, which then moves right, or to the next
/// line once the row is full. Moving onto a line below the last one scrolls,
/// and drawing below the last line draws on the last line.
pub open spec fn spec_cursor_step(
    x: i32,
    y: i32,
    c: char,
    width: u32,
    height: u32,
    char_w: u32,
    char_h: u32,
) -> CursorStep {
    let (nx, ny, print) = if c == '\n' {
        (0int, y + 1, false)
    } else if x + 1 < width as i32 {
        (x + 1, y as int, true)
    } else {
        (0int, y + 1, true)
    };
    CursorStep {
        new_x: nx as i32,
        new_y: ny as i32,
        should_scroll: y + 1 >= height as i32 && y < ny,
        draw_at: if print {
            let row = if y < height as i32 - 1 { y as int } else { height as i32 - 1 };
            Some(PixelPoint { x: (x * (char_w as i32)) as i32, y: (row * (char_h as i32)) as i32 })
        } else {
            None
        },
    }
}

/// The cursor arithmetic of one character overflows nothing.
pub open spec fn cursor_step_defined(
    x: i32,
    y: i32,
    c: char,
    height: u32,
    char_w: u32,
    char_h: u32,
) -> bool {
    &&& y < i32::MAX
    &&& c != '\n' ==> {
        &&& x < i32::MAX
        &&& height as i32 > i32::MIN
        &&& i32::MIN <= x * (char_w as i32) <= i32::MAX
        &&& i32::MIN <= (if y < height as i32 - 1 { y as int } else { height as i32 - 1 }) * (
        char_h as i32) <= i32::MAX
    }
}

/// How one character moves the cursor: a newline goes to the start of the
/// next line and draws nothing; any other character is drawn and moves the
/// cursor right, or to the start of the next line once the row is full. The
/// screen scrolls exactly when the cursor moves down a line from the last
/// line or below it, whatever the character. A drawn character goes at the
/// cursor's column, on its row or on the last row if the cursor is below it.
pub proof fn lemma_cursor_step_moves(
    x: i32,
    y: i32,
    c: char,
    width: u32,
    height: u32,
    char_w: u32,
    char_h: u32,
)
    requires
        cursor_step_defined(x, y, c, height, char_w, char_h),
    ensures
        ({
            let r = spec_cursor_step(x, y, c, width, height, char_w, char_h);
            &&& r.should_scroll <==> (r.new_y > y && y + 1 >= height as i32)
            &&& c == '\n' ==> r.new_x == 0 && r.new_y == y + 1 && r.draw_at is None
            &&& c != '\n' && x + 1 < width as i32 ==> r.new_x == x + 1 && r.new_y == y
            &&& c != '\n' && x + 1 >= width as i32 ==> r.new_x == 0 && r.new_y == y + 1
            &&& c != '\n' ==> r.draw_at is Some && r.draw_at->0.x == x * (char_w as i32) && (y
                < height as i32 - 1 ==> r.draw_at->0.y == y * (char_h as i32)) && (y >= height as i32
                - 1 ==> r.draw_at->0.y == (height as i32 - 1) * (char_h as i32))
        }),
{
}

/// Moves the cursor over one character on a grid of `width` by `height`
/// characters of `char_w` by `char_h` pixels.
pub fn cursor_step(
    x: i32,
    y: i32,
    c: char,
    width: u32,
    height: u32,
    char_w: u32,
    char_h: u32,
) -> (r: CursorStep)
    requires
        cursor_step_defined(x, y, c, height, char_w, char_h),
    ensures
        r == spec_cursor_step(x, y, c, width, height, char_w, char_h),
{
    #[verifier::truncate]
    let width_i = width as i32;
    #[verifier::truncate]
    let height_i = height as i32;
    let (new_x, new_y, should_print) = if c == '\n' {
        (0i32, y + 1, false)
    } else if x + 1 < width_i {
        (x + 1, y, true)
    } else {
        (0i32, y + 1, true)
    };
    let should_scroll = y + 1 >= height_i && y < new_y;
    if !should_print {
        return CursorStep { new_x, new_y, should_scroll, draw_at: None };
    }
    let row = if y < height_i - 1 {
        y
    } else {
        height_i - 1
    };
    #[verifier::truncate]
    let cw = char_w as i32;
    #[verifier::truncate]
    let ch = char_h as i32;
    CursorStep { new_x, new_y, should_scroll, draw_at: Some(PixelPoint { x: x * cw, y: row * ch }) }
}

/// Moves the cursor over one character in the console's font, on a grid of
/// `width` by `height` characters.
pub fn console_cursor_step(x: i32, y: i32, c: char, width: u32, height: u32) -> (r: CursorStep)
    requires
        cursor_step_defined(x, y, c, height, 9, 18),
    ensures
        r == spec_cursor_step(x, y, c, width, height, 9, 18),
{
    let (char_w, char_h) = font_character_size();
    cursor_step(x, y, c, width, height, char_w, char_h)
}

/// The named web colors the console draws with.
#[derive(Debug, Copy, Clone, PartialEq, Eq, Structural)]
pub enum CssColor {
    Black,
    DarkGray,
    DarkRed,
    Red,
    Green,
    LightGreen,
    Yellow,
    LightYellow,
    Blue,
    LightBlue,
    DarkMagenta,
    Magenta,
    Cyan,
    LightCyan,
    White,
}

pub open spec fn spec_ascii_color_to_css(color: AsciiColor, high_intensity: bool) -> CssColor {
    if !high_intensity {
        match color {
            AsciiColor::Black => CssColor::DarkGray,
            AsciiColor::Red => CssColor::DarkRed,
            AsciiColor::Green => CssColor::Green,
            AsciiColor::Yellow => CssColor::Yellow,
            AsciiColor::Blue => CssColor::Blue,
            AsciiColor::Purple => CssColor::DarkMagenta,
            AsciiColor::Cyan => CssColor::Cyan,
            AsciiColor::White => CssColor::White,
        }
    } else {
        match color {
            AsciiColor::Black => CssColor::Black,
            AsciiColor::Red => CssColor::Red,
            AsciiColor::Green => CssColor::LightGreen,
            AsciiColor::Yellow => CssColor::LightYellow,
            AsciiColor::Blue => CssColor::LightBlue,
            AsciiColor::Purple => CssColor::Magenta,
            AsciiColor::Cyan => CssColor::LightCyan,
            AsciiColor::White => CssColor::White,
        }
    }
}

/// Every ANSI color is drawn in its own web color at each intensity, and the
/// two intensities of a color differ, white alone being the same at both: no
/// two codes that name different colors look alike.
pub proof fn lemma_css_colors_distinct(c1: AsciiColor, h1: bool, c2: AsciiColor, h2: bool)
    ensures
        spec_ascii_color_to_css(c1, h1) == spec_ascii_color_to_css(c2, h2) ==> c1 == c2 && (h1
            == h2 || c1 == AsciiColor::White),
{
}

/// ANSI color numbers are 0 to 7, each naming a different color.
pub proof fn lemma_color_numbers(b1: int, b2: int)
    ensures
        spec_color_from_byte(b1) is Some <==> 0 <= b1 <= 7,
        spec_color_from_byte(b1) is Some && spec_color_from_byte(b1) == spec_color_from_byte(b2)
            ==> b1 == b2,
{
}

/// The web color that draws an ANSI color at normal or high intensity.
pub fn ascii_color_to_css(color: AsciiColor, high_intensity: bool) -> (r: CssColor)
    ensures
        r == spec_ascii_color_to_css(color, high_intensity),
{
    match high_intensity {
        false => match color {
            AsciiColor::Black => CssColor::DarkGray,
            AsciiColor::Red => CssColor::DarkRed,
            AsciiColor::Green => CssColor::Green,
            AsciiColor::Yellow => CssColor::Yellow,
            AsciiColor::Blue => CssColor::Blue,
            AsciiColor::Purple => CssColor::DarkMagenta,
            AsciiColor::Cyan => CssColor::Cyan,
            AsciiColor::White => CssColor::White,
        },
        true => match color {
            AsciiColor::Black => CssColor::Black,
            AsciiColor::Red => CssColor::Red,
            AsciiColor::Green => CssColor::LightGreen,
            AsciiColor::Yellow => CssColor::LightYellow,
            AsciiColor::Blue => CssColor::LightBlue,
            AsciiColor::Purple => CssColor::Magenta,
            AsciiColor::Cyan => CssColor::LightCyan,
            AsciiColor::White => CssColor::White,
        },
    }
}

} // verus!
