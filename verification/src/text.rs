//! Text: decimal numbers, padding and joining, over the characters of a string.

use vstd::prelude::*;

verus! {

/// `String::push` puts the character behind the string.
pub assume_specification[ String::push ](text: &mut String, c: char)
    ensures
        final(text)@ == old(text)@.push(c),
;

/// The character of a decimal digit.
pub open spec fn digit_char(digit: int) -> char {
    if digit == 0 {
        '0'
    } else if digit == 1 {
        '1'
    } else if digit == 2 {
        '2'
    } else if digit == 3 {
        '3'
    } else if digit == 4 {
        '4'
    } else if digit == 5 {
        '5'
    } else if digit == 6 {
        '6'
    } else if digit == 7 {
        '7'
    } else if digit == 8 {
        '8'
    } else {
        '9'
    }
}

/// A number in decimal, without leading zeros.
pub open spec fn decimal(n: nat) -> Seq<char>
    decreases n,
{
    if n < 10 {
        seq![digit_char(n as int)]
    } else {
        decimal(n / 10).push(digit_char((n % 10) as int))
    }
}

/// Some copies of a character.
pub open spec fn repeated(c: char, count: int) -> Seq<char> {
    Seq::new(
        if count > 0 {
            count as nat
        } else {
            0
        },
        |i: int| c,
    )
}

/// A text filled up with spaces behind it to a width; unchanged where it is as wide or wider.
pub open spec fn padded_right(text: Seq<char>, width: int) -> Seq<char> {
    text + repeated(' ', width - text.len())
}

/// A text filled up with spaces in front of it to a width; unchanged where it is as wide or
/// wider.
pub open spec fn padded_left(text: Seq<char>, width: int) -> Seq<char> {
    repeated(' ', width - text.len()) + text
}

/// The first few characters of a text.
pub open spec fn cut(text: Seq<char>, width: int) -> Seq<char> {
    if text.len() <= width {
        text
    } else {
        text.take(width)
    }
}

/// Texts put one behind the other with a separator between them.
pub open spec fn joined(parts: Seq<Seq<char>>, separator: Seq<char>) -> Seq<char>
    decreases parts.len(),
{
    if parts.len() == 0 {
        Seq::empty()
    } else if parts.len() == 1 {
        parts[0]
    } else {
        joined(parts.drop_last(), separator) + separator + parts.last()
    }
}

/// The characters of some strings.
pub open spec fn texts(strings: Seq<String>) -> Seq<Seq<char>> {
    Seq::new(strings.len(), |i: int| strings[i]@)
}

fn digit_to_char(digit: u64) -> (c: char)
    requires
        digit < 10,
    ensures
        c == digit_char(digit as int),
{
    match digit {
        0 => '0',
        1 => '1',
        2 => '2',
        3 => '3',
        4 => '4',
        5 => '5',
        6 => '6',
        7 => '7',
        8 => '8',
        _ => '9',
    }
}

/// Writes a number in decimal behind a text.
pub fn push_decimal(text: &mut String, n: u64)
    ensures
        final(text)@ == old(text)@ + decimal(n as nat),
    decreases n,
{
    if n >= 10 {
        push_decimal(text, n / 10);
    }
    let ghost before = text@;
    text.push(digit_to_char(n % 10));
    assert(text@ =~= old(text)@ + decimal(n as nat));
}

/// A number in decimal.
pub fn to_decimal(n: u64) -> (text: String)
    ensures
        text@ == decimal(n as nat),
{
    let mut text = String::new();
    push_decimal(&mut text, n);
    assert(text@ =~= decimal(n as nat));
    text
}

/// Writes some copies of a character behind a text.
pub fn push_repeated(text: &mut String, c: char, count: usize)
    ensures
        final(text)@ == old(text)@ + repeated(c, count as int),
{
    let mut i: usize = 0;
    assert(text@ =~= old(text)@ + repeated(c, 0));
    while i < count
        invariant
            i <= count,
            text@ == old(text)@ + repeated(c, i as int),
        decreases count - i,
    {
        text.push(c);
        i = i + 1;
        assert(text@ =~= old(text)@ + repeated(c, i as int));
    }
}

/// A string of some copies of a character.
pub fn repeat_char(c: char, count: usize) -> (text: String)
    ensures
        text@ == repeated(c, count as int),
{
    let mut text = String::new();
    push_repeated(&mut text, c, count);
    assert(text@ =~= repeated(c, count as int));
    text
}

/// Fills a text up with spaces behind it.
pub fn pad_right(text: &str, width: usize) -> (padded: String)
    ensures
        padded@ == padded_right(text@, width as int),
{
    let mut padded = String::new();
    padded.append(text);
    let len: usize = text.unicode_len();
    if len < width {
        push_repeated(&mut padded, ' ', width - len);
    }
    assert(padded@ =~= padded_right(text@, width as int));
    padded
}

/// Fills a text up with spaces in front of it.
pub fn pad_left(text: &str, width: usize) -> (padded: String)
    ensures
        padded@ == padded_left(text@, width as int),
{
    let mut padded = String::new();
    let len: usize = text.unicode_len();
    if len < width {
        push_repeated(&mut padded, ' ', width - len);
    }
    padded.append(text);
    assert(padded@ =~= padded_left(text@, width as int));
    padded
}

/// The first few characters of a text.
pub fn cut_to(text: &str, width: usize) -> (short: String)
    ensures
        short@ == cut(text@, width as int),
{
    let mut short = String::new();
    if text.unicode_len() <= width {
        short.append(text);
    } else {
        short.append(text.substring_char(0, width));
    }
    assert(short@ =~= cut(text@, width as int));
    short
}

/// Puts texts one behind the other with a separator between them.
pub fn join(parts: &Vec<String>, separator: &str) -> (text: String)
    ensures
        text@ == joined(texts(parts@), separator@),
{
    let mut text = String::new();
    let ghost all = texts(parts@);
    let mut i: usize = 0;
    while i < parts.len()
        invariant
            i <= parts.len(),
            all == texts(parts@),
            text@ == joined(all.take(i as int), separator@),
        decreases parts.len() - i,
    {
        let ghost done = all.take(i as int);
        let ghost more = all.take(i + 1);
        assert(more.drop_last() =~= done);
        assert(more.last() == parts@[i as int]@);
        if i > 0 {
            text.append(separator);
        }
        text.append(parts[i].as_str());
        assert(text@ =~= joined(more, separator@));
        i = i + 1;
    }
    assert(all.take(i as int) =~= all);
    text
}

/// A truth value as a word.
pub open spec fn bool_word(value: bool) -> Seq<char> {
    if value {
        "true"@
    } else {
        "false"@
    }
}

/// A truth value as a word.
pub fn bool_str(value: bool) -> (word: &'static str)
    ensures
        word@ == bool_word(value),
{
    if value {
        "true"
    } else {
        "false"
    }
}

/// A number that may be missing, as it is shown to a developer.
pub open spec fn option_text(value: Option<u64>) -> Seq<char> {
    match value {
        Some(n) => "Some("@ + decimal(n as nat) + ")"@,
        None => "None"@,
    }
}

/// A number that may be missing, as it is shown to a developer.
pub fn show_option(value: Option<u64>) -> (text: String)
    ensures
        text@ == option_text(value),
{
    match value {
        Some(n) => String::from_str("Some(").concat(to_decimal(n).as_str()).concat(")"),
        None => String::from_str("None"),
    }
}

/// The number that some decimal digits stand for.
pub open spec fn number_read(text: Seq<char>) -> int
    decreases text.len(),
{
    if text.len() == 0 {
        0
    } else {
        10 * number_read(text.drop_last()) + (text.last() as int - '0' as int)
    }
}

/// A number in decimal is read back as the number: it has only digits, at least one, and no 0 in
/// front of others.
pub proof fn a_decimal_number_is_read_back(n: nat)
    ensures
        number_read(decimal(n)) == n,
        decimal(n).len() > 0,
        forall|i: int| 0 <= i < decimal(n).len() ==> '0' <= #[trigger] decimal(n)[i] <= '9',
        n > 0 ==> decimal(n)[0] != '0',
        n < 10 ==> decimal(n).len() == 1,
        n >= 10 ==> decimal(n).len() == decimal(n / 10).len() + 1,
    decreases n,
{
    if n < 10 {
        assert(decimal(n).drop_last() =~= Seq::empty());
        assert(number_read(Seq::empty()) == 0);
    } else {
        a_decimal_number_is_read_back(n / 10);
        assert(decimal(n).drop_last() =~= decimal(n / 10));
    }
}

/// A text that is filled up has at least the width and keeps its characters, at the front where it
/// is filled up behind and at the back where it is filled up in front; the rest are spaces.
pub proof fn a_text_is_filled_up_with_spaces(text: Seq<char>, width: int, i: int)
    requires
        0 <= width,
    ensures
        ({
            let behind = padded_right(text, width);
            let before = padded_left(text, width);
            let missing: int = if width > text.len() {
                width - text.len()
            } else {
                0
            };
            &&& behind.len() == text.len() + missing && before.len() == text.len() + missing
            &&& 0 <= i < text.len() ==> behind[i] == text[i] && before[missing + i] == text[i]
            &&& text.len() <= i < behind.len() ==> behind[i] == ' '
            &&& 0 <= i < missing ==> before[i] == ' '
        }),
{
}

/// A text that is cut has at most the width, and what is left are its first characters.
pub proof fn a_text_is_cut_behind(text: Seq<char>, width: int, i: int)
    requires
        0 <= width,
    ensures
        cut(text, width).len() == (if text.len() <= width {
            text.len() as int
        } else {
            width
        }),
        0 <= i < cut(text, width).len() ==> cut(text, width)[i] == text[i],
{
}

/// Joined texts stand one behind the other with the separator between any two of them, and none
/// before the first or behind the last.
pub proof fn a_separator_stands_between_texts(
    parts: Seq<Seq<char>>,
    part: Seq<char>,
    separator: Seq<char>,
)
    ensures
        joined(Seq::empty(), separator) == Seq::<char>::empty(),
        joined(seq![part], separator) == part,
        parts.len() > 0 ==> joined(parts.push(part), separator) == joined(parts, separator)
            + separator + part,
{
    if parts.len() > 0 {
        assert(parts.push(part).drop_last() =~= parts);
    }
}

} // verus!
