//! Finding one's way through a JSON text.
//!
//! A text is a sequence of bytes, and a value in it is named by the position of its
//! first byte. What is said here of a text that is not valid JSON has no meaning.
use vstd::prelude::*;

verus! {

/// The quote that strings start and end with.
pub const QUOTE: u8 = 0x22;

/// The character that escapes start with.
pub const BACKSLASH: u8 = 0x5c;

/// What stands between the items of arrays and objects.
pub const COMMA: u8 = 0x2c;

/// What arrays start with.
pub const OPEN_BRACKET: u8 = 0x5b;

/// What arrays end with.
pub const CLOSE_BRACKET: u8 = 0x5d;

/// What objects start with.
pub const OPEN_BRACE: u8 = 0x7b;

/// What objects end with.
pub const CLOSE_BRACE: u8 = 0x7d;

/// What `null` starts with.
pub const NULL_START: u8 = 0x6e;

/// One step through the text of a string: a byte, or an escape.
pub struct Unit {
    /// The code of what it stands for.
    pub code: u32,
    /// How many bytes of the text it takes up.
    pub width: usize,
    /// How many bytes it stands for in UTF-8.
    pub size: usize,
    /// Whether a character starts with it.
    pub starts: bool,
}

/// What a digit of an escape is worth.
pub open spec fn hex_digit(byte: u8) -> u32 {
    if 0x30 <= byte <= 0x39 {
        (byte - 0x30) as u32
    } else if 0x41 <= byte <= 0x46 {
        (byte - 0x37) as u32
    } else if 0x61 <= byte <= 0x66 {
        (byte - 0x57) as u32
    } else {
        0
    }
}

/// The code of the escape whose four digits are at `i`.
pub open spec fn hex_code(text: Seq<u8>, i: int) -> u32 {
    (hex_digit(text[i]) * 0x1000 + hex_digit(text[i + 1]) * 0x100 + hex_digit(text[i + 2]) * 0x10
        + hex_digit(text[i + 3])) as u32
}

/// The code of the escape that is written with the letter `byte`.
pub open spec fn letter_code(byte: u8) -> u32 {
    if byte == 0x62 {
        0x08
    } else if byte == 0x66 {
        0x0c
    } else if byte == 0x6e {
        0x0a
    } else if byte == 0x72 {
        0x0d
    } else if byte == 0x74 {
        0x09
    } else {
        byte as u32
    }
}

/// How many bytes the code of an escape stands for in UTF-8. Of the two escapes of
/// a pair, each stands for half.
pub open spec fn utf8_size(code: u32) -> usize {
    if code < 0x80 {
        1
    } else if code < 0x800 || 0xd800 <= code < 0xe000 {
        2
    } else {
        3
    }
}

/// The step through the text of a string that is at `i`.
pub open spec fn unit_at(text: Seq<u8>, i: int) -> Unit {
    if text[i] != BACKSLASH || i + 1 >= text.len() {
        Unit { code: text[i] as u32, width: 1, size: 1, starts: !(0x80 <= text[i] < 0xc0) }
    } else if text[i + 1] == 0x75 && i + 5 < text.len() {
        let code = hex_code(text, i + 2);
        Unit { code, width: 6, size: utf8_size(code), starts: !(0xdc00 <= code < 0xe000) }
    } else {
        Unit { code: letter_code(text[i + 1]), width: 2, size: 1, starts: true }
    }
}

/// Where the string whose text goes on at `i` ends: at its closing quote.
pub open spec fn string_end(text: Seq<u8>, i: int) -> int
    decreases text.len() - i,
{
    if i >= text.len() || text[i] == QUOTE {
        i
    } else {
        string_end(text, i + unit_at(text, i).width)
    }
}

/// Where the text goes on after the string whose text goes on at `i`.
pub open spec fn after_string(text: Seq<u8>, i: int) -> int {
    if string_end(text, i) < text.len() {
        string_end(text, i) + 1
    } else {
        text.len() as int
    }
}

/// Where the text of the string goes on after `wanted`, if the characters of that
/// from the `n`th on are what it has at `i`.
pub open spec fn after_chars(text: Seq<u8>, i: int, wanted: Seq<char>, n: int) -> Option<int>
    decreases wanted.len() - n,
{
    if n >= wanted.len() {
        Some(i)
    } else if i >= text.len() || text[i] == QUOTE || unit_at(text, i).code != wanted[n] as u32 {
        None
    } else {
        after_chars(text, i + unit_at(text, i).width, wanted, n + 1)
    }
}

/// Whether the value at `at` is the string `wanted`, which is made of ASCII
/// characters.
pub open spec fn is_text(text: Seq<u8>, at: int, wanted: Seq<char>) -> bool {
    &&& 0 <= at < text.len()
    &&& text[at] == QUOTE
    &&& match after_chars(text, at + 1, wanted, 0) {
        Some(end) => end < text.len() && text[end] == QUOTE,
        None => false,
    }
}

/// Whether `byte` is white space.
pub open spec fn is_space(byte: u8) -> bool {
    byte == 0x20 || byte == 0x09 || byte == 0x0a || byte == 0x0d
}

/// Where the text goes on after the white space at `i`.
pub open spec fn skip_space(text: Seq<u8>, i: int) -> int
    decreases text.len() - i,
{
    if i < text.len() && is_space(text[i]) {
        skip_space(text, i + 1)
    } else {
        i
    }
}

/// Where the item of an array or object that goes on at `i`, inside `depth` arrays
/// and objects of its own, ends: at the comma or the closing bracket behind it.
pub open spec fn item_end(text: Seq<u8>, i: int, depth: nat) -> int
    decreases text.len() - i,
{
    if i >= text.len() {
        i
    } else if text[i] == QUOTE {
        proof {
            lemma_string_end(text, i + 1);
        }
        item_end(text, after_string(text, i + 1), depth)
    } else if text[i] == OPEN_BRACE || text[i] == OPEN_BRACKET {
        item_end(text, i + 1, depth + 1)
    } else if text[i] == CLOSE_BRACE || text[i] == CLOSE_BRACKET {
        if depth == 0 {
            i
        } else {
            item_end(text, i + 1, (depth - 1) as nat)
        }
    } else if text[i] == COMMA && depth == 0 {
        i
    } else {
        item_end(text, i + 1, depth)
    }
}

/// Where the items are of the array or object whose text goes on at `i`.
pub open spec fn items_from(text: Seq<u8>, i: int) -> Seq<int>
    decreases text.len() - i,
{
    let start = skip_space(text, i);
    if start >= text.len() || text[start] == CLOSE_BRACE || text[start] == CLOSE_BRACKET {
        Seq::empty()
    } else {
        let end = item_end(text, start, 0);
        if end < text.len() && text[end] == COMMA {
            proof {
                lemma_skip_space(text, i);
                lemma_item_end(text, start, 0);
            }
            seq![start] + items_from(text, end + 1)
        } else {
            seq![start]
        }
    }
}

/// Where the items are of the value at `at`, which has none unless it starts with
/// `open`.
pub open spec fn items(text: Seq<u8>, at: int, open: u8) -> Seq<int> {
    if 0 <= at < text.len() && text[at] == open {
        items_from(text, at + 1)
    } else {
        Seq::empty()
    }
}

/// Where the value is of the member of an object that is at `item`.
pub open spec fn member_value(text: Seq<u8>, item: int) -> int {
    if item < text.len() {
        let colon = skip_space(text, after_string(text, item + 1));
        if colon < text.len() {
            skip_space(text, colon + 1)
        } else {
            text.len() as int
        }
    } else {
        text.len() as int
    }
}

/// Where the values are of those members of an object that are named `name`, out of
/// the members at `members`.
pub open spec fn named_values(text: Seq<u8>, members: Seq<int>, name: Seq<char>) -> Seq<int>
    decreases members.len(),
{
    if members.len() == 0 {
        Seq::empty()
    } else {
        let values = named_values(text, members.drop_last(), name);
        if is_text(text, members.last(), name) {
            values.push(member_value(text, members.last()))
        } else {
            values
        }
    }
}

/// Where the values are of the field `name` of the structure at `at`. A structure
/// is an object, with a member for each field, or an array, with the field as the
/// element `index`. Without an index only an object is a structure.
pub open spec fn field(text: Seq<u8>, at: int, name: Seq<char>, index: Option<usize>) -> Seq<int> {
    let elements = items(text, at, OPEN_BRACKET);
    match index {
        Some(index) if index < elements.len() => seq![elements[index as int]],
        _ => named_values(text, items(text, at, OPEN_BRACE), name),
    }
}

/// Where the values are of the field `name` of the structures at `ats`.
pub open spec fn fields(
    text: Seq<u8>,
    ats: Seq<int>,
    name: Seq<char>,
    index: Option<usize>,
) -> Seq<int>
    decreases ats.len(),
{
    if ats.len() == 0 {
        Seq::empty()
    } else {
        fields(text, ats.drop_last(), name, index) + field(text, ats.last(), name, index)
    }
}

/// Where the members are of the objects at `ats`.
pub open spec fn members(text: Seq<u8>, ats: Seq<int>) -> Seq<int>
    decreases ats.len(),
{
    if ats.len() == 0 {
        Seq::empty()
    } else {
        members(text, ats.drop_last()) + items(text, ats.last(), OPEN_BRACE)
    }
}

/// Whether one of the values at `ats` is the string `wanted`.
pub open spec fn some_text(text: Seq<u8>, ats: Seq<int>, wanted: Seq<char>) -> bool {
    exists|k: int| 0 <= k < ats.len() && is_text(text, #[trigger] ats[k], wanted)
}

/// Whether one of the values at `ats` is not `null`.
pub open spec fn some_value(text: Seq<u8>, ats: Seq<int>) -> bool {
    exists|k: int|
        0 <= k < ats.len() && 0 <= #[trigger] ats[k] < text.len() && text[ats[k]] != NULL_START
}

/// A string ends where its text starts or behind that, and within the text.
pub proof fn lemma_string_end(text: Seq<u8>, i: int)
    requires
        i <= text.len(),
    ensures
        i <= string_end(text, i) <= text.len(),
    decreases text.len() - i,
{
    if !(i >= text.len() || text[i] == QUOTE) {
        lemma_string_end(text, i + unit_at(text, i).width);
    }
}

/// White space ends where it starts or behind that.
pub proof fn lemma_skip_space(text: Seq<u8>, i: int)
    ensures
        i <= skip_space(text, i),
        i <= text.len() ==> skip_space(text, i) <= text.len(),
    decreases text.len() - i,
{
    if i < text.len() && is_space(text[i]) {
        lemma_skip_space(text, i + 1);
    }
}

/// An item ends where it starts or behind that.
pub proof fn lemma_item_end(text: Seq<u8>, i: int, depth: nat)
    ensures
        i <= item_end(text, i, depth),
    decreases text.len() - i,
{
    if i < text.len() {
        if text[i] == QUOTE {
            lemma_string_end(text, i + 1);
            lemma_item_end(text, after_string(text, i + 1), depth);
        } else if text[i] == OPEN_BRACE || text[i] == OPEN_BRACKET {
            lemma_item_end(text, i + 1, depth + 1);
        } else if text[i] == CLOSE_BRACE || text[i] == CLOSE_BRACKET {
            if depth > 0 {
                lemma_item_end(text, i + 1, (depth - 1) as nat);
            }
        } else if !(text[i] == COMMA && depth == 0) {
            lemma_item_end(text, i + 1, depth);
        }
    }
}

/// Whether `byte` is how the digit `digit` is written in an escape.
pub open spec fn writes_digit(byte: u8, digit: int) -> bool {
    ||| 0 <= digit < 10 && byte == 0x30 + digit
    ||| 10 <= digit < 16 && byte == 0x57 + digit
    ||| 10 <= digit < 16 && byte == 0x37 + digit
}

/// A byte of a string that is no backslash stands for itself, and starts a character
/// unless it is one of those that go on with one.
pub proof fn law_bytes_stand_for_themselves(text: Seq<u8>, i: int)
    requires
        0 <= i < text.len(),
        text[i] != 0x5c,
    ensures
        unit_at(text, i).code == text[i],
        unit_at(text, i).width == 1,
        unit_at(text, i).size == 1,
        unit_at(text, i).starts <==> text[i] < 0x80 || text[i] >= 0xc0,
{
}

/// An escape with four digits stands for the character with that code, which takes
/// up as many bytes as it does in UTF-8. Each half of a pair stands for two of the
/// four bytes of a character, which starts with the first half.
pub proof fn law_numbered_escapes_stand_for_their_code(
    text: Seq<u8>,
    i: int,
    first: int,
    second: int,
    third: int,
    fourth: int,
)
    requires
        0 <= i,
        i + 6 <= text.len(),
        text[i] == 0x5c,
        text[i + 1] == 0x75,
        writes_digit(text[i + 2], first),
        writes_digit(text[i + 3], second),
        writes_digit(text[i + 4], third),
        writes_digit(text[i + 5], fourth),
    ensures
        ({
            let code = first * 4096 + second * 256 + third * 16 + fourth;
            let unit = unit_at(text, i);
            &&& unit.code == code
            &&& unit.width == 6
            &&& code < 0x80 ==> unit.size == 1
            &&& 0x80 <= code < 0x800 ==> unit.size == 2
            &&& 0xd800 <= code < 0xe000 ==> unit.size == 2
            &&& 0x800 <= code < 0xd800 || 0xe000 <= code ==> unit.size == 3
            &&& unit.starts <==> !(0xdc00 <= code < 0xe000)
        }),
{
}

/// An escape with a letter stands for the character that JSON says.
pub proof fn law_lettered_escapes_stand_for_their_character(text: Seq<u8>, i: int)
    requires
        0 <= i,
        i + 1 < text.len(),
        text[i] == 0x5c,
        text[i + 1] != 0x75,
    ensures
        unit_at(text, i).width == 2,
        unit_at(text, i).size == 1,
        unit_at(text, i).starts,
        text[i + 1] == 0x22 ==> unit_at(text, i).code == 0x22,
        text[i + 1] == 0x5c ==> unit_at(text, i).code == 0x5c,
        text[i + 1] == 0x2f ==> unit_at(text, i).code == 0x2f,
        text[i + 1] == 0x62 ==> unit_at(text, i).code == 0x08,
        text[i + 1] == 0x66 ==> unit_at(text, i).code == 0x0c,
        text[i + 1] == 0x6e ==> unit_at(text, i).code == 0x0a,
        text[i + 1] == 0x72 ==> unit_at(text, i).code == 0x0d,
        text[i + 1] == 0x74 ==> unit_at(text, i).code == 0x09,
{
}

/// A string ends at the first quote that is not escaped.
pub proof fn law_string_ends_at_its_quote(text: Seq<u8>, i: int)
    requires
        0 <= i < text.len(),
    ensures
        text[i] == 0x22 ==> string_end(text, i) == i && after_string(text, i) == i + 1,
        text[i] != 0x22 && text[i] != 0x5c ==> string_end(text, i) == string_end(text, i + 1),
        text[i] == 0x5c && i + 1 < text.len() && text[i + 1] != 0x75 ==> string_end(text, i)
            == string_end(text, i + 2),
        text[i] == 0x5c && i + 6 <= text.len() && text[i + 1] == 0x75 ==> string_end(text, i)
            == string_end(text, i + 6),
{
}

/// Spaces, tabs, line feeds and carriage returns are skipped, and nothing else is.
pub proof fn law_white_space_is_skipped(text: Seq<u8>, i: int)
    requires
        0 <= i <= text.len(),
    ensures
        i <= skip_space(text, i) <= text.len(),
        forall|k: int|
            i <= k < skip_space(text, i) ==> #[trigger] text[k] == 0x20 || text[k] == 0x09 || text[k]
                == 0x0a || text[k] == 0x0d,
        skip_space(text, i) < text.len() ==> {
            let byte = text[skip_space(text, i)];
            byte != 0x20 && byte != 0x09 && byte != 0x0a && byte != 0x0d
        },
    decreases text.len() - i,
{
    if i < text.len() && is_space(text[i]) {
        law_white_space_is_skipped(text, i + 1);
    }
}

/// An item of an array or object goes over strings and over arrays and objects of
/// its own, whatever is in them, and ends at the comma or the bracket behind it.
pub proof fn law_items_end_outside_strings_and_brackets(text: Seq<u8>, i: int, depth: nat)
    requires
        0 <= i < text.len(),
    ensures
        text[i] == 0x22 && string_end(text, i + 1) < text.len() ==> item_end(text, i, depth)
            == item_end(text, string_end(text, i + 1) + 1, depth),
        text[i] == 0x5b || text[i] == 0x7b ==> item_end(text, i, depth) == item_end(
            text,
            i + 1,
            depth + 1,
        ),
        (text[i] == 0x5d || text[i] == 0x7d) && depth > 0 ==> item_end(text, i, depth) == item_end(
            text,
            i + 1,
            (depth - 1) as nat,
        ),
        text[i] == 0x5d || text[i] == 0x7d || text[i] == 0x2c ==> item_end(text, i, 0) == i,
        text[i] == 0x2c && depth > 0 ==> item_end(text, i, depth) == item_end(text, i + 1, depth),
        text[i] != 0x22 && text[i] != 0x2c && text[i] != 0x5b && text[i] != 0x5d && text[i] != 0x7b
            && text[i] != 0x7d ==> item_end(text, i, depth) == item_end(text, i + 1, depth),
{
}

/// Positions in a text, as numbers.
pub open spec fn positions(found: Seq<usize>) -> Seq<int> {
    found.map_values(|at: usize| at as int)
}

fn hex_digit_of(byte: u8) -> (res: u32)
    ensures
        res == hex_digit(byte),
        res < 16,
{
    if 0x30 <= byte && byte <= 0x39 {
        (byte - 0x30) as u32
    } else if 0x41 <= byte && byte <= 0x46 {
        (byte - 0x37) as u32
    } else if 0x61 <= byte && byte <= 0x66 {
        (byte - 0x57) as u32
    } else {
        0
    }
}

fn letter_code_of(byte: u8) -> (res: u32)
    ensures
        res == letter_code(byte),
{
    if byte == 0x62 {
        0x08
    } else if byte == 0x66 {
        0x0c
    } else if byte == 0x6e {
        0x0a
    } else if byte == 0x72 {
        0x0d
    } else if byte == 0x74 {
        0x09
    } else {
        byte as u32
    }
}

/// The step through the text of a string that is at `i`.
pub fn read_unit(text: &[u8], i: usize) -> (res: Unit)
    requires
        i < text@.len(),
    ensures
        res == unit_at(text@, i as int),
        1 <= res.size <= res.width,
        i + res.width <= text@.len(),
{
    let byte = text[i];
    if byte != BACKSLASH || i + 1 >= text.len() {
        Unit { code: byte as u32, width: 1, size: 1, starts: !(0x80 <= byte && byte < 0xc0) }
    } else if text[i + 1] == 0x75 && text.len() - i > 5 {
        let code: u32 = hex_digit_of(text[i + 2]) * 0x1000 + hex_digit_of(text[i + 3]) * 0x100
            + hex_digit_of(text[i + 4]) * 0x10 + hex_digit_of(text[i + 5]);
        let size: usize = if code < 0x80 {
            1
        } else if code < 0x800 || (0xd800 <= code && code < 0xe000) {
            2
        } else {
            3
        };
        Unit { code, width: 6, size, starts: !(0xdc00 <= code && code < 0xe000) }
    } else {
        Unit { code: letter_code_of(text[i + 1]), width: 2, size: 1, starts: true }
    }
}

fn find_after_string(text: &[u8], start: usize) -> (end: usize)
    requires
        start <= text@.len(),
    ensures
        end == after_string(text@, start as int),
        start <= end <= text@.len(),
{
    let mut i: usize = start;
    while i < text.len() && text[i] != QUOTE
        invariant
            start <= i <= text@.len(),
            string_end(text@, i as int) == string_end(text@, start as int),
        decreases text@.len() - i,
    {
        i += read_unit(text, i).width;
    }
    if i < text.len() {
        i + 1
    } else {
        i
    }
}

/// Where the text of the string goes on after `wanted`, if that is what it has at
/// `start`.
pub fn find_after_chars(text: &[u8], start: usize, wanted: &str) -> (res: Option<usize>)
    requires
        start <= text@.len(),
    ensures
        match res {
            Some(end) => after_chars(text@, start as int, wanted@, 0) == Some(end as int)
                && start <= end <= text@.len(),
            None => after_chars(text@, start as int, wanted@, 0) is None,
        },
{
    let count: usize = wanted.unicode_len();
    let mut i: usize = start;
    let mut n: usize = 0;
    while n < count
        invariant
            n <= count,
            count == wanted@.len(),
            start <= i <= text@.len(),
            after_chars(text@, i as int, wanted@, n as int) == after_chars(
                text@,
                start as int,
                wanted@,
                0,
            ),
        decreases count - n,
    {
        if i >= text.len() || text[i] == QUOTE {
            return None;
        }
        let unit = read_unit(text, i);
        if unit.code != wanted.get_char(n) as u32 {
            return None;
        }
        i += unit.width;
        n += 1;
    }
    Some(i)
}

fn check_text(text: &[u8], at: usize, wanted: &str) -> (res: bool)
    ensures
        res == is_text(text@, at as int, wanted@),
{
    if at < text.len() && text[at] == QUOTE {
        match find_after_chars(text, at + 1, wanted) {
            Some(end) => end < text.len() && text[end] == QUOTE,
            None => false,
        }
    } else {
        false
    }
}

/// Where the text goes on after the white space at `start`.
pub fn find_after_space(text: &[u8], start: usize) -> (end: usize)
    requires
        start <= text@.len(),
    ensures
        end == skip_space(text@, start as int),
        start <= end <= text@.len(),
{
    let mut i: usize = start;
    while i < text.len() && (text[i] == 0x20 || text[i] == 0x09 || text[i] == 0x0a || text[i]
        == 0x0d)
        invariant
            start <= i <= text@.len(),
            skip_space(text@, i as int) == skip_space(text@, start as int),
        decreases text@.len() - i,
    {
        i += 1;
    }
    i
}

fn find_item_end(text: &[u8], start: usize) -> (end: usize)
    requires
        start <= text@.len(),
    ensures
        end == item_end(text@, start as int, 0),
        start <= end <= text@.len(),
{
    let mut i: usize = start;
    let mut depth: usize = 0;
    while i < text.len()
        invariant
            start <= i <= text@.len(),
            depth <= i,
            item_end(text@, i as int, depth as nat) == item_end(text@, start as int, 0),
        decreases text@.len() - i,
    {
        let byte = text[i];
        if byte == QUOTE {
            i = find_after_string(text, i + 1);
        } else if byte == OPEN_BRACE || byte == OPEN_BRACKET {
            i += 1;
            depth += 1;
        } else if byte == CLOSE_BRACE || byte == CLOSE_BRACKET {
            if depth == 0 {
                return i;
            }
            i += 1;
            depth -= 1;
        } else if byte == COMMA && depth == 0 {
            return i;
        } else {
            i += 1;
        }
    }
    i
}

fn find_items(text: &[u8], at: usize, open: u8) -> (res: Vec<usize>)
    ensures
        positions(res@) == items(text@, at as int, open),
{
    let mut res: Vec<usize> = Vec::new();
    if at >= text.len() || text[at] != open {
        assert(positions(res@) =~= items(text@, at as int, open));
        return res;
    }
    let mut i: usize = at + 1;
    assert(positions(res@) + items_from(text@, i as int) =~= items_from(text@, i as int));
    loop
        invariant
            i <= text@.len(),
            positions(res@) + items_from(text@, i as int) == items(text@, at as int, open),
        decreases text@.len() - i,
    {
        let start = find_after_space(text, i);
        if start >= text.len() || text[start] == CLOSE_BRACE || text[start] == CLOSE_BRACKET {
            assert(positions(res@) =~= positions(res@) + items_from(text@, i as int));
            return res;
        }
        let end = find_item_end(text, start);
        let ghost before = res@;
        res.push(start);
        assert(positions(res@) =~= positions(before) + seq![start as int]);
        if !(end < text.len() && text[end] == COMMA) {
            return res;
        }
        assert(positions(res@) + items_from(text@, end + 1) =~= positions(before) + items_from(
            text@,
            i as int,
        ));
        i = end + 1;
    }
}

fn find_member_value(text: &[u8], item: usize) -> (res: usize)
    ensures
        res == member_value(text@, item as int),
{
    if item < text.len() {
        let end = find_after_string(text, item + 1);
        let colon = find_after_space(text, end);
        if colon < text.len() {
            find_after_space(text, colon + 1)
        } else {
            text.len()
        }
    } else {
        text.len()
    }
}

fn find_named_values(text: &[u8], members: &Vec<usize>, name: &str) -> (res: Vec<usize>)
    ensures
        positions(res@) == named_values(text@, positions(members@), name@),
{
    let mut res: Vec<usize> = Vec::new();
    let mut k: usize = 0;
    assert(positions(members@).take(0) =~= Seq::<int>::empty());
    assert(positions(res@) =~= Seq::<int>::empty());
    while k < members.len()
        invariant
            k <= members@.len(),
            positions(res@) == named_values(text@, positions(members@).take(k as int), name@),
        decreases members@.len() - k,
    {
        let ghost seen = positions(members@).take(k + 1);
        assert(seen.drop_last() =~= positions(members@).take(k as int));
        assert(seen.last() == members@[k as int]);
        if check_text(text, members[k], name) {
            let ghost before = res@;
            let value = find_member_value(text, members[k]);
            res.push(value);
            assert(positions(res@) =~= positions(before).push(value as int));
        }
        k += 1;
    }
    assert(positions(members@).take(k as int) =~= positions(members@));
    res
}

fn find_field(text: &[u8], at: usize, name: &str, index: Option<usize>) -> (res: Vec<usize>)
    ensures
        positions(res@) == field(text@, at as int, name@, index),
{
    if let Some(index) = index {
        let elements = find_items(text, at, OPEN_BRACKET);
        assert(positions(elements@).len() == elements@.len());
        if index < elements.len() {
            let mut res: Vec<usize> = Vec::new();
            res.push(elements[index]);
            assert(positions(res@) =~= seq![positions(elements@)[index as int]]);
            return res;
        }
    }
    let members = find_items(text, at, OPEN_BRACE);
    find_named_values(text, &members, name)
}

/// What `first` and `second` hold, one after the other.
pub fn join(first: Vec<usize>, second: Vec<usize>) -> (res: Vec<usize>)
    ensures
        positions(res@) == positions(first@) + positions(second@),
{
    let mut res: Vec<usize> = first;
    let mut rest: Vec<usize> = second;
    res.append(&mut rest);
    assert(positions(res@) =~= positions(first@) + positions(second@));
    res
}

/// Where the values are of the field `name` of the structures at `ats`.
pub fn find_fields(text: &[u8], ats: &Vec<usize>, name: &str, index: Option<usize>) -> (res: Vec<
    usize,
>)
    ensures
        positions(res@) == fields(text@, positions(ats@), name@, index),
{
    let mut res: Vec<usize> = Vec::new();
    let mut k: usize = 0;
    assert(positions(ats@).take(0) =~= Seq::<int>::empty());
    assert(positions(res@) =~= Seq::<int>::empty());
    while k < ats.len()
        invariant
            k <= ats@.len(),
            positions(res@) == fields(text@, positions(ats@).take(k as int), name@, index),
        decreases ats@.len() - k,
    {
        let ghost seen = positions(ats@).take(k + 1);
        assert(seen.drop_last() =~= positions(ats@).take(k as int));
        assert(seen.last() == ats@[k as int]);
        res = join(res, find_field(text, ats[k], name, index));
        k += 1;
    }
    assert(positions(ats@).take(k as int) =~= positions(ats@));
    res
}

/// Where the members are of the objects at `ats`.
pub fn find_members(text: &[u8], ats: &Vec<usize>) -> (res: Vec<usize>)
    ensures
        positions(res@) == members(text@, positions(ats@)),
{
    let mut res: Vec<usize> = Vec::new();
    let mut k: usize = 0;
    assert(positions(ats@).take(0) =~= Seq::<int>::empty());
    assert(positions(res@) =~= Seq::<int>::empty());
    while k < ats.len()
        invariant
            k <= ats@.len(),
            positions(res@) == members(text@, positions(ats@).take(k as int)),
        decreases ats@.len() - k,
    {
        let ghost seen = positions(ats@).take(k + 1);
        assert(seen.drop_last() =~= positions(ats@).take(k as int));
        assert(seen.last() == ats@[k as int]);
        res = join(res, find_items(text, ats[k], OPEN_BRACE));
        k += 1;
    }
    assert(positions(ats@).take(k as int) =~= positions(ats@));
    res
}

/// Where the values are of the members at `members`.
pub fn find_values(text: &[u8], members: &Vec<usize>) -> (res: Vec<usize>)
    ensures
        positions(res@) == positions(members@).map_values(|item: int| member_value(text@, item)),
{
    let mut res: Vec<usize> = Vec::new();
    let mut k: usize = 0;
    while k < members.len()
        invariant
            k <= members@.len(),
            res@.len() == k,
            forall|j: int|
                0 <= j < k ==> #[trigger] res@[j] == member_value(text@, members@[j] as int),
        decreases members@.len() - k,
    {
        res.push(find_member_value(text, members[k]));
        k += 1;
    }
    assert(positions(res@) =~= positions(members@).map_values(
        |item: int| member_value(text@, item),
    ));
    res
}

/// Whether one of the values at `ats` is the string `wanted`.
pub fn has_text(text: &[u8], ats: &Vec<usize>, wanted: &str) -> (res: bool)
    ensures
        res == some_text(text@, positions(ats@), wanted@),
{
    let mut k: usize = 0;
    while k < ats.len()
        invariant
            k <= ats@.len(),
            forall|j: int|
                0 <= j < k ==> !is_text(text@, #[trigger] positions(ats@)[j], wanted@),
        decreases ats@.len() - k,
    {
        if check_text(text, ats[k], wanted) {
            assert(is_text(text@, positions(ats@)[k as int], wanted@));
            return true;
        }
        k += 1;
    }
    false
}

/// Whether one of the values at `ats` is not `null`.
pub fn has_value(text: &[u8], ats: &Vec<usize>) -> (res: bool)
    ensures
        res == some_value(text@, positions(ats@)),
{
    let mut k: usize = 0;
    while k < ats.len()
        invariant
            k <= ats@.len(),
            forall|j: int|
                0 <= j < k ==> !(0 <= #[trigger] positions(ats@)[j] < text@.len()
                    && text@[positions(ats@)[j]] != NULL_START),
        decreases ats@.len() - k,
    {
        if ats[k] < text.len() && text[ats[k]] != NULL_START {
            assert(positions(ats@)[k as int] == ats@[k as int]);
            return true;
        }
        k += 1;
    }
    false
}

} // verus!
