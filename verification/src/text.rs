//! Human-readable text of numbers, flags, strings and lists, used in the
//! error messages that name what a client sent.
use crate::binary_message::strings_view;
use vstd::prelude::*;
use vstd::string::*;

verus! {

/// The character of a decimal digit.
pub open spec fn digit_char(d: nat) -> char {
    if d == 0 {
        '0'
    } else if d == 1 {
        '1'
    } else if d == 2 {
        '2'
    } else if d == 3 {
        '3'
    } else if d == 4 {
        '4'
    } else if d == 5 {
        '5'
    } else if d == 6 {
        '6'
    } else if d == 7 {
        '7'
    } else if d == 8 {
        '8'
    } else {
        '9'
    }
}

/// The decimal text of a number, without leading zeros.
pub open spec fn decimal(n: nat) -> Seq<char>
    decreases n,
{
    if n < 10 {
        seq![digit_char(n)]
    } else {
        decimal(n / 10).push(digit_char(n % 10))
    }
}

/// `true` or `false`.
pub open spec fn bool_text(b: bool) -> Seq<char> {
    if b {
        "true"@
    } else {
        "false"@
    }
}

/// The character of a hexadecimal digit, in lower case.
pub open spec fn hex_digit_char(d: nat) -> char {
    if d < 10 {
        digit_char(d)
    } else if d == 10 {
        'a'
    } else if d == 11 {
        'b'
    } else if d == 12 {
        'c'
    } else if d == 13 {
        'd'
    } else if d == 14 {
        'e'
    } else {
        'f'
    }
}

/// The hexadecimal text, without leading zeros, of a number below 256.
pub open spec fn small_hex(n: nat) -> Seq<char> {
    if n < 16 {
        seq![hex_digit_char(n)]
    } else {
        seq![hex_digit_char(n / 16), hex_digit_char(n % 16)]
    }
}

/// How `Debug` writes an ASCII character inside a string: the escapes `\0`,
/// `\t`, `\r`, `\n`, `\\` and `\"`; a printable character as it is (a single
/// quote included); any other control character as `\u{..}` in hexadecimal.
pub open spec fn ascii_debug(c: char) -> Seq<char> {
    if c == '\0' {
        "\\0"@
    } else if c == '\t' {
        "\\t"@
    } else if c == '\r' {
        "\\r"@
    } else if c == '\n' {
        "\\n"@
    } else if c == '\\' {
        "\\\\"@
    } else if c == '"' {
        "\\\""@
    } else if 0x20 <= (c as u32) && (c as u32) < 0x7f {
        seq![c]
    } else {
        "\\u{"@ + small_hex(c as u32 as nat) + "}"@
    }
}

/// What `char::escape_debug` writes for a character.
pub uninterp spec fn char_escape_debug(c: char) -> Seq<char>;

/// How `Debug` writes a character inside a string: as `char::escape_debug`
/// does, except that a single quote stays as it is.
pub open spec fn debug_char(c: char) -> Seq<char> {
    if (c as u32) < 0x80 {
        ascii_debug(c)
    } else {
        char_escape_debug(c)
    }
}

/// The characters of a string, each as `Debug` writes it.
pub open spec fn debug_chars(s: Seq<char>) -> Seq<char>
    decreases s.len(),
{
    if s.len() == 0 {
        Seq::<char>::empty()
    } else {
        debug_chars(s.drop_last()) + debug_char(s.last())
    }
}

/// A string as `Debug` writes it: escaped, between double quotes.
pub open spec fn quoted(s: Seq<char>) -> Seq<char> {
    "\""@ + debug_chars(s) + "\""@
}

/// The items' texts, separated by `, `.
pub open spec fn joined(items: Seq<Seq<char>>) -> Seq<char>
    decreases items.len(),
{
    if items.len() == 0 {
        Seq::<char>::empty()
    } else if items.len() == 1 {
        items[0]
    } else {
        joined(items.drop_last()) + ", "@ + items.last()
    }
}

/// A list of strings: each quoted, between brackets.
pub open spec fn strings_text(items: Seq<Seq<char>>) -> Seq<char> {
    "["@ + joined(items.map_values(|s: Seq<char>| quoted(s))) + "]"@
}

/// A list of bytes: each in decimal, between brackets.
pub open spec fn bytes_text(data: Seq<u8>) -> Seq<char> {
    "["@ + joined(data.map_values(|b: u8| decimal(b as nat))) + "]"@
}

fn digit_str(d: u64) -> (s: &'static str)
    requires
        d < 10,
    ensures
        s@ == seq![digit_char(d as nat)],
{
    proof {
        reveal_strlit("0");
        reveal_strlit("1");
        reveal_strlit("2");
        reveal_strlit("3");
        reveal_strlit("4");
        reveal_strlit("5");
        reveal_strlit("6");
        reveal_strlit("7");
        reveal_strlit("8");
        reveal_strlit("9");
    }
    if d == 0 {
        "0"
    } else if d == 1 {
        "1"
    } else if d == 2 {
        "2"
    } else if d == 3 {
        "3"
    } else if d == 4 {
        "4"
    } else if d == 5 {
        "5"
    } else if d == 6 {
        "6"
    } else if d == 7 {
        "7"
    } else if d == 8 {
        "8"
    } else {
        "9"
    }
}

/// The decimal text of a number.
pub fn decimal_string(n: u64) -> (s: String)
    ensures
        s@ == decimal(n as nat),
    decreases n,
{
    if n < 10 {
        digit_str(n).to_owned()
    } else {
        let front = decimal_string(n / 10);
        let s = front.concat(digit_str(n % 10));
        assert(s@ =~= decimal(n as nat));
        s
    }
}

/// `true` or `false`.
pub fn bool_string(b: bool) -> (s: String)
    ensures
        s@ == bool_text(b),
{
    if b {
        "true".to_owned()
    } else {
        "false".to_owned()
    }
}

fn hex_digit_str(d: u32) -> (s: &'static str)
    requires
        d < 16,
    ensures
        s@ == seq![hex_digit_char(d as nat)],
{
    proof {
        reveal_strlit("a");
        reveal_strlit("b");
        reveal_strlit("c");
        reveal_strlit("d");
        reveal_strlit("e");
        reveal_strlit("f");
    }
    if d < 10 {
        digit_str(d as u64)
    } else if d == 10 {
        "a"
    } else if d == 11 {
        "b"
    } else if d == 12 {
        "c"
    } else if d == 13 {
        "d"
    } else if d == 14 {
        "e"
    } else {
        "f"
    }
}

/// Writes a character with `char::escape_debug`. The contract claims only
/// that the text depends on the character alone; the Unicode tables that
/// decide which characters are escaped are not restated.
#[verifier::external_body]
fn char_escape_text(c: char) -> (r: String)
    ensures
        r@ == char_escape_debug(c),
{
    c.escape_debug().to_string()
}

/// A character of a string as `Debug` writes it; `itself` is the character
/// as a one-character string.
fn char_debug_string(c: char, itself: &str) -> (r: String)
    requires
        itself@ == seq![c],
    ensures
        r@ == debug_char(c),
{
    proof {
        reveal_strlit("\\0");
        reveal_strlit("\\t");
        reveal_strlit("\\r");
        reveal_strlit("\\n");
        reveal_strlit("\\\\");
        reveal_strlit("\\\"");
        reveal_strlit("\\u{");
        reveal_strlit("}");
    }
    let code = c as u32;
    if code >= 0x80 {
        char_escape_text(c)
    } else if c == '\0' {
        "\\0".to_owned()
    } else if c == '\t' {
        "\\t".to_owned()
    } else if c == '\r' {
        "\\r".to_owned()
    } else if c == '\n' {
        "\\n".to_owned()
    } else if c == '\\' {
        "\\\\".to_owned()
    } else if c == '"' {
        "\\\"".to_owned()
    } else if 0x20 <= code && code < 0x7f {
        itself.to_owned()
    } else {
        let digits = if code < 16 {
            hex_digit_str(code).to_owned()
        } else {
            hex_digit_str(code / 16).to_owned().concat(hex_digit_str(code % 16))
        };
        let r = "\\u{".to_owned().concat(digits.as_str()).concat("}");
        assert(r@ =~= debug_char(c));
        r
    }
}

/// A string as `Debug` writes it: escaped, between double quotes.
pub fn quoted_string(s: &str) -> (r: String)
    ensures
        r@ == quoted(s@),
{
    let n = s.unicode_len();
    let mut acc = "\"".to_owned();
    let mut i: usize = 0;
    assert(s@.take(0) =~= Seq::<char>::empty());
    while i < n
        invariant
            i <= n,
            n == s@.len(),
            acc@ == "\""@ + debug_chars(s@.take(i as int)),
        decreases n - i,
    {
        let c = s.get_char(i);
        let itself = s.substring_char(i, i + 1);
        assert(itself@ =~= seq![c]);
        let piece = char_debug_string(c, itself);
        proof {
            assert(s@.take(i + 1).drop_last() =~= s@.take(i as int));
            assert(s@.take(i + 1).last() == c);
        }
        acc = acc.concat(piece.as_str());
        assert(acc@ =~= "\""@ + debug_chars(s@.take(i + 1)));
        i += 1;
    }
    assert(s@.take(n as int) =~= s@);
    acc.concat("\"")
}

proof fn lemma_joined_push(items: Seq<Seq<char>>, i: int)
    requires
        0 <= i < items.len(),
    ensures
        joined(items.take(i + 1)) == if i == 0 {
            items[0]
        } else {
            joined(items.take(i)) + ", "@ + items[i]
        },
{
    assert(items.take(i + 1).drop_last() =~= items.take(i));
    if i == 0 {
        assert(items.take(1)[0] == items[0]);
    }
}

/// The text of a list of strings, each quoted.
pub fn strings_string(items: &Vec<String>) -> (r: String)
    ensures
        r@ == strings_text(strings_view(items@)),
{
    let ghost all = strings_view(items@).map_values(|s: Seq<char>| quoted(s));
    let mut acc = "[".to_owned();
    let mut i: usize = 0;
    assert(all.take(0) =~= Seq::<Seq<char>>::empty());
    while i < items.len()
        invariant
            i <= items@.len(),
            all == strings_view(items@).map_values(|s: Seq<char>| quoted(s)),
            acc@ == "["@ + joined(all.take(i as int)),
        decreases items.len() - i,
    {
        let q = quoted_string(items[i].as_str());
        proof {
            lemma_joined_push(all, i as int);
        }
        if i == 0 {
            acc = acc.concat(q.as_str());
        } else {
            acc = acc.concat(", ").concat(q.as_str());
        }
        assert(acc@ =~= "["@ + joined(all.take(i + 1)));
        i += 1;
    }
    assert(all.take(items@.len() as int) =~= all);
    let r = acc.concat("]");
    r
}

/// The text of a list of bytes, each in decimal.
pub fn bytes_string(data: &Vec<u8>) -> (r: String)
    ensures
        r@ == bytes_text(data@),
{
    let ghost all = data@.map_values(|b: u8| decimal(b as nat));
    let mut acc = "[".to_owned();
    let mut i: usize = 0;
    assert(all.take(0) =~= Seq::<Seq<char>>::empty());
    while i < data.len()
        invariant
            i <= data@.len(),
            all == data@.map_values(|b: u8| decimal(b as nat)),
            acc@ == "["@ + joined(all.take(i as int)),
        decreases data.len() - i,
    {
        let t = decimal_string(data[i] as u64);
        proof {
            lemma_joined_push(all, i as int);
        }
        if i == 0 {
            acc = acc.concat(t.as_str());
        } else {
            acc = acc.concat(", ").concat(t.as_str());
        }
        assert(acc@ =~= "["@ + joined(all.take(i + 1)));
        i += 1;
    }
    assert(all.take(data@.len() as int) =~= all);
    acc.concat("]")
}

} // verus!
