//! Lower-case hexadecimal text for frame data, and reading it back.
use vstd::prelude::*;
use vstd::utf8::*;

verus! {

/// The ASCII code of the hex digit for a value below 16 (`0-9`, `a-f`).
pub open spec fn hex_digit_code(n: int) -> u8 {
    if n < 10 {
        (48 + n) as u8
    } else {
        (87 + n) as u8
    }
}

/// The ASCII codes of the lower-case hex text of `bytes`: two digits per
/// byte, high nibble first.
pub open spec fn hex_codes(bytes: Seq<u8>) -> Seq<u8>
    decreases bytes.len(),
{
    if bytes.len() == 0 {
        seq![]
    } else {
        hex_codes(bytes.drop_last()) + seq![
            hex_digit_code(bytes.last() as int / 16),
            hex_digit_code(bytes.last() as int % 16),
        ]
    }
}

/// The lower-case hex text of `bytes`.
pub open spec fn hex_text(bytes: Seq<u8>) -> Seq<char> {
    hex_codes(bytes).map_values(|c: u8| c as char)
}

/// Wraps `String::from_utf8`. The contract claims what its documentation
/// says: it succeeds exactly on valid UTF-8, and the string holds those bytes.
#[verifier::external_body]
fn string_from_utf8(bytes: Vec<u8>) -> (r: Option<String>)
    ensures
        r is Some <==> valid_utf8(bytes@),
        r matches Some(s) ==> encode_utf8(s@) == bytes@,
{
    String::from_utf8(bytes).ok()
}

fn hex_digit(n: u8) -> (c: u8)
    requires
        n < 16,
    ensures
        c == hex_digit_code(n as int),
{
    if n < 10 {
        48 + n
    } else {
        87 + n
    }
}

proof fn lemma_hex_codes_len(bytes: Seq<u8>)
    ensures
        hex_codes(bytes).len() == 2 * bytes.len(),
        forall|i: int|
            0 <= i < hex_codes(bytes).len() ==> {
                let c = #[trigger] hex_codes(bytes)[i];
                (48 <= c <= 57) || (97 <= c <= 102)
            },
    decreases bytes.len(),
{
    if bytes.len() > 0 {
        lemma_hex_codes_len(bytes.drop_last());
    }
}

proof fn lemma_hex_text_encodes(bytes: Seq<u8>)
    ensures
        is_ascii_chars(hex_text(bytes)),
        encode_utf8(hex_text(bytes)) == hex_codes(bytes),
{
    lemma_hex_codes_len(bytes);
    let t = hex_text(bytes);
    let codes = hex_codes(bytes);
    assert forall|i: int| 0 <= i < t.len() implies '\0' <= #[trigger] t[i] <= '\u{7f}' by {
        assert(t[i] == codes[i] as char);
    }
    is_ascii_chars_encode_utf8(t);
    assert forall|i: int| 0 <= i < codes.len() implies encode_utf8(t)[i] == codes[i] by {
        assert(t[i] as u8 == encode_utf8(t)[i]);
        assert(t[i] == codes[i] as char);
    }
    assert(encode_utf8(t) =~= codes);
}

/// The lower-case hex text of `bytes`, two digits per byte.
pub fn bytes_to_hex_lower(bytes: &[u8]) -> (s: String)
    ensures
        s@ == hex_text(bytes@),
{
    let mut out: Vec<u8> = Vec::new();
    let mut i: usize = 0;
    while i < bytes.len()
        invariant
            i <= bytes.len(),
            out@ == hex_codes(bytes@.take(i as int)),
        decreases bytes.len() - i,
    {
        let b = bytes[i];
        out.push(hex_digit(b / 16));
        out.push(hex_digit(b % 16));
        proof {
            assert(bytes@.take(i + 1).drop_last() =~= bytes@.take(i as int));
            assert(bytes@.take(i + 1).last() == b);
            assert(out@ =~= hex_codes(bytes@.take(i + 1)));
        }
        i += 1;
    }
    proof {
        assert(bytes@.take(bytes.len() as int) =~= bytes@);
        lemma_hex_text_encodes(bytes@);
        encode_utf8_valid_utf8(hex_text(bytes@));
    }
    let ghost codes = out@;
    match string_from_utf8(out) {
        Some(s) => {
            proof {
                encode_utf8_decode_utf8(s@);
                encode_utf8_decode_utf8(hex_text(bytes@));
            }
            s
        },
        None => String::new(),
    }
}


/// The value of an ASCII hex digit of either case.
pub open spec fn hex_value(c: u8) -> Option<u8> {
    if 48 <= c <= 57 {
        Some((c - 48) as u8)
    } else if 97 <= c <= 102 {
        Some((c - 87) as u8)
    } else if 65 <= c <= 70 {
        Some((c - 55) as u8)
    } else {
        None
    }
}

/// The bytes that hex text (as ASCII codes) spells: two digits per byte,
/// high nibble first; `None` for an odd length or a character that is no
/// hex digit.
pub open spec fn parse_hex_codes(codes: Seq<u8>) -> Option<Seq<u8>>
    decreases codes.len(),
{
    if codes.len() % 2 != 0 {
        None
    } else if codes.len() == 0 {
        Some(seq![])
    } else {
        let n = codes.len() as int;
        match (parse_hex_codes(codes.take(n - 2)), hex_value(codes[n - 2]), hex_value(codes[n - 1])) {
            (Some(front), Some(h), Some(l)) => Some(front.push((h * 16 + l) as u8)),
            _ => None,
        }
    }
}

/// The bytes that hex text spells.
pub open spec fn parse_hex_text(text: Seq<char>) -> Option<Seq<u8>> {
    parse_hex_codes(encode_utf8(text))
}

fn hex_digit_value(c: u8) -> (r: Option<u8>)
    ensures
        r == hex_value(c),
{
    if 48 <= c && c <= 57 {
        Some(c - 48)
    } else if 97 <= c && c <= 102 {
        Some(c - 87)
    } else if 65 <= c && c <= 70 {
        Some(c - 55)
    } else {
        None
    }
}

proof fn lemma_parse_hex_prefix_fails(codes: Seq<u8>, i: int, j: int)
    requires
        0 <= i <= j,
        2 * j <= codes.len(),
        parse_hex_codes(codes.take(2 * i)) is None,
    ensures
        parse_hex_codes(codes.take(2 * j)) is None,
    decreases j - i,
{
    if i < j {
        lemma_parse_hex_prefix_fails(codes, i, j - 1);
        assert(codes.take(2 * j).take(2 * j - 2) =~= codes.take(2 * (j - 1)));
    }
}

/// Reads hex text of either case into bytes; `None` for an odd length or a
/// character that is no hex digit.
pub fn parse_hex(text: &str) -> (r: Option<Vec<u8>>)
    ensures
        match parse_hex_text(text@) {
            Some(b) => r matches Some(v) && v@ == b,
            None => r is None,
        },
{
    let codes = text.as_bytes();
    let ghost all = codes@;
    if codes.len() % 2 != 0 {
        return None;
    }
    let mut out: Vec<u8> = Vec::new();
    let mut i: usize = 0;
    let total = codes.len();
    let pairs = total / 2;
    assert(codes@.take(0) =~= Seq::<u8>::empty());
    while i < pairs
        invariant
            i <= pairs,
            pairs * 2 == codes@.len(),
            total == codes@.len(),
            all == codes@,
            codes@ == encode_utf8(text@),
            parse_hex_codes(codes@.take(2 * i)) == Some(out@),
        decreases pairs - i,
    {
        assert(2 * i + 1 < codes@.len());
        let hi = hex_digit_value(codes[2 * i]);
        let lo = hex_digit_value(codes[2 * i + 1]);
        let ghost next = codes@.take(2 * i + 2);
        proof {
            assert(next.take(2 * i) =~= codes@.take(2 * i));
            assert(next[2 * i] == codes@[2 * i]);
            assert(next[2 * i + 1] == codes@[2 * i + 1]);
        }
        match (hi, lo) {
            (Some(h), Some(l)) => {
                out.push(h * 16 + l);
            },
            _ => {
                proof {
                    assert(hi is None || lo is None);
                    assert(next.len() == 2 * i + 2);
                    assert(parse_hex_codes(next) is None);
                    lemma_parse_hex_prefix_fails(codes@, i + 1, pairs as int);
                    assert(codes@.take(2 * pairs) =~= codes@);
                }
                return None;
            },
        }
        i += 1;
    }
    assert(codes@.take(2 * pairs) =~= codes@);
    Some(out)
}

proof fn lemma_parse_hex_codes_of(bytes: Seq<u8>)
    ensures
        parse_hex_codes(hex_codes(bytes)) == Some(bytes),
    decreases bytes.len(),
{
    if bytes.len() > 0 {
        let front = bytes.drop_last();
        let b = bytes.last();
        lemma_parse_hex_codes_of(front);
        lemma_hex_codes_len(front);
        lemma_hex_codes_len(bytes);
        let codes = hex_codes(bytes);
        assert(codes.take(codes.len() - 2) =~= hex_codes(front));
        assert(hex_value(hex_digit_code(b as int / 16)) == Some((b / 16) as u8));
        assert(hex_value(hex_digit_code(b as int % 16)) == Some((b % 16) as u8));
        assert(front.push(b) =~= bytes);
    }
}

/// Law: hex text written by `bytes_to_hex_lower` is read back by `parse_hex`
/// as the same bytes.
pub proof fn hex_roundtrip(bytes: Seq<u8>)
    ensures
        parse_hex_text(hex_text(bytes)) == Some(bytes),
        hex_text(bytes).len() == 2 * bytes.len(),
{
    lemma_hex_text_encodes(bytes);
    lemma_parse_hex_codes_of(bytes);
    lemma_hex_codes_len(bytes);
}

proof fn lemma_hex_codes_at(bytes: Seq<u8>, i: int)
    requires
        0 <= i < bytes.len(),
    ensures
        hex_codes(bytes).len() == 2 * bytes.len(),
        hex_codes(bytes)[2 * i] == hex_digit_code(bytes[i] as int / 16),
        hex_codes(bytes)[2 * i + 1] == hex_digit_code(bytes[i] as int % 16),
    decreases bytes.len(),
{
    lemma_hex_codes_len(bytes);
    let front = bytes.drop_last();
    lemma_hex_codes_len(front);
    if i < bytes.len() - 1 {
        lemma_hex_codes_at(front, i);
    }
}

/// Law: hex text writes each byte as two digits, the high nibble first; a
/// digit `d` is the character `'0' + d` below ten and `'a' + (d - 10)` from
/// ten on.
pub proof fn hex_text_digits(bytes: Seq<u8>, i: int)
    requires
        0 <= i < bytes.len(),
    ensures
        hex_text(bytes).len() == 2 * bytes.len(),
        hex_text(bytes)[2 * i] as int == (if bytes[i] / 16 < 10 {
            '0' as int + bytes[i] / 16
        } else {
            'a' as int + bytes[i] / 16 - 10
        }),
        hex_text(bytes)[2 * i + 1] as int == (if bytes[i] % 16 < 10 {
            '0' as int + bytes[i] % 16
        } else {
            'a' as int + bytes[i] % 16 - 10
        }),
{
    lemma_hex_codes_at(bytes, i);
    let codes = hex_codes(bytes);
    assert(hex_text(bytes)[2 * i] == codes[2 * i] as char);
    assert(hex_text(bytes)[2 * i + 1] == codes[2 * i + 1] as char);
}

proof fn lemma_parse_hex_codes_digits(codes: Seq<u8>)
    ensures
        (parse_hex_codes(codes) is Some) <==> (codes.len() % 2 == 0 && forall|k: int|
            0 <= k < codes.len() ==> (48 <= #[trigger] codes[k] <= 57 || 65 <= codes[k] <= 70 || 97
                <= codes[k] <= 102)),
        parse_hex_codes(codes) matches Some(b) ==> b.len() * 2 == codes.len() && forall|i: int|
            0 <= i < b.len() ==> #[trigger] b[i] == 16 * (if codes[2 * i] <= 57 {
                codes[2 * i] - 48
            } else if codes[2 * i] <= 70 {
                codes[2 * i] - 55
            } else {
                codes[2 * i] - 87
            }) + (if codes[2 * i + 1] <= 57 {
                codes[2 * i + 1] - 48
            } else if codes[2 * i + 1] <= 70 {
                codes[2 * i + 1] - 55
            } else {
                codes[2 * i + 1] - 87
            }),
    decreases codes.len(),
{
    let n = codes.len() as int;
    if n % 2 == 0 && n > 0 {
        let front = codes.take(n - 2);
        lemma_parse_hex_codes_digits(front);
        assert forall|k: int| 0 <= k < front.len() implies front[k] == codes[k] by {}
        if parse_hex_codes(codes) is Some {
            assert forall|k: int| 0 <= k < codes.len() implies (48 <= #[trigger] codes[k] <= 57
                || 65 <= codes[k] <= 70 || 97 <= codes[k] <= 102) by {
                if k < n - 2 {
                    assert(front[k] == codes[k]);
                }
            }
        } else if forall|k: int|
            0 <= k < codes.len() ==> (48 <= #[trigger] codes[k] <= 57 || 65 <= codes[k] <= 70
                || 97 <= codes[k] <= 102) {
            assert forall|k: int| 0 <= k < front.len() implies (48 <= #[trigger] front[k] <= 57
                || 65 <= front[k] <= 70 || 97 <= front[k] <= 102) by {
                assert(front[k] == codes[k]);
            }
            assert(48 <= codes[n - 2] <= 57 || 65 <= codes[n - 2] <= 70 || 97 <= codes[n - 2]
                <= 102);
            assert(48 <= codes[n - 1] <= 57 || 65 <= codes[n - 1] <= 70 || 97 <= codes[n - 1]
                <= 102);
        }
        if let Some(b) = parse_hex_codes(codes) {
            let f = parse_hex_codes(front)->0;
            assert forall|i: int| 0 <= i < b.len() implies #[trigger] b[i] == 16 * (if codes[2
                * i] <= 57 {
                codes[2 * i] - 48
            } else if codes[2 * i] <= 70 {
                codes[2 * i] - 55
            } else {
                codes[2 * i] - 87
            }) + (if codes[2 * i + 1] <= 57 {
                codes[2 * i + 1] - 48
            } else if codes[2 * i + 1] <= 70 {
                codes[2 * i + 1] - 55
            } else {
                codes[2 * i + 1] - 87
            }) by {
                if i < f.len() {
                    assert(b[i] == f[i]);
                    assert(front[2 * i] == codes[2 * i]);
                    assert(front[2 * i + 1] == codes[2 * i + 1]);
                    assert(f[i] == 16 * (if front[2 * i] <= 57 {
                        front[2 * i] - 48
                    } else if front[2 * i] <= 70 {
                        front[2 * i] - 55
                    } else {
                        front[2 * i] - 87
                    }) + (if front[2 * i + 1] <= 57 {
                        front[2 * i + 1] - 48
                    } else if front[2 * i + 1] <= 70 {
                        front[2 * i + 1] - 55
                    } else {
                        front[2 * i + 1] - 87
                    }));
                } else {
                    assert(2 * i == n - 2);
                }
            }
        }
    }
}

/// Law: hex text is read two digits per byte, the high nibble first, each
/// digit worth its value: `0`-`9` are 0 to 9, `a`-`f` and `A`-`F` are 10 to
/// 15. Text is read exactly when it has an even number of characters, all
/// of them hex digits.
pub proof fn parse_hex_digits(text: Seq<char>)
    ensures
        ({
            let codes = encode_utf8(text);
            &&& (parse_hex_text(text) is Some) <==> (codes.len() % 2 == 0 && forall|k: int|
                0 <= k < codes.len() ==> (48 <= #[trigger] codes[k] <= 57 || 65 <= codes[k] <= 70
                    || 97 <= codes[k] <= 102))
            &&& parse_hex_text(text) matches Some(b) ==> b.len() * 2 == codes.len() && forall|
                i: int,
            |
                0 <= i < b.len() ==> #[trigger] b[i] == 16 * (if codes[2 * i] <= 57 {
                    codes[2 * i] - 48
                } else if codes[2 * i] <= 70 {
                    codes[2 * i] - 55
                } else {
                    codes[2 * i] - 87
                }) + (if codes[2 * i + 1] <= 57 {
                    codes[2 * i + 1] - 48
                } else if codes[2 * i + 1] <= 70 {
                    codes[2 * i + 1] - 55
                } else {
                    codes[2 * i + 1] - 87
                })
        }),
{
    lemma_parse_hex_codes_digits(encode_utf8(text));
}

} // verus!
