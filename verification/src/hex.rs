//! Lowercase hexadecimal text for fixed-size byte strings.

use vstd::prelude::*;
use vstd::string::*;
use vstd::utf8::{encode_utf8, is_ascii_chars, is_ascii_chars_encode_utf8};

verus! {

/// The lowercase hex digit for a value below 16.
pub open spec fn hex_char(v: int) -> char {
    if v < 10 {
        (48 + v) as char
    } else {
        (87 + v) as char
    }
}

/// Two lowercase hex digits per byte, high nibble first.
pub open spec fn hex_text(bytes: Seq<u8>) -> Seq<char> {
    Seq::new(
        2 * bytes.len(),
        |i: int|
            if i % 2 == 0 {
                hex_char(bytes[i / 2] as int / 16)
            } else {
                hex_char(bytes[i / 2] as int % 16)
            },
    )
}

/// The value of an ASCII hex digit of either case; `None` for any other byte.
pub open spec fn hex_value(c: u8) -> Option<u8> {
    if 48 <= c <= 57 {
        Some((c - 48) as u8)
    } else if 97 <= c <= 102 {
        Some((c - 87) as u8)
    } else if 65 <= c <= 70 {
        Some((c - 55) as u8)
    } else {
        None
    }
}

/// Whether `text` is an even number of hex digits.
pub open spec fn is_hex(text: Seq<u8>) -> bool {
    &&& text.len() % 2 == 0
    &&& forall|i: int| 0 <= i < text.len() ==> (#[trigger] hex_value(text[i])) is Some
}

/// The bytes that a string of hex digits stands for.
pub open spec fn hex_bytes(text: Seq<u8>) -> Seq<u8> {
    Seq::new(
        text.len() / 2,
        |i: int|
            (16 * hex_value(text[2 * i]).unwrap() + hex_value(text[2 * i + 1]).unwrap()) as u8,
    )
}

/// Whether `text`, taken as the bytes of a string, is an even number of
/// hex digits that stand for `bytes`.
pub open spec fn reads_as(text: Seq<char>, bytes: Seq<u8>) -> bool {
    &&& encode_utf8(text).len() == 2 * bytes.len()
    &&& is_hex(encode_utf8(text))
    &&& hex_bytes(encode_utf8(text)) == bytes
}

/// The text of one lowercase hex digit.
pub fn digit_text(v: u8) -> (s: &'static str)
    requires
        v < 16,
    ensures
        s@ == seq![hex_char(v as int)],
{
    let text = match v {
        0 => {
            proof {
                reveal_strlit("0");
            }
            "0"
        },
        1 => {
            proof {
                reveal_strlit("1");
            }
            "1"
        },
        2 => {
            proof {
                reveal_strlit("2");
            }
            "2"
        },
        3 => {
            proof {
                reveal_strlit("3");
            }
            "3"
        },
        4 => {
            proof {
                reveal_strlit("4");
            }
            "4"
        },
        5 => {
            proof {
                reveal_strlit("5");
            }
            "5"
        },
        6 => {
            proof {
                reveal_strlit("6");
            }
            "6"
        },
        7 => {
            proof {
                reveal_strlit("7");
            }
            "7"
        },
        8 => {
            proof {
                reveal_strlit("8");
            }
            "8"
        },
        9 => {
            proof {
                reveal_strlit("9");
            }
            "9"
        },
        10 => {
            proof {
                reveal_strlit("a");
            }
            "a"
        },
        11 => {
            proof {
                reveal_strlit("b");
            }
            "b"
        },
        12 => {
            proof {
                reveal_strlit("c");
            }
            "c"
        },
        13 => {
            proof {
                reveal_strlit("d");
            }
            "d"
        },
        14 => {
            proof {
                reveal_strlit("e");
            }
            "e"
        },
        _ => {
            proof {
                reveal_strlit("f");
            }
            "f"
        },
    };
    assert(text@ =~= seq![hex_char(v as int)]);
    text
}

/// Renders `bytes` as lowercase hex.
pub fn encode_hex(bytes: &[u8]) -> (s: String)
    ensures
        s@ == hex_text(bytes@),
        s@.len() == 2 * bytes@.len(),
        reads_as(s@, bytes@),
{
    let mut out = String::new();
    let mut i: usize = 0;
    while i < bytes.len()
        invariant
            i <= bytes@.len(),
            out@ == hex_text(bytes@.subrange(0, i as int)),
        decreases bytes@.len() - i,
    {
        let b: u8 = bytes[i];
        let ghost before = out@;
        let high = digit_text(b / 16);
        let low = digit_text(b % 16);
        out.append(high);
        out.append(low);
        assert(out@ =~= hex_text(bytes@.subrange(0, i + 1))) by {
            let next = bytes@.subrange(0, i + 1);
            let prev = bytes@.subrange(0, i as int);
            assert forall|k: int| 0 <= k < 2 * (i + 1) implies out@[k] == hex_text(next)[k] by {
                if k < 2 * i {
                    assert(out@[k] == before[k]);
                    assert(prev[k / 2] == next[k / 2]);
                } else {
                    assert(k / 2 == i as int);
                    assert(next[k / 2] == b);
                    if k == 2 * i {
                        assert(out@[k] == high@[0]);
                    } else {
                        assert(out@[k] == low@[0]);
                    }
                }
            }
        }
        i += 1;
    }
    assert(bytes@.subrange(0, i as int) =~= bytes@);
    proof {
        lemma_hex_text_reads_back(bytes@);
    }
    out
}

/// The value of one hex digit.
pub fn digit_value(c: u8) -> (v: Option<u8>)
    ensures
        v == hex_value(c),
        v matches Some(d) ==> d < 16,
{
    if 48 <= c && c <= 57 {
        Some(c - 48)
    } else if 97 <= c && c <= 102 {
        Some(c - 87)
    } else if 65 <= c && c <= 70 {
        Some(c - 55)
    } else {
        None
    }
}

/// Reads a string of hex digits; `None` unless every byte is a hex digit and
/// their number is even.
pub fn decode_hex(text: &[u8]) -> (r: Option<Vec<u8>>)
    ensures
        r is Some <==> is_hex(text@),
        r matches Some(v) ==> v@ == hex_bytes(text@),
{
    let n = text.len();
    if n % 2 != 0 {
        return None;
    }
    let mut out: Vec<u8> = Vec::new();
    let mut i: usize = 0;
    while i < n / 2
        invariant
            n == text@.len(),
            n % 2 == 0,
            i <= n / 2,
            out@.len() == i,
            forall|k: int| 0 <= k < 2 * i ==> (#[trigger] hex_value(text@[k])) is Some,
            forall|k: int| 0 <= k < i ==> out@[k] == #[trigger] hex_bytes(text@)[k],
        decreases n / 2 - i,
    {
        let hi = digit_value(text[2 * i]);
        let lo = digit_value(text[2 * i + 1]);
        match (hi, lo) {
            (Some(h), Some(l)) => {
                out.push(16 * h + l);
            },
            _ => {
                return None;
            },
        }
        i += 1;
    }
    assert(out@ =~= hex_bytes(text@));
    Some(out)
}

/// Encoding then decoding gives the bytes back.
pub proof fn lemma_hex_round_trip(bytes: Seq<u8>)
    ensures
        is_hex(hex_text(bytes).map_values(|c: char| c as u8)),
        hex_bytes(hex_text(bytes).map_values(|c: char| c as u8)) == bytes,
{
    let text = hex_text(bytes).map_values(|c: char| c as u8);
    assert forall|i: int| 0 <= i < text.len() implies (#[trigger] hex_value(text[i])) is Some by {
        lemma_hex_char_value(bytes[i / 2] as int / 16);
        lemma_hex_char_value(bytes[i / 2] as int % 16);
    }
    assert forall|i: int| 0 <= i < bytes.len() implies hex_bytes(text)[i] == bytes[i] by {
        lemma_hex_char_value(bytes[i] as int / 16);
        lemma_hex_char_value(bytes[i] as int % 16);
        assert((2 * i) / 2 == i && (2 * i) % 2 == 0);
        assert((2 * i + 1) / 2 == i && (2 * i + 1) % 2 == 1);
    }
    assert(hex_bytes(text) =~= bytes);
}

/// What was written as hex is read back from the string's bytes: the text
/// of `bytes` is ASCII, two digits for each byte, and stands for `bytes`.
pub proof fn lemma_hex_text_reads_back(bytes: Seq<u8>)
    ensures
        is_ascii_chars(hex_text(bytes)),
        reads_as(hex_text(bytes), bytes),
{
    let text = hex_text(bytes);
    assert forall|i: int| 0 <= i < text.len() implies '\0' <= #[trigger] text[i] <= '\u{7f}' by {
        let b = bytes[i / 2] as int;
        assert(0 <= b / 16 < 16 && 0 <= b % 16 < 16);
    }
    is_ascii_chars_encode_utf8(text);
    assert(encode_utf8(text) =~= text.map_values(|c: char| c as u8));
    lemma_hex_round_trip(bytes);
}

/// A hex digit stands for the value it was made from.
pub proof fn lemma_hex_char_value(v: int)
    requires
        0 <= v < 16,
    ensures
        hex_value(hex_char(v) as u8) == Some(v as u8),
{
}

} // verus!
