//! Bytes as hexadecimal text.
use vstd::prelude::*;
use vstd::utf8::{encode_utf8, is_ascii_chars, is_ascii_chars_encode_utf8};

verus! {

/// The value of a hexadecimal digit, of either case.
pub open spec fn hex_digit_of(b: u8) -> Option<u8> {
    if 0x30 <= b <= 0x39 {
        Some((b - 0x30) as u8)
    } else if 0x61 <= b <= 0x66 {
        Some((b - 0x61 + 10) as u8)
    } else if 0x41 <= b <= 0x46 {
        Some((b - 0x41 + 10) as u8)
    } else {
        None
    }
}

/// The byte that two characters write: two digits, or `+` and one digit.
pub open spec fn hex_pair_of(a: u8, b: u8) -> Option<u8> {
    match (hex_digit_of(a), hex_digit_of(b)) {
        (Some(x), Some(y)) => Some((x * 16 + y) as u8),
        (None, Some(y)) => if a == 0x2b {
            Some(y)
        } else {
            None
        },
        _ => None,
    }
}

pub fn hex_digit(b: u8) -> (r: Option<u8>)
    ensures
        r == hex_digit_of(b),
        r matches Some(v) ==> v < 16,
{
    if 0x30 <= b && b <= 0x39 {
        Some(b - 0x30)
    } else if 0x61 <= b && b <= 0x66 {
        Some(b - 0x61 + 10)
    } else if 0x41 <= b && b <= 0x46 {
        Some(b - 0x41 + 10)
    } else {
        None
    }
}

pub fn hex_pair(a: u8, b: u8) -> (r: Option<u8>)
    ensures
        r == hex_pair_of(a, b),
{
    match (hex_digit(a), hex_digit(b)) {
        (Some(x), Some(y)) => Some(x * 16 + y),
        (None, Some(y)) => if a == 0x2b {
            Some(y)
        } else {
            None
        },
        _ => None,
    }
}

/// The digit of a value below sixteen.
pub open spec fn hex_char(v: int) -> char {
    if v < 10 {
        (v + 0x30) as char
    } else {
        (v - 10 + 0x61) as char
    }
}

/// Two lower-case digits for each byte.
pub open spec fn hex_of(bytes: Seq<u8>) -> Seq<char>
    decreases bytes.len(),
{
    if bytes.len() == 0 {
        Seq::empty()
    } else {
        hex_of(bytes.drop_last()).push(hex_char(bytes.last() as int / 16)).push(
            hex_char(bytes.last() as int % 16),
        )
    }
}

/// The bytes that the text writes, pair by pair.
pub open spec fn unhex_of(text: Seq<u8>) -> Option<Seq<u8>>
    decreases text.len(),
{
    if text.len() == 0 {
        Some(Seq::empty())
    } else if text.len() == 1 {
        None
    } else {
        let n = text.len();
        match (unhex_of(text.take(n - 2)), hex_pair_of(text[n - 2], text[n - 1])) {
            (Some(front), Some(b)) => Some(front.push(b)),
            _ => None,
        }
    }
}

fn digit_char(v: u8) -> (r: char)
    requires
        v < 16,
    ensures
        r == hex_char(v as int),
{
    if v < 10 {
        (v + 0x30) as char
    } else {
        (v - 10 + 0x61) as char
    }
}

/// The bytes as lower-case hexadecimal text.
pub fn encode_hex(bytes: &[u8]) -> (r: String)
    ensures
        r@ == hex_of(bytes@),
{
    let mut out = String::new();
    let mut i: usize = 0;
    assert(bytes@.take(0) =~= Seq::empty());
    while i < bytes.len()
        invariant
            0 <= i <= bytes.len(),
            out@ == hex_of(bytes@.take(i as int)),
        decreases bytes.len() - i,
    {
        let b: u8 = bytes[i];
        out.push(digit_char(b / 16));
        out.push(digit_char(b % 16));
        assert(bytes@.take(i + 1).drop_last() =~= bytes@.take(i as int));
        i += 1;
    }
    assert(bytes@.take(bytes@.len() as int) =~= bytes@);
    out
}

/// Reads hexadecimal text.
pub fn decode_hex(text: &str) -> (r: Option<Vec<u8>>)
    ensures
        match r {
            Some(v) => unhex_of(encode_utf8(text@)) == Some(v@),
            None => unhex_of(encode_utf8(text@)) is None,
        },
{
    let b = text.as_bytes();
    let n: usize = b.len();
    let mut out: Vec<u8> = Vec::new();
    let mut i: usize = 0;
    assert(b@.take(0) =~= Seq::empty());
    while n - i >= 2
        invariant
            0 <= i <= n,
            n == b@.len(),
            b@ == encode_utf8(text@),
            i % 2 == 0,
            unhex_of(b@.take(i as int)) == Some(out@),
        decreases n - i,
    {
        assert(b@.take(i + 2).take(i as int) =~= b@.take(i as int));
        match hex_pair(b[i], b[i + 1]) {
            Some(v) => {
                out.push(v);
            },
            None => {
                proof {
                    lemma_unhex_prefix(b@, i + 2);
                }
                return None;
            },
        }
        i += 2;
    }
    if i < n {
        proof {
            lemma_unhex_odd(b@);
        }
        return None;
    }
    assert(b@.take(n as int) =~= b@);
    Some(out)
}

/// A text with a part in front that is not hexadecimal is not hexadecimal.
proof fn lemma_unhex_prefix(text: Seq<u8>, k: int)
    requires
        0 <= k <= text.len(),
        k % 2 == 0,
        unhex_of(text.take(k)) is None,
    ensures
        unhex_of(text) is None,
    decreases text.len(),
{
    let n = text.len() as int;
    if k == n {
        assert(text.take(k) =~= text);
    } else if n >= 2 {
        if k == n - 1 {
            lemma_unhex_odd(text);
        } else {
            let t = text.take(n - 2);
            assert(t.take(k) =~= text.take(k));
            lemma_unhex_prefix(t, k);
        }
    }
}

/// A text of odd length is not hexadecimal.
proof fn lemma_unhex_odd(text: Seq<u8>)
    requires
        text.len() % 2 == 1,
    ensures
        unhex_of(text) is None,
    decreases text.len(),
{
    if text.len() >= 2 {
        lemma_unhex_odd(text.take(text.len() - 2));
    }
}

proof fn lemma_hex_text(bytes: Seq<u8>)
    ensures
        hex_of(bytes).len() == 2 * bytes.len(),
        is_ascii_chars(hex_of(bytes)),
        unhex_of(Seq::new(hex_of(bytes).len(), |i: int| hex_of(bytes)[i] as u8)) == Some(bytes),
    decreases bytes.len(),
{
    let h = hex_of(bytes);
    let t = Seq::new(h.len(), |i: int| h[i] as u8);
    if bytes.len() == 0 {
        assert(t =~= Seq::empty());
        assert(bytes =~= Seq::empty());
    } else {
        let front = bytes.drop_last();
        let hf = hex_of(front);
        lemma_hex_text(front);
        let b = bytes.last();
        assert(h.len() == hf.len() + 2);
        assert(t.take(h.len() - 2) =~= Seq::new(hf.len(), |i: int| hf[i] as u8));
        assert(h[h.len() - 2] == hex_char(b as int / 16));
        assert(h[h.len() - 1] == hex_char(b as int % 16));
        assert(hex_pair_of(t[h.len() - 2], t[h.len() - 1]) == Some(b));
        assert(front.push(b) =~= bytes);
        assert forall|i: int| 0 <= i < h.len() implies #[trigger] h[i] as u32 <= 0x7f by {
            if i < hf.len() {
                assert(h[i] == hf[i]);
            }
        }
    }
}

/// Bytes are read back from their hexadecimal text.
pub proof fn hex_reads_back(bytes: Seq<u8>)
    ensures
        unhex_of(encode_utf8(hex_of(bytes))) == Some(bytes),
{
    lemma_hex_text(bytes);
    is_ascii_chars_encode_utf8(hex_of(bytes));
    assert(encode_utf8(hex_of(bytes)) =~= Seq::new(
        hex_of(bytes).len(),
        |i: int| hex_of(bytes)[i] as u8,
    ));
}

/// Every byte is written by two digits, the higher half first: the ten digits
/// and the small letters from `a` to `f`.
pub proof fn bytes_are_written_by_two_digits(bytes: Seq<u8>, i: int)
    requires
        0 <= i < bytes.len(),
    ensures
        hex_of(bytes).len() == 2 * bytes.len(),
        ({
            let high = hex_of(bytes)[2 * i] as int;
            let low = hex_of(bytes)[2 * i + 1] as int;
            let b = bytes[i] as int;
            &&& b / 16 < 10 ==> high == 0x30 + b / 16
            &&& b / 16 >= 10 ==> high == 0x61 + b / 16 - 10
            &&& b % 16 < 10 ==> low == 0x30 + b % 16
            &&& b % 16 >= 10 ==> low == 0x61 + b % 16 - 10
        }),
    decreases bytes.len(),
{
    lemma_hex_text(bytes);
    lemma_hex_text(bytes.drop_last());
    if i < bytes.len() - 1 {
        bytes_are_written_by_two_digits(bytes.drop_last(), i);
        assert(hex_of(bytes)[2 * i] == hex_of(bytes.drop_last())[2 * i]);
        assert(hex_of(bytes)[2 * i + 1] == hex_of(bytes.drop_last())[2 * i + 1]);
    }
}

/// Sixteen digits are read, capitals like small letters, and a pair of them is
/// sixteen times the first and the second. In place of the first a plus sign
/// may stand.
pub proof fn pairs_are_read(x: u8, y: u8, c: u8)
    requires
        x < 10,
        y < 6,
    ensures
        hex_digit_of((0x30 + x) as u8) == Some(x),
        hex_digit_of((0x61 + y) as u8) == Some((10 + y) as u8),
        hex_digit_of((0x41 + y) as u8) == Some((10 + y) as u8),
        hex_pair_of((0x30 + x) as u8, (0x61 + y) as u8) == Some((16 * x + 10 + y) as u8),
        hex_pair_of((0x41 + y) as u8, (0x30 + x) as u8) == Some((16 * (10 + y) + x) as u8),
        hex_pair_of(0x2b, (0x30 + x) as u8) == Some(x),
        c < 0x30 || 0x39 < c < 0x41 || 0x46 < c < 0x61 || 0x66 < c ==> {
            &&& hex_digit_of(c) is None
            &&& hex_pair_of((0x30 + x) as u8, c) is None
            &&& c != 0x2b ==> hex_pair_of(c, (0x30 + x) as u8) is None
        },
{
}

/// Text is read pair by pair: one that ends in no pair, or is of odd length,
/// gives no bytes.
pub proof fn bytes_are_read_pair_by_pair(text: Seq<u8>, bytes: Seq<u8>, a: u8, b: u8)
    requires
        unhex_of(text) == Some(bytes),
    ensures
        hex_pair_of(a, b) matches Some(v) ==> unhex_of(text + seq![a, b]) == Some(bytes.push(v)),
        hex_pair_of(a, b) is None ==> unhex_of(text + seq![a, b]) is None,
        unhex_of(text.push(a)) is None,
{
    let t = text + seq![a, b];
    assert(t.take(t.len() - 2) =~= text);
    if text.len() % 2 == 1 {
        lemma_unhex_odd(text);
    }
    lemma_unhex_odd(text.push(a));
}

} // verus!
