//! The text layer of the pipeline codec: bytes as unpadded base64 in the
//! URL-safe alphabet, so that a pipeline can travel as one path segment.

use vstd::prelude::*;
use vstd::string::*;

verus! {

/// The 64 symbols, in the order of their values.
pub open spec fn alphabet() -> Seq<char> {
    "ABCDEFGHIJKLMNOPQRSTUVWXYZabcdefghijklmnopqrstuvwxyz0123456789-_"@
}

/// The symbol that stands for the six-bit value `v`.
pub open spec fn symbol(v: int) -> char {
    alphabet()[v]
}

/// The six-bit value that `c` stands for, if `c` is a symbol.
pub open spec fn sextet_of(c: char) -> Option<int> {
    if 'A' <= c <= 'Z' {
        Some(c as int - 65)
    } else if 'a' <= c <= 'z' {
        Some(c as int - 71)
    } else if '0' <= c <= '9' {
        Some(c as int + 4)
    } else if c == '-' {
        Some(62)
    } else if c == '_' {
        Some(63)
    } else {
        None
    }
}

/// A character that a URL path segment holds without escaping.
pub open spec fn url_safe(c: char) -> bool {
    ||| 'A' <= c <= 'Z'
    ||| 'a' <= c <= 'z'
    ||| '0' <= c <= '9'
    ||| c == '-'
    ||| c == '_'
}

/// The number of symbols that stand for `n` bytes.
pub open spec fn text_len(n: nat) -> nat {
    (n / 3 * 4 + if n % 3 == 0 {
        0
    } else {
        n % 3 + 1
    }) as nat
}

/// The number of bytes that `m` symbols stand for, where `m` is no multiple of
/// four plus one.
pub open spec fn bytes_len(m: nat) -> nat {
    (m / 4 * 3 + if m % 4 == 0 {
        0
    } else {
        m % 4 - 1
    }) as nat
}

/// The byte at `i`, or zero behind the end.
pub open spec fn byte_or_zero(bytes: Seq<u8>, i: int) -> int {
    if 0 <= i < bytes.len() {
        bytes[i] as int
    } else {
        0
    }
}

/// The value of the `i`-th symbol of the text of `bytes`: three bytes give four
/// symbols, six bits each, most significant first.
pub open spec fn sextet_at(bytes: Seq<u8>, i: int) -> int {
    let b0 = byte_or_zero(bytes, i / 4 * 3);
    let b1 = byte_or_zero(bytes, i / 4 * 3 + 1);
    let b2 = byte_or_zero(bytes, i / 4 * 3 + 2);
    if i % 4 == 0 {
        b0 / 4
    } else if i % 4 == 1 {
        b0 % 4 * 16 + b1 / 16
    } else if i % 4 == 2 {
        b1 % 16 * 4 + b2 / 64
    } else {
        b2 % 64
    }
}

/// The text of `bytes`.
pub open spec fn encode_text(bytes: Seq<u8>) -> Seq<char> {
    Seq::new(text_len(bytes.len()), |i: int| symbol(sextet_at(bytes, i)))
}

/// The value of the symbol at `i`, or zero where there is none.
pub open spec fn value_at(text: Seq<char>, i: int) -> int {
    if 0 <= i < text.len() {
        match sextet_of(text[i]) {
            Some(v) => v,
            None => 0,
        }
    } else {
        0
    }
}

/// The `j`-th byte that `text` stands for.
pub open spec fn byte_at(text: Seq<char>, j: int) -> u8 {
    let s0 = value_at(text, j / 3 * 4);
    let s1 = value_at(text, j / 3 * 4 + 1);
    let s2 = value_at(text, j / 3 * 4 + 2);
    let s3 = value_at(text, j / 3 * 4 + 3);
    if j % 3 == 0 {
        (s0 * 4 + s1 / 16) as u8
    } else if j % 3 == 1 {
        (s1 % 16 * 16 + s2 / 4) as u8
    } else {
        (s2 % 4 * 64 + s3) as u8
    }
}

/// Whether `text` is the text of some bytes: it holds symbols only, its length
/// is one that complete bytes give, and the bits of the last symbol that belong
/// to no byte are zero.
pub open spec fn canonical_text(text: Seq<char>) -> bool {
    &&& forall|i: int| 0 <= i < text.len() ==> sextet_of(#[trigger] text[i]) is Some
    &&& text.len() % 4 != 1
    &&& text.len() % 4 == 2 ==> value_at(text, text.len() - 1) % 16 == 0
    &&& text.len() % 4 == 3 ==> value_at(text, text.len() - 1) % 4 == 0
}

/// The bytes that `text` stands for, if it is the text of any.
pub open spec fn decode_text(text: Seq<char>) -> Option<Seq<u8>> {
    if canonical_text(text) {
        Some(Seq::new(bytes_len(text.len()), |j: int| byte_at(text, j)))
    } else {
        None
    }
}

/// Each symbol stands for its own position in the alphabet, and is URL-safe.
pub proof fn lemma_symbol(v: int)
    requires
        0 <= v < 64,
    ensures
        sextet_of(symbol(v)) == Some(v),
        url_safe(symbol(v)),
{
    reveal_strlit("ABCDEFGHIJKLMNOPQRSTUVWXYZabcdefghijklmnopqrstuvwxyz0123456789-_");
}

/// A character that stands for a value is the symbol of that value.
pub proof fn lemma_sextet(c: char)
    requires
        sextet_of(c) is Some,
    ensures
        0 <= sextet_of(c)->Some_0 < 64,
        symbol(sextet_of(c)->Some_0) == c,
{
    reveal_strlit("ABCDEFGHIJKLMNOPQRSTUVWXYZabcdefghijklmnopqrstuvwxyz0123456789-_");
}

/// The value of every symbol of a text fits in six bits.
pub proof fn lemma_sextet_at_range(bytes: Seq<u8>, i: int)
    requires
        0 <= i,
    ensures
        0 <= sextet_at(bytes, i) < 64,
{
}

/// In the text of `bytes`, the symbols of a byte give that byte back.
proof fn lemma_byte_round_trip(bytes: Seq<u8>, j: int)
    requires
        0 <= j < bytes.len(),
    ensures
        j / 3 * 4 + 1 < text_len(bytes.len()),
        j % 3 >= 1 ==> j / 3 * 4 + 2 < text_len(bytes.len()),
        j % 3 == 2 ==> j / 3 * 4 + 3 < text_len(bytes.len()),
        byte_at(encode_text(bytes), j) == bytes[j],
{
    let text = encode_text(bytes);
    let g = j / 3 * 4;
    assert(g / 4 * 3 == j / 3 * 3);
    assert((g + 1) / 4 * 3 == j / 3 * 3 && (g + 1) % 4 == 1);
    assert((g + 2) / 4 * 3 == j / 3 * 3 && (g + 2) % 4 == 2);
    assert((g + 3) / 4 * 3 == j / 3 * 3 && (g + 3) % 4 == 3);
    assert(g % 4 == 0);
    lemma_sextet_at_range(bytes, g);
    lemma_sextet_at_range(bytes, g + 1);
    lemma_sextet_at_range(bytes, g + 2);
    lemma_sextet_at_range(bytes, g + 3);
    lemma_symbol(sextet_at(bytes, g));
    lemma_symbol(sextet_at(bytes, g + 1));
    lemma_symbol(sextet_at(bytes, g + 2));
    lemma_symbol(sextet_at(bytes, g + 3));
    assert(value_at(text, g) == sextet_at(bytes, g));
    assert(value_at(text, g + 1) == sextet_at(bytes, g + 1));
    if j % 3 >= 1 {
        assert(value_at(text, g + 2) == sextet_at(bytes, g + 2));
    }
    if j % 3 == 2 {
        assert(value_at(text, g + 3) == sextet_at(bytes, g + 3));
    }
}

/// Reading the text of some bytes gives the bytes back, and the text holds
/// URL-safe characters only.
pub proof fn lemma_text_round_trip(bytes: Seq<u8>)
    ensures
        decode_text(encode_text(bytes)) == Some(bytes),
        forall|i: int| 0 <= i < encode_text(bytes).len() ==> url_safe(#[trigger] encode_text(bytes)[i]),
{
    let text = encode_text(bytes);
    assert forall|i: int| 0 <= i < text.len() implies sextet_of(#[trigger] text[i]) == Some(
        sextet_at(bytes, i),
    ) && url_safe(text[i]) by {
        lemma_sextet_at_range(bytes, i);
        lemma_symbol(sextet_at(bytes, i));
    }
    if text.len() % 4 == 2 {
        assert(value_at(text, text.len() - 1) == sextet_at(bytes, text.len() - 1));
    }
    if text.len() % 4 == 3 {
        assert(value_at(text, text.len() - 1) == sextet_at(bytes, text.len() - 1));
    }
    assert(canonical_text(text));
    assert(bytes_len(text.len()) == bytes.len());
    let back = Seq::new(bytes_len(text.len()), |j: int| byte_at(text, j));
    assert forall|j: int| 0 <= j < bytes.len() implies back[j] == bytes[j] by {
        lemma_byte_round_trip(bytes, j);
    }
    assert(back =~= bytes);
}

/// The values of the symbols of a canonical text fit in six bits.
proof fn lemma_value_at_range(text: Seq<char>, i: int)
    ensures
        0 <= value_at(text, i) < 64,
{
    if 0 <= i < text.len() && sextet_of(text[i]) is Some {
        lemma_sextet(text[i]);
    }
}

/// In the bytes of a canonical text, the bits of a symbol give that symbol back.
proof fn lemma_symbol_round_trip(text: Seq<char>, i: int)
    requires
        canonical_text(text),
        0 <= i < text.len(),
    ensures
        sextet_at(decode_text(text)->Some_0, i) == value_at(text, i),
{
    let bytes = decode_text(text)->Some_0;
    let g = i / 4 * 3;
    let q = i / 4 * 4;
    assert(g / 3 * 4 == q && g % 3 == 0);
    assert((g + 1) / 3 * 4 == q && (g + 1) % 3 == 1);
    assert((g + 2) / 3 * 4 == q && (g + 2) % 3 == 2);
    lemma_value_at_range(text, q);
    lemma_value_at_range(text, q + 1);
    lemma_value_at_range(text, q + 2);
    lemma_value_at_range(text, q + 3);
    assert(bytes.len() == bytes_len(text.len()));
    if g < bytes.len() {
        assert(bytes[g] == byte_at(text, g));
    }
    if g + 1 < bytes.len() {
        assert(bytes[g + 1] == byte_at(text, g + 1));
    }
    if g + 2 < bytes.len() {
        assert(bytes[g + 2] == byte_at(text, g + 2));
    }
}

/// A canonical text is the text of the bytes that it stands for: no two texts
/// stand for the same bytes.
pub proof fn lemma_text_canonical(text: Seq<char>)
    requires
        canonical_text(text),
    ensures
        encode_text(decode_text(text)->Some_0) == text,
{
    let bytes = decode_text(text)->Some_0;
    let again = encode_text(bytes);
    assert(again.len() == text.len());
    assert forall|i: int| 0 <= i < text.len() implies again[i] == text[i] by {
        lemma_symbol_round_trip(text, i);
        lemma_sextet(text[i]);
    }
    assert(again =~= text);
}

/// A proper prefix of the text of some bytes stands for nothing or for a proper
/// prefix of those bytes.
pub proof fn lemma_text_prefix(bytes: Seq<u8>, cut: int)
    requires
        0 <= cut < encode_text(bytes).len(),
    ensures
        match decode_text(encode_text(bytes).take(cut)) {
            None => true,
            Some(part) => part.len() < bytes.len() && part == bytes.take(part.len() as int),
        },
{
    let text = encode_text(bytes);
    let short = text.take(cut);
    if canonical_text(short) {
        let part = decode_text(short)->Some_0;
        assert(part.len() == bytes_len(short.len()));
        assert(part.len() < bytes.len());
        assert forall|j: int| 0 <= j < part.len() implies part[j] == bytes[j] by {
            lemma_byte_round_trip(bytes, j);
            let g = j / 3 * 4;
            assert(part[j] == byte_at(short, j));
            assert(value_at(short, g) == value_at(text, g));
            assert(value_at(short, g + 1) == value_at(text, g + 1));
            if j % 3 >= 1 {
                assert(value_at(short, g + 2) == value_at(text, g + 2));
            }
            if j % 3 == 2 {
                assert(value_at(short, g + 3) == value_at(text, g + 3));
            }
        }
        assert(part =~= bytes.take(part.len() as int));
    }
}

fn push_symbol(out: &mut String, v: u8)
    requires
        v < 64,
    ensures
        final(out)@ == old(out)@.push(symbol(v as int)),
{
    let table = "ABCDEFGHIJKLMNOPQRSTUVWXYZabcdefghijklmnopqrstuvwxyz0123456789-_";
    proof {
        reveal_strlit("ABCDEFGHIJKLMNOPQRSTUVWXYZabcdefghijklmnopqrstuvwxyz0123456789-_");
    }
    let piece = table.substring_ascii(v as usize, v as usize + 1);
    out.append(piece);
    proof {
        assert(out@ =~= old(out)@.push(symbol(v as int)));
    }
}

/// Writes `bytes` as text.
pub fn to_text(bytes: &[u8]) -> (text: String)
    ensures
        text@ == encode_text(bytes@),
{
    let mut out = String::new();
    let n: usize = bytes.len();
    let mut g: usize = 0;
    while n - g >= 3
        invariant
            g <= n == bytes.len(),
            g % 3 == 0,
            out@.len() == g / 3 * 4,
            forall|i: int| 0 <= i < out@.len() ==> out@[i] == symbol(sextet_at(bytes@, i)),
        decreases n - g,
    {
        let b0: u8 = bytes[g];
        let b1: u8 = bytes[g + 1];
        let b2: u8 = bytes[g + 2];
        let ghost at = out@.len() as int;
        assert(at / 4 * 3 == g && at % 4 == 0);
        assert((at + 1) / 4 * 3 == g && (at + 1) % 4 == 1);
        assert((at + 2) / 4 * 3 == g && (at + 2) % 4 == 2);
        assert((at + 3) / 4 * 3 == g && (at + 3) % 4 == 3);
        push_symbol(&mut out, b0 / 4);
        push_symbol(&mut out, b0 % 4 * 16 + b1 / 16);
        push_symbol(&mut out, b1 % 16 * 4 + b2 / 64);
        push_symbol(&mut out, b2 % 64);
        g += 3;
    }
    let ghost at = out@.len() as int;
    assert(at / 4 * 3 == g && at % 4 == 0);
    assert((at + 1) / 4 * 3 == g && (at + 1) % 4 == 1);
    assert((at + 2) / 4 * 3 == g && (at + 2) % 4 == 2);
    if n - g == 1 {
        let b0: u8 = bytes[g];
        push_symbol(&mut out, b0 / 4);
        push_symbol(&mut out, b0 % 4 * 16);
    } else if n - g == 2 {
        let b0: u8 = bytes[g];
        let b1: u8 = bytes[g + 1];
        push_symbol(&mut out, b0 / 4);
        push_symbol(&mut out, b0 % 4 * 16 + b1 / 16);
        push_symbol(&mut out, b1 % 16 * 4);
    }
    proof {
        assert(out@.len() == text_len(bytes@.len()));
        assert(out@ =~= encode_text(bytes@));
    }
    out
}

/// The six-bit value that the ASCII character `b` stands for, if it is a symbol.
fn value_of(b: u8) -> (value: Option<u8>)
    requires
        b < 128,
    ensures
        match value {
            Some(v) => v < 64 && sextet_of(b as char) == Some(v as int),
            None => sextet_of(b as char) is None,
        },
{
    if 65 <= b && b <= 90 {
        Some(b - 65)
    } else if 97 <= b && b <= 122 {
        Some(b - 71)
    } else if 48 <= b && b <= 57 {
        Some(b + 4)
    } else if b == 45 {
        Some(62)
    } else if b == 95 {
        Some(63)
    } else {
        None
    }
}

/// Reads the bytes that `text` stands for, or finds that it stands for none.
pub fn from_text(text: &str) -> (bytes: Option<Vec<u8>>)
    ensures
        match bytes {
            Some(b) => decode_text(text@) == Some(b@),
            None => decode_text(text@) is None,
        },
{
    if !text.is_ascii() {
        return None;
    }
    let symbols = text.as_bytes();
    proof {
        is_ascii_spec_bytes(text);
    }
    let m: usize = symbols.len();
    assert(m == text@.len());
    assert(forall|i: int| 0 <= i < m ==> symbols@[i] < 128 && symbols@[i] as char == text@[i]);
    if m % 4 == 1 {
        return None;
    }
    let mut out: Vec<u8> = Vec::new();
    let mut g: usize = 0;
    while m - g >= 4
        invariant
            g <= m == symbols@.len() == text@.len(),
            g % 4 == 0,
            out@.len() == g / 4 * 3,
            forall|i: int| 0 <= i < m ==> symbols@[i] < 128 && symbols@[i] as char == text@[i],
            forall|i: int| 0 <= i < g ==> sextet_of(#[trigger] text@[i]) is Some,
            forall|j: int| 0 <= j < out@.len() ==> out@[j] == byte_at(text@, j),
        decreases m - g,
    {
        let s0: u8 = match value_of(symbols[g]) {
            Some(v) => v,
            None => {
                assert(sextet_of(text@[g as int]) is None);
                return None;
            },
        };
        let s1: u8 = match value_of(symbols[g + 1]) {
            Some(v) => v,
            None => {
                assert(sextet_of(text@[g + 1]) is None);
                return None;
            },
        };
        let s2: u8 = match value_of(symbols[g + 2]) {
            Some(v) => v,
            None => {
                assert(sextet_of(text@[g + 2]) is None);
                return None;
            },
        };
        let s3: u8 = match value_of(symbols[g + 3]) {
            Some(v) => v,
            None => {
                assert(sextet_of(text@[g + 3]) is None);
                return None;
            },
        };
        let ghost at = out@.len() as int;
        assert(at / 3 * 4 == g && at % 3 == 0);
        assert((at + 1) / 3 * 4 == g && (at + 1) % 3 == 1);
        assert((at + 2) / 3 * 4 == g && (at + 2) % 3 == 2);
        out.push(s0 * 4 + s1 / 16);
        out.push(s1 % 16 * 16 + s2 / 4);
        out.push(s2 % 4 * 64 + s3);
        g += 4;
    }
    let ghost at = out@.len() as int;
    assert(at / 3 * 4 == g && at % 3 == 0);
    assert((at + 1) / 3 * 4 == g && (at + 1) % 3 == 1);
    if m - g == 2 {
        let s0: u8 = match value_of(symbols[g]) {
            Some(v) => v,
            None => {
                assert(sextet_of(text@[g as int]) is None);
                return None;
            },
        };
        let s1: u8 = match value_of(symbols[g + 1]) {
            Some(v) => v,
            None => {
                assert(sextet_of(text@[g + 1]) is None);
                return None;
            },
        };
        if s1 % 16 != 0 {
            return None;
        }
        out.push(s0 * 4 + s1 / 16);
    } else if m - g == 3 {
        let s0: u8 = match value_of(symbols[g]) {
            Some(v) => v,
            None => {
                assert(sextet_of(text@[g as int]) is None);
                return None;
            },
        };
        let s1: u8 = match value_of(symbols[g + 1]) {
            Some(v) => v,
            None => {
                assert(sextet_of(text@[g + 1]) is None);
                return None;
            },
        };
        let s2: u8 = match value_of(symbols[g + 2]) {
            Some(v) => v,
            None => {
                assert(sextet_of(text@[g + 2]) is None);
                return None;
            },
        };
        if s2 % 4 != 0 {
            return None;
        }
        out.push(s0 * 4 + s1 / 16);
        out.push(s1 % 16 * 16 + s2 / 4);
    }
    proof {
        assert(canonical_text(text@));
        assert(out@ =~= decode_text(text@)->Some_0);
    }
    Some(out)
}

} // verus!
