//! Texts: comparing them byte by byte, and writing numbers in decimal.

use vstd::prelude::*;
use vstd::string::*;
use vstd::utf8::*;

verus! {

broadcast use vstd::seq::group_seq_axioms, vstd::slice::group_slice_axioms;

/// Number of bytes that a text occupies in UTF-8.
pub open spec fn byte_len(s: Seq<char>) -> nat {
    encode_utf8(s).len()
}

/// Encoding distributes over concatenation.
pub proof fn lemma_encode_concat(a: Seq<char>, b: Seq<char>)
    ensures
        encode_utf8(a + b) =~= encode_utf8(a) + encode_utf8(b),
    decreases a.len(),
{
    if a.len() == 0 {
        assert(a + b =~= b);
    } else {
        assert((a + b).drop_first() =~= a.drop_first() + b);
        lemma_encode_concat(a.drop_first(), b);
    }
}

/// A text whose encoding is a prefix of another text's encoding is a prefix of that text.
pub proof fn lemma_encoded_prefix(p: Seq<char>, k: Seq<char>)
    requires
        encode_utf8(p).is_prefix_of(encode_utf8(k)),
    ensures
        p.is_prefix_of(k),
    decreases p.len(),
{
    if p.len() == 0 {
    } else {
        let pb = encode_utf8(p);
        let kb = encode_utf8(k);
        encode_utf8_first_scalar(p);
        assert(pb.len() > 0);
        assert(k.len() > 0);
        encode_utf8_first_scalar(k);
        let w = length_of_first_scalar(pb);
        assert(forall|i: int| 0 <= i < pb.len() ==> pb[i] == kb[i]);
        assert(pb =~= encode_scalar(p[0] as u32) + encode_utf8(p.drop_first()));
        assert(kb =~= encode_scalar(k[0] as u32) + encode_utf8(k.drop_first()));
        assert(decode_first_scalar(pb) == decode_first_scalar(kb));
        char_u32_cast(p[0], p[0] as u32);
        char_u32_cast(k[0], k[0] as u32);
        assert(p[0] == k[0]);
        assert(encode_utf8(p.drop_first()) =~= pb.subrange(w, pb.len() as int));
        assert(encode_utf8(k.drop_first()) =~= kb.subrange(w, kb.len() as int));
        lemma_encoded_prefix(p.drop_first(), k.drop_first());
        assert(p =~= seq![p[0]] + p.drop_first());
        assert(k =~= seq![k[0]] + k.drop_first());
    }
}

/// Two texts with the same encoding are the same text.
pub proof fn lemma_encoding_injective(a: Seq<char>, b: Seq<char>)
    requires
        encode_utf8(a) == encode_utf8(b),
    ensures
        a == b,
{
    encode_utf8_decode_utf8(a);
    encode_utf8_decode_utf8(b);
}

/// Number of bytes that the text occupies in UTF-8.
pub fn text_len(s: &str) -> (n: usize)
    ensures
        n == byte_len(s@),
{
    s.as_bytes().len()
}

/// Whether the first `n` bytes of `a` equal the first `n` bytes of `b`.
fn bytes_agree(a: &[u8], b: &[u8], n: usize) -> (r: bool)
    requires
        n <= a@.len(),
        n <= b@.len(),
    ensures
        r == (a@.subrange(0, n as int) == b@.subrange(0, n as int)),
{
    let mut i: usize = 0;
    while i < n
        invariant
            i <= n,
            n <= a@.len(),
            n <= b@.len(),
            a@.subrange(0, i as int) == b@.subrange(0, i as int),
        decreases n - i,
    {
        if a[i] != b[i] {
            assert(a@.subrange(0, n as int)[i as int] != b@.subrange(0, n as int)[i as int]);
            return false;
        }
        assert(a@.subrange(0, i + 1) =~= a@.subrange(0, i as int).push(a@[i as int]));
        assert(b@.subrange(0, i + 1) =~= b@.subrange(0, i as int).push(b@[i as int]));
        i += 1;
    }
    true
}

/// Whether two runs of bytes hold the same bytes.
pub fn same_bytes(a: &[u8], b: &[u8]) -> (r: bool)
    ensures
        r == (a@ == b@),
{
    if a.len() != b.len() {
        return false;
    }
    let r = bytes_agree(a, b, a.len());
    assert(a@.subrange(0, a@.len() as int) =~= a@);
    assert(b@.subrange(0, b@.len() as int) =~= b@);
    r
}

/// Whether two texts hold the same characters.
pub fn same_text(a: &str, b: &str) -> (r: bool)
    ensures
        r == (a@ == b@),
{
    let x = a.as_bytes();
    let y = b.as_bytes();
    if x.len() != y.len() {
        return false;
    }
    let r = bytes_agree(x, y, x.len());
    proof {
        assert(x@.subrange(0, x@.len() as int) =~= x@);
        assert(y@.subrange(0, y@.len() as int) =~= y@);
        if r {
            lemma_encoding_injective(a@, b@);
        }
    }
    r
}

/// The encoding of a text ends in the byte 42 exactly where the text ends in
/// an asterisk, and there the bytes before it encode the characters before it.
pub proof fn lemma_trailing_star(s: Seq<char>)
    requires
        s.len() > 0,
    ensures
        encode_utf8(s).len() > 0,
        encode_utf8(s).last() == 42u8 <==> s.last() == '*',
        s.last() == '*' ==> encode_utf8(s.drop_last()) == encode_utf8(s).drop_last(),
{
    let c = s.last();
    let x = c as u32;
    let one = seq![c];
    assert(s =~= s.drop_last() + one);
    lemma_encode_concat(s.drop_last(), one);
    assert(one.drop_first() =~= Seq::<char>::empty());
    assert(encode_utf8(one) =~= encode_scalar(x)) by {
        reveal_with_fuel(encode_utf8, 2);
    }
    char_is_scalar(c);
    assert(x <= 0x7F ==> ((x & 0x7F) as u8 == 42u8 <==> x == 42u32)) by (bit_vector);
    assert((0x80u8 | ((x & 0x3F) as u8)) != 42u8) by (bit_vector);
    assert(x == 42u32 <==> c == '*') by {
        char_u32_cast(c, x);
        char_u32_cast('*', 42u32);
    }
    if c == '*' {
        assert(encode_scalar(x) =~= seq![42u8]);
        assert(encode_utf8(s).drop_last() =~= encode_utf8(s.drop_last()));
    }
}

/// Whether the text ends in an asterisk.
pub(crate) fn ends_with_star(text: &str) -> (b: bool)
    ensures
        b == (text@.len() > 0 && text@.last() == '*'),
{
    let bytes = text.as_bytes();
    if bytes.len() == 0 {
        assert(text@.len() == 0) by {
            if text@.len() > 0 {
                lemma_trailing_star(text@);
            }
        }
        return false;
    }
    proof {
        assert(text@.len() > 0);
        lemma_trailing_star(text@);
    }
    bytes[bytes.len() - 1] == 42u8
}

/// Whether `text` begins with what stands before the asterisk that ends `pattern`.
pub(crate) fn has_prefix_before_star(text: &str, pattern: &str) -> (b: bool)
    requires
        pattern@.len() > 0,
        pattern@.last() == '*',
    ensures
        b == pattern@.drop_last().is_prefix_of(text@),
{
    let x = text.as_bytes();
    let y = pattern.as_bytes();
    let ghost prefix = pattern@.drop_last();
    proof {
        lemma_trailing_star(pattern@);
    }
    let n = y.len() - 1;
    if n > x.len() {
        proof {
            if prefix.is_prefix_of(text@) {
                let rest = text@.subrange(prefix.len() as int, text@.len() as int);
                assert(text@ =~= prefix + rest);
                lemma_encode_concat(prefix, rest);
            }
        }
        return false;
    }
    let r = bytes_agree(x, y, n);
    proof {
        assert(y@.subrange(0, n as int) =~= encode_utf8(prefix));
        if r {
            assert(encode_utf8(prefix).is_prefix_of(x@));
            lemma_encoded_prefix(prefix, text@);
        } else {
            if prefix.is_prefix_of(text@) {
                let rest = text@.subrange(prefix.len() as int, text@.len() as int);
                assert(text@ =~= prefix + rest);
                lemma_encode_concat(prefix, rest);
                assert(x@.subrange(0, n as int) =~= encode_utf8(prefix));
            }
        }
    }
    r
}

/// The character that writes one decimal digit.
pub open spec fn digit(d: nat) -> char {
    if d == 0 {
        '0'
    } else if d == 1 {
        '1'
    } else if d == 2 {
        '2'
    } else if d == 3 {
        '3'
    } else if d == 4 {
        '4'
    } else if d == 5 {
        '5'
    } else if d == 6 {
        '6'
    } else if d == 7 {
        '7'
    } else if d == 8 {
        '8'
    } else {
        '9'
    }
}

/// The decimal numeral of a natural number, without leading zeros.
pub open spec fn decimal(n: nat) -> Seq<char>
    decreases n,
{
    if n < 10 {
        seq![digit(n)]
    } else {
        decimal(n / 10).push(digit(n % 10))
    }
}

/// The decimal numeral of an integer: a minus sign before the numeral of a negative one.
pub open spec fn signed_decimal(i: int) -> Seq<char> {
    if i < 0 {
        seq!['-'] + decimal((-i) as nat)
    } else {
        decimal(i as nat)
    }
}

/// The text that writes one decimal digit.
fn digit_text(d: u64) -> (t: &'static str)
    requires
        d < 10,
    ensures
        t@ == seq![digit(d as nat)],
{
    proof {
        reveal_strlit("0");
        reveal_strlit("1");
        reveal_strlit("2");
        reveal_strlit("3");
        reveal_strlit("4");
        reveal_strlit("5");
        reveal_strlit("6");
        reveal_strlit("7");
        reveal_strlit("8");
        reveal_strlit("9");
    }
    let t = if d == 0 {
        "0"
    } else if d == 1 {
        "1"
    } else if d == 2 {
        "2"
    } else if d == 3 {
        "3"
    } else if d == 4 {
        "4"
    } else if d == 5 {
        "5"
    } else if d == 6 {
        "6"
    } else if d == 7 {
        "7"
    } else if d == 8 {
        "8"
    } else {
        "9"
    };
    assert(t@ =~= seq![digit(d as nat)]);
    t
}

/// Appends the decimal numeral of `n` to `out`.
pub fn push_decimal(out: &mut String, n: u64)
    ensures
        final(out)@ == old(out)@ + decimal(n as nat),
    decreases n,
{
    if n >= 10 {
        push_decimal(out, n / 10);
    }
    out.append(digit_text(n % 10));
    proof {
        if n >= 10 {
            assert(old(out)@ + decimal(n as nat) =~= old(out)@ + decimal((n / 10) as nat)
                + seq![digit((n % 10) as nat)]);
        } else {
            assert(old(out)@ + decimal(n as nat) =~= old(out)@ + seq![digit(n as nat)]);
        }
    }
}

/// Appends the decimal numeral of `i`, with its sign, to `out`.
pub fn push_signed_decimal(out: &mut String, i: i64)
    ensures
        final(out)@ == old(out)@ + signed_decimal(i as int),
{
    if i < 0 {
        proof {
            reveal_strlit("-");
        }
        out.append("-");
        let m: u64 = if i == i64::MIN {
            9223372036854775808u64
        } else {
            (-i) as u64
        };
        push_decimal(out, m);
        assert(old(out)@ + signed_decimal(i as int) =~= old(out)@ + "-"@ + decimal(m as nat));
    } else {
        push_decimal(out, i as u64);
    }
}

/// A copy of the text.
pub fn owned(s: &str) -> (r: String)
    ensures
        r@ == s@,
{
    s.to_owned()
}

} // verus!
