//! Percent-encoding of the values of a query string.
use vstd::prelude::*;
use vstd::string::*;
use vstd::utf8::*;

verus! {

/// Whether a byte stands for itself in a query string: a letter, a digit, or one of `-_.~`.
pub open spec fn unreserved(b: u8) -> bool {
    ||| 'A' as u8 <= b <= 'Z' as u8
    ||| 'a' as u8 <= b <= 'z' as u8
    ||| '0' as u8 <= b <= '9' as u8
    ||| b == '-' as u8
    ||| b == '_' as u8
    ||| b == '.' as u8
    ||| b == '~' as u8
}

/// The upper-case hexadecimal digit of value `d`.
pub open spec fn hex_digit(d: u8) -> char {
    if d < 10 {
        ('0' as u8 + d) as char
    } else {
        ('A' as u8 + d - 10) as char
    }
}

/// How a byte is written: as itself, or as a percent sign and two hexadecimal digits.
pub open spec fn code(b: u8) -> Seq<char> {
    if unreserved(b) {
        seq![b as char]
    } else {
        seq!['%', hex_digit((b / 16) as u8), hex_digit((b % 16) as u8)]
    }
}

/// How bytes are written.
pub open spec fn encoded(bytes: Seq<u8>) -> Seq<char>
    decreases bytes.len(),
{
    if bytes.len() == 0 {
        Seq::empty()
    } else {
        encoded(bytes.drop_last()) + code(bytes.last())
    }
}

/// How a text is written in a query string.
pub open spec fn query_value(s: Seq<char>) -> Seq<char> {
    encoded(encode_utf8(s))
}

/// The upper-case hexadecimal digit of value `d`.
fn hex_char(d: u8) -> (r: char)
    requires
        d < 16,
    ensures
        r == hex_digit(d),
{
    if d < 10 {
        ('0' as u8 + d) as char
    } else {
        ('A' as u8 + (d - 10)) as char
    }
}

/// Percent-encodes a text for use as a value in a query string: each byte of its UTF-8 form that
/// is not unreserved is written as a percent sign and two upper-case hexadecimal digits.
pub fn qenc(s: &str) -> (r: String)
    ensures
        r@ == query_value(s@),
{
    let bytes = s.as_bytes();
    let mut out = String::new();
    let mut i: usize = 0;
    proof {
        reveal_strlit("");
        assert(out@ =~= encoded(bytes@.take(0)));
    }
    while i < bytes.len()
        invariant
            i <= bytes@.len(),
            out@ == encoded(bytes@.take(i as int)),
        decreases bytes@.len() - i,
    {
        let b: u8 = bytes[i];
        let ghost before = out@;
        let plain: bool = ('A' as u8 <= b && b <= 'Z' as u8) || ('a' as u8 <= b && b <= 'z' as u8)
            || ('0' as u8 <= b && b <= '9' as u8) || b == '-' as u8 || b == '_' as u8 || b
            == '.' as u8 || b == '~' as u8;
        if plain {
            out.push(b as char);
        } else {
            out.push('%');
            out.push(hex_char(b / 16));
            out.push(hex_char(b % 16));
        }
        proof {
            assert(bytes@.take(i + 1).drop_last() =~= bytes@.take(i as int));
            assert(out@ =~= before + code(b));
        }
        i += 1;
    }
    proof {
        assert(bytes@.take(i as int) =~= bytes@);
    }
    out
}

/// The value of an upper-case hexadecimal digit.
pub open spec fn hex_value(c: char) -> int {
    if c <= '9' {
        c as int - '0' as int
    } else {
        c as int - 'A' as int + 10
    }
}

/// The bytes that a query string's value stands for.
pub open spec fn decoded(s: Seq<char>) -> Seq<u8>
    decreases s.len(),
{
    if s.len() == 0 {
        Seq::empty()
    } else if s[0] == '%' && s.len() >= 3 {
        seq![(16 * hex_value(s[1]) + hex_value(s[2])) as u8] + decoded(s.skip(3))
    } else {
        seq![s[0] as u8] + decoded(s.skip(1))
    }
}

proof fn lemma_encoded_first(bytes: Seq<u8>)
    requires
        bytes.len() > 0,
    ensures
        encoded(bytes) == code(bytes[0]) + encoded(bytes.skip(1)),
    decreases bytes.len(),
{
    if bytes.len() == 1 {
        assert(bytes.drop_last() =~= Seq::empty());
        assert(bytes.skip(1) =~= Seq::empty());
        assert(encoded(bytes.drop_last()) =~= Seq::empty());
        assert(encoded(bytes.skip(1)) =~= Seq::empty());
        assert(encoded(bytes) =~= code(bytes[0]) + encoded(bytes.skip(1)));
    } else {
        lemma_encoded_first(bytes.drop_last());
        assert(bytes.drop_last().skip(1) =~= bytes.skip(1).drop_last());
        assert(encoded(bytes) =~= code(bytes[0]) + (encoded(bytes.skip(1).drop_last()) + code(
            bytes.last(),
        )));
    }
}

/// Decoding an encoded value gives back its bytes: nothing is lost, and no two values are encoded
/// alike.
pub proof fn law_query_value_round_trip(bytes: Seq<u8>)
    ensures
        decoded(encoded(bytes)) == bytes,
    decreases bytes.len(),
{
    if bytes.len() == 0 {
        assert(decoded(encoded(bytes)) =~= bytes);
    } else {
        let b = bytes[0];
        let rest = encoded(bytes.skip(1));
        lemma_encoded_first(bytes);
        law_query_value_round_trip(bytes.skip(1));
        assert((code(b) + rest).skip(code(b).len() as int) =~= rest);
        assert(decoded(encoded(bytes)) =~= seq![b] + bytes.skip(1));
        assert(seq![b] + bytes.skip(1) =~= bytes);
    }
}

/// Whether a character may stand in an encoded value.
pub open spec fn query_char(c: char) -> bool {
    c == '%' || (c as u32 <= 127 && unreserved(c as u8))
}

/// An encoded value holds unreserved characters and percent signs alone, so nothing in it ends
/// the value or the query.
pub proof fn law_query_value_alphabet(bytes: Seq<u8>, i: int)
    requires
        0 <= i < encoded(bytes).len(),
    ensures
        query_char(encoded(bytes)[i]),
    decreases bytes.len(),
{
    let before = encoded(bytes.drop_last());
    if i < before.len() {
        law_query_value_alphabet(bytes.drop_last(), i);
    } else {
        assert(encoded(bytes)[i] == code(bytes.last())[i - before.len()]);
    }
}

/// How a byte is written: letters, digits and the four marks `-_.~` as themselves, and every other
/// byte as a percent sign and its two hexadecimal digits, in upper case.
pub proof fn law_byte_is_written(b: u8)
    ensures
        ({
            let c = b as char;
            let kept = ('A' <= c && c <= 'Z') || ('a' <= c && c <= 'z') || ('0' <= c && c <= '9')
                || c == '-' || c == '_' || c == '.' || c == '~';
            &&& kept ==> encoded(seq![b]) == seq![c]
            &&& !kept ==> encoded(seq![b]) == seq![
                '%',
                "0123456789ABCDEF"@[b as int / 16],
                "0123456789ABCDEF"@[b as int % 16],
            ]
        }),
{
    reveal_strlit("0123456789ABCDEF");
    assert(seq![b].drop_last() =~= Seq::empty());
    assert(encoded(seq![b].drop_last()) =~= Seq::empty());
    assert(encoded(seq![b]) =~= code(b));
    lemma_hex((b / 16) as u8);
    lemma_hex((b % 16) as u8);
}

proof fn lemma_hex(d: u8)
    requires
        d < 16,
    ensures
        hex_digit(d) == "0123456789ABCDEF"@[d as int],
{
    reveal_strlit("0123456789ABCDEF");
}

/// Bytes are written one behind the other.
pub proof fn law_bytes_are_written_in_order(a: Seq<u8>, b: Seq<u8>)
    ensures
        encoded(a + b) == encoded(a) + encoded(b),
    decreases b.len(),
{
    if b.len() == 0 {
        assert(a + b =~= a);
    } else {
        assert((a + b).drop_last() =~= a + b.drop_last());
        law_bytes_are_written_in_order(a, b.drop_last());
    }
    assert(encoded(a + b) =~= encoded(a) + encoded(b));
}

} // verus!
