//! Lower-case hexadecimal encoding of byte strings, used to print a message
//! authentication tag into the signature part of a token.

use vstd::prelude::*;

verus! {

/// The hexadecimal digit for a value below sixteen.
pub open spec fn hex_digit(n: int) -> char {
    if n == 0 {
        '0'
    } else if n == 1 {
        '1'
    } else if n == 2 {
        '2'
    } else if n == 3 {
        '3'
    } else if n == 4 {
        '4'
    } else if n == 5 {
        '5'
    } else if n == 6 {
        '6'
    } else if n == 7 {
        '7'
    } else if n == 8 {
        '8'
    } else if n == 9 {
        '9'
    } else if n == 10 {
        'a'
    } else if n == 11 {
        'b'
    } else if n == 12 {
        'c'
    } else if n == 13 {
        'd'
    } else if n == 14 {
        'e'
    } else {
        'f'
    }
}

/// The hexadecimal text of a byte string: two digits per byte, high nibble
/// first.
pub open spec fn hex_of(b: Seq<u8>) -> Seq<char>
    decreases b.len(),
{
    if b.len() == 0 {
        Seq::empty()
    } else {
        seq![hex_digit(b[0] as int / 16), hex_digit(b[0] as int % 16)] + hex_of(
            b.subrange(1, b.len() as int),
        )
    }
}

pub proof fn lemma_hex_of_snoc(b: Seq<u8>, x: u8)
    ensures
        hex_of(b.push(x)) == hex_of(b) + seq![
            hex_digit(x as int / 16),
            hex_digit(x as int % 16),
        ],
    decreases b.len(),
{
    if b.len() == 0 {
        assert(b.push(x)[0] == x);
        assert(b.push(x).subrange(1, b.push(x).len() as int) =~= Seq::empty());
        assert(hex_of(b.push(x)) == seq![
            hex_digit(b.push(x)[0] as int / 16),
            hex_digit(b.push(x)[0] as int % 16),
        ] + hex_of(b.push(x).subrange(1, b.push(x).len() as int)));
        assert(hex_of(Seq::<u8>::empty()) =~= Seq::<char>::empty());
        assert(hex_of(b.push(x)) =~= hex_of(b) + seq![
            hex_digit(x as int / 16),
            hex_digit(x as int % 16),
        ]);
    } else {
        assert(b.push(x).subrange(1, b.push(x).len() as int) =~= b.subrange(
            1,
            b.len() as int,
        ).push(x));
        lemma_hex_of_snoc(b.subrange(1, b.len() as int), x);
        assert(hex_of(b.push(x)) =~= hex_of(b) + seq![
            hex_digit(x as int / 16),
            hex_digit(x as int % 16),
        ]);
    }
}

/// Every character of a hexadecimal text is a digit or a lower-case letter
/// between 'a' and 'f'; in particular it is neither a dot nor a brace.
pub proof fn lemma_hex_of_chars(b: Seq<u8>)
    ensures
        forall|j: int|
            0 <= j < hex_of(b).len() ==> #[trigger] hex_of(b)[j] != '.' && hex_of(b)[j] != '}',
    decreases b.len(),
{
    if b.len() > 0 {
        let rest = b.subrange(1, b.len() as int);
        lemma_hex_of_chars(rest);
        let h2 = seq![hex_digit(b[0] as int / 16), hex_digit(b[0] as int % 16)];
        assert forall|j: int|
            0 <= j < hex_of(b).len() implies #[trigger] hex_of(b)[j] != '.' && hex_of(b)[j]
            != '}' by {
            assert(hex_of(b) == h2 + hex_of(rest));
            if j < 2 {
                assert(hex_of(b)[j] == h2[j]);
            } else {
                assert(hex_of(b)[j] == hex_of(rest)[j - 2]);
            }
        }
    }
}

/// The digit character for a nibble.
pub(crate) fn hex_digit_char(n: u8) -> (c: char)
    requires
        n < 16,
    ensures
        c == hex_digit(n as int),
{
    if n == 0 {
        '0'
    } else if n == 1 {
        '1'
    } else if n == 2 {
        '2'
    } else if n == 3 {
        '3'
    } else if n == 4 {
        '4'
    } else if n == 5 {
        '5'
    } else if n == 6 {
        '6'
    } else if n == 7 {
        '7'
    } else if n == 8 {
        '8'
    } else if n == 9 {
        '9'
    } else if n == 10 {
        'a'
    } else if n == 11 {
        'b'
    } else if n == 12 {
        'c'
    } else if n == 13 {
        'd'
    } else if n == 14 {
        'e'
    } else {
        'f'
    }
}

/// Encodes a byte string as lower-case hexadecimal text.
pub fn hex_encode(bytes: &[u8]) -> (r: String)
    ensures
        r@ == hex_of(bytes@),
{
    let mut out = String::new();
    let mut i: usize = 0;
    proof {
        assert(bytes@.subrange(0, 0) =~= Seq::empty());
    }
    while i < bytes.len()
        invariant
            i <= bytes@.len(),
            out@ == hex_of(bytes@.subrange(0, i as int)),
        decreases bytes@.len() - i,
    {
        let x = bytes[i];
        crate::json::push_char(&mut out, hex_digit_char(x / 16));
        crate::json::push_char(&mut out, hex_digit_char(x % 16));
        proof {
            lemma_hex_of_snoc(bytes@.subrange(0, i as int), x);
            assert(bytes@.subrange(0, i as int).push(x) =~= bytes@.subrange(0, i as int + 1));
            assert(out@ =~= hex_of(bytes@.subrange(0, i as int + 1)));
        }
        i = i + 1;
    }
    proof {
        assert(bytes@.subrange(0, bytes@.len() as int) =~= bytes@);
    }
    out
}

} // verus!
