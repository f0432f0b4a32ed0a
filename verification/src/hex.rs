//! Lowercase hexadecimal text of a byte string.

use vstd::prelude::*;

verus! {

/// The ASCII code of the lowercase hexadecimal digit for a value below 16.
pub open spec fn hex_digit(d: int) -> u8 {
    if d < 10 {
        (48 + d) as u8
    } else {
        (87 + d) as u8
    }
}

/// The lowercase hexadecimal text of `bytes`, two ASCII digits per byte, the
/// high half first.
pub open spec fn hex_lower(bytes: Seq<u8>) -> Seq<u8> {
    Seq::new(
        2 * bytes.len(),
        |i: int|
            if i % 2 == 0 {
                hex_digit(bytes[i / 2] as int / 16)
            } else {
                hex_digit(bytes[i / 2] as int % 16)
            },
    )
}

/// Whether `c` is the ASCII code of a lowercase hexadecimal digit.
pub open spec fn is_hex_digit(c: u8) -> bool {
    (48 <= c <= 57) || (97 <= c <= 102)
}

/// Every character of a hexadecimal text is a hexadecimal digit.
pub proof fn hex_lower_is_hex(bytes: Seq<u8>)
    ensures
        hex_lower(bytes).len() == 2 * bytes.len(),
        forall|i: int| 0 <= i < 2 * bytes.len() ==> is_hex_digit(#[trigger] hex_lower(bytes)[i]),
{
}

/// Two byte strings with the same hexadecimal text are the same.
pub proof fn hex_lower_is_injective(a: Seq<u8>, b: Seq<u8>)
    requires
        hex_lower(a) == hex_lower(b),
    ensures
        a == b,
{
    assert(a.len() == b.len()) by {
        assert(hex_lower(a).len() == 2 * a.len());
        assert(hex_lower(b).len() == 2 * b.len());
    }
    assert forall|k: int| 0 <= k < a.len() implies a[k] == b[k] by {
        let ha = hex_lower(a);
        let hb = hex_lower(b);
        assert(ha[2 * k] == hb[2 * k]);
        assert(ha[2 * k + 1] == hb[2 * k + 1]);
        assert((2 * k) / 2 == k && (2 * k) % 2 == 0);
        assert((2 * k + 1) / 2 == k && (2 * k + 1) % 2 == 1);
        let x = a[k] as int;
        let y = b[k] as int;
        assert(hex_digit(x / 16) == hex_digit(y / 16));
        assert(hex_digit(x % 16) == hex_digit(y % 16));
        assert(x / 16 == y / 16);
        assert(x % 16 == y % 16);
    }
    assert(a =~= b);
}

fn digit(d: u8) -> (c: u8)
    requires
        d < 16,
    ensures
        c == hex_digit(d as int),
{
    if d < 10 {
        48 + d
    } else {
        87 + d
    }
}

/// Writes the 16 bytes of a hash as 32 lowercase hexadecimal digits.
pub fn hash_to_hex(hash: &[u8; 16]) -> (text: [u8; 32])
    ensures
        text@ == hex_lower(hash@),
{
    let mut text = [0u8; 32];
    let mut i: usize = 0;
    while i < 16
        invariant
            i <= 16,
            forall|j: int| 0 <= j < 2 * i ==> text@[j] == hex_lower(hash@)[j],
        decreases 16 - i,
    {
        let b = hash[i];
        text[2 * i] = digit(b / 16);
        text[2 * i + 1] = digit(b % 16);
        proof {
            assert((2 * i) as int / 2 == i && (2 * i) as int % 2 == 0);
            assert((2 * i + 1) as int / 2 == i && (2 * i + 1) as int % 2 == 1);
        }
        i += 1;
    }
    assert(text@ =~= hex_lower(hash@));
    text
}

} // verus!
