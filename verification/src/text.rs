//! Decimal and lower-case hexadecimal text, as sequences of characters.
//!
//! The hash-chain proofs render numeric fields as decimal text and digests as
//! hexadecimal text.  Both renderings are defined here as spec functions and
//! implemented by verified code that builds the strings character by
//! character.

use vstd::prelude::*;

verus! {

/// The lower-case hexadecimal digit character for a value below sixteen.
pub open spec fn hex_char(d: u8) -> char {
    if d == 0 {
        '0'
    } else if d == 1 {
        '1'
    } else if d == 2 {
        '2'
    } else if d == 3 {
        '3'
    } else if d == 4 {
        '4'
    } else if d == 5 {
        '5'
    } else if d == 6 {
        '6'
    } else if d == 7 {
        '7'
    } else if d == 8 {
        '8'
    } else if d == 9 {
        '9'
    } else if d == 10 {
        'a'
    } else if d == 11 {
        'b'
    } else if d == 12 {
        'c'
    } else if d == 13 {
        'd'
    } else if d == 14 {
        'e'
    } else {
        'f'
    }
}

/// The decimal rendering of a natural number, most significant digit first,
/// with no leading zeroes (zero itself renders as the single digit `0`).
pub open spec fn dec_of(n: nat) -> Seq<char>
    decreases n,
{
    if n < 10 {
        seq![hex_char(n as u8)]
    } else {
        dec_of(n / 10).push(hex_char((n % 10) as u8))
    }
}

/// The lower-case hexadecimal rendering of a byte sequence: two digits per
/// byte, high nibble first.
pub open spec fn hex_of(bytes: Seq<u8>) -> Seq<char>
    decreases bytes.len(),
{
    if bytes.len() == 0 {
        Seq::empty()
    } else {
        hex_of(bytes.drop_last()) + seq![
            hex_char(bytes.last() / 16),
            hex_char(bytes.last() % 16),
        ]
    }
}

/// Relies on `String::push` from std: appends the character to the end of
/// the string.
#[verifier::external_body]
pub(crate) fn push_char(s: &mut String, c: char)
    ensures
        final(s)@ == old(s)@.push(c),
{
    s.push(c)
}

fn hex_char_exec(d: u8) -> (c: char)
    requires
        d < 16,
    ensures
        c == hex_char(d),
{
    if d == 0 {
        '0'
    } else if d == 1 {
        '1'
    } else if d == 2 {
        '2'
    } else if d == 3 {
        '3'
    } else if d == 4 {
        '4'
    } else if d == 5 {
        '5'
    } else if d == 6 {
        '6'
    } else if d == 7 {
        '7'
    } else if d == 8 {
        '8'
    } else if d == 9 {
        '9'
    } else if d == 10 {
        'a'
    } else if d == 11 {
        'b'
    } else if d == 12 {
        'c'
    } else if d == 13 {
        'd'
    } else if d == 14 {
        'e'
    } else {
        'f'
    }
}

/// Appends the decimal rendering of `n` to `s`.
pub fn push_dec(s: &mut String, n: u64)
    ensures
        final(s)@ == old(s)@ + dec_of(n as nat),
    decreases n,
{
    if n >= 10 {
        push_dec(s, n / 10);
    }
    let d = (n % 10) as u8;
    let ghost before = s@;
    push_char(s, hex_char_exec(d));
    proof {
        if n < 10 {
            assert(old(s)@ + dec_of(n as nat) =~= old(s)@.push(hex_char((n % 10) as u8)));
        } else {
            assert((n / 10) as nat == (n as nat) / 10);
            assert((n % 10) as nat == (n as nat) % 10);
            assert(old(s)@ + dec_of(n as nat) =~= before.push(hex_char((n % 10) as u8)));
        }
    }
}

/// The decimal rendering of `n` as a fresh string.
pub fn u64_to_string(n: u64) -> (r: String)
    ensures
        r@ == dec_of(n as nat),
{
    let mut s = String::new();
    push_dec(&mut s, n);
    proof {
        assert(Seq::<char>::empty() + dec_of(n as nat) =~= dec_of(n as nat));
    }
    s
}

/// Appends the hexadecimal rendering of `bytes` to `s`.
pub fn push_hex(s: &mut String, bytes: &[u8])
    ensures
        final(s)@ == old(s)@ + hex_of(bytes@),
{
    let ghost orig = old(s)@;
    let mut i: usize = 0;
    while i < bytes.len()
        invariant
            i <= bytes@.len(),
            s@ == orig + hex_of(bytes@.take(i as int)),
        decreases bytes@.len() - i,
    {
        let b = bytes[i];
        push_char(s, hex_char_exec(b / 16));
        push_char(s, hex_char_exec(b % 16));
        proof {
            assert(bytes@.take(i + 1).drop_last() =~= bytes@.take(i as int));
            assert(bytes@.take(i + 1).last() == b);
            assert(orig + hex_of(bytes@.take(i + 1)) =~= (orig + hex_of(bytes@.take(
                i as int,
            ))).push(hex_char(b / 16)).push(hex_char(b % 16)));
        }
        i = i + 1;
    }
    proof {
        assert(bytes@.take(bytes@.len() as int) =~= bytes@);
    }
}

/// The hexadecimal rendering of `bytes` as a fresh string.
pub fn hex_string(bytes: &[u8]) -> (r: String)
    ensures
        r@ == hex_of(bytes@),
{
    let mut s = String::new();
    push_hex(&mut s, bytes);
    proof {
        assert(Seq::<char>::empty() + hex_of(bytes@) =~= hex_of(bytes@));
    }
    s
}

/// The nibble value of an ASCII byte, or sixteen for a byte that is no
/// lower-case hexadecimal digit.
pub open spec fn hex_val(b: u8) -> u8 {
    if 48 <= b <= 57 {
        (b - 48) as u8
    } else if 97 <= b <= 102 {
        (b - 87) as u8
    } else {
        16
    }
}

/// Whether an ASCII byte is a lower-case hexadecimal digit.
pub open spec fn is_hex_byte(b: u8) -> bool {
    hex_val(b) < 16
}

/// Whether a byte sequence is well-formed lower-case hexadecimal text: an
/// even number of bytes, every one a digit.
pub open spec fn hex_bytes_valid(s: Seq<u8>) -> bool {
    s.len() % 2 == 0 && (forall|i: int| 0 <= i < s.len() ==> is_hex_byte(#[trigger] s[i]))
}

/// The bytes a well-formed hexadecimal text stands for, two digits each.
pub open spec fn hex_decode_of(s: Seq<u8>) -> Seq<u8>
    decreases s.len(),
{
    if s.len() < 2 {
        Seq::empty()
    } else {
        hex_decode_of(s.subrange(0, s.len() - 2)).push(
            ((hex_val(s[s.len() - 2]) * 16 + hex_val(s[s.len() - 1])) as u8),
        )
    }
}

fn hex_val_exec(b: u8) -> (r: u8)
    ensures
        r == hex_val(b),
{
    if 48 <= b && b <= 57 {
        b - 48
    } else if 97 <= b && b <= 102 {
        b - 87
    } else {
        16
    }
}

/// Decodes lower-case hexadecimal text, given as its UTF-8 bytes, back to
/// the bytes it stands for.  Odd lengths and non-digit bytes are rejected.
pub fn hex_decode_bytes(b: &[u8]) -> (r: Option<Vec<u8>>)
    ensures
        r is Some <==> hex_bytes_valid(b@),
        r matches Some(v) ==> v@ == hex_decode_of(b@) && v@.len() * 2 == b@.len(),
{
    if b.len() % 2 != 0 {
        return None;
    }
    let mut v: Vec<u8> = Vec::new();
    let mut i: usize = 0;
    while i < b.len()
        invariant
            i <= b@.len(),
            i % 2 == 0,
            b@.len() % 2 == 0,
            forall|j: int| 0 <= j < i ==> is_hex_byte(#[trigger] b@[j]),
            v@ == hex_decode_of(b@.take(i as int)),
            v@.len() * 2 == i,
        decreases b@.len() - i,
    {
        proof {
            assert(i + 1 < b@.len());
        }
        let hi = hex_val_exec(b[i]);
        let lo = hex_val_exec(b[i + 1]);
        if hi >= 16 || lo >= 16 {
            return None;
        }
        v.push(hi * 16 + lo);
        proof {
            assert(b@.take(i + 2).subrange(0, i as int) =~= b@.take(i as int));
            assert(b@.take(i + 2)[i as int] == b@[i as int]);
            assert(b@.take(i + 2)[i + 1] == b@[i + 1]);
        }
        i = i + 2;
    }
    proof {
        assert(b@.take(b@.len() as int) =~= b@);
    }
    Some(v)
}

/// The one-byte-per-character reading of an ASCII character sequence.
pub open spec fn ascii_of(s: Seq<char>) -> Seq<u8> {
    Seq::new(s.len(), |i: int| s[i] as u8)
}

proof fn lemma_hex_char_facts(d: u8)
    requires
        d < 16,
    ensures
        '\0' <= hex_char(d) <= '\u{7f}',
        hex_val(hex_char(d) as u8) == d,
{
}

/// Hexadecimal text is ASCII, its UTF-8 bytes are its characters read one
/// byte each, those bytes are well-formed hexadecimal, and decoding them
/// gives the original bytes back, for every byte sequence.
pub proof fn lemma_hex_roundtrip(bytes: Seq<u8>)
    ensures
        vstd::utf8::is_ascii_chars(hex_of(bytes)),
        vstd::utf8::encode_utf8(hex_of(bytes)) == ascii_of(hex_of(bytes)),
        hex_bytes_valid(ascii_of(hex_of(bytes))),
        hex_decode_of(ascii_of(hex_of(bytes))) == bytes,
    decreases bytes.len(),
{
    if bytes.len() == 0 {
        assert(hex_of(bytes) =~= Seq::<char>::empty());
        assert(ascii_of(hex_of(bytes)) =~= Seq::<u8>::empty());
        assert(hex_decode_of(ascii_of(hex_of(bytes))) =~= bytes);
    } else {
        let prefix = bytes.drop_last();
        let last = bytes.last();
        let c1 = hex_char(last / 16);
        let c2 = hex_char(last % 16);
        lemma_hex_roundtrip(prefix);
        lemma_hex_char_facts(last / 16);
        lemma_hex_char_facts(last % 16);

        let h = hex_of(bytes);
        assert(h == hex_of(prefix) + seq![c1, c2]);
        assert forall|i: int| 0 <= i < h.len() implies '\0' <= #[trigger] h[i] <= '\u{7f}' by {
            if i < hex_of(prefix).len() {
                assert(h[i] == hex_of(prefix)[i]);
            }
        }

        let a = ascii_of(h);
        let ap = ascii_of(hex_of(prefix));
        assert(a =~= ap + seq![c1 as u8, c2 as u8]);

        assert forall|i: int| 0 <= i < h.len() implies #[trigger] vstd::utf8::encode_utf8(h)[i]
            == a[i] by {
            vstd::utf8::is_ascii_chars_encode_utf8(h);
        }
        assert(vstd::utf8::encode_utf8(h) =~= a) by {
            vstd::utf8::is_ascii_chars_encode_utf8(h);
        }

        assert forall|i: int| 0 <= i < a.len() implies is_hex_byte(#[trigger] a[i]) by {
            if i < ap.len() {
                assert(a[i] == ap[i]);
            }
        }
        assert(a.len() % 2 == 0);

        assert(a.subrange(0, a.len() - 2) =~= ap);
        assert(a[a.len() - 2] == c1 as u8 && a[a.len() - 1] == c2 as u8);
        assert(hex_val(c1 as u8) * 16 + hex_val(c2 as u8) == (last / 16) * 16 + last % 16);
        assert(hex_decode_of(a) == hex_decode_of(ap).push(last));
        assert(hex_decode_of(a) =~= bytes);
    }
}

} // verus!
