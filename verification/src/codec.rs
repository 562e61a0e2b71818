//! The binary value codec: every record is stored as a self-contained byte
//! string built from three primitives — a 32-bit little-endian integer, a
//! single-byte boolean, and a length-prefixed character string (each
//! character as its 32-bit code point).
//!
//! Encoding fails (with `DbError::Serialization`) only when a length does
//! not fit in 32 bits.  Decoding is checked everywhere: any byte string
//! either decodes to exactly one value or is rejected.

use vstd::prelude::*;

use crate::DbError;

verus! {

/// The four little-endian bytes of a 32-bit integer.
pub open spec fn u32_le(x: u32) -> Seq<u8> {
    seq![
        (x & 0xff) as u8,
        ((x >> 8) & 0xff) as u8,
        ((x >> 16) & 0xff) as u8,
        ((x >> 24) & 0xff) as u8,
    ]
}

/// The 32-bit integer read back from four little-endian bytes.
pub open spec fn u32_of_le(b0: u8, b1: u8, b2: u8, b3: u8) -> u32 {
    (b0 as u32) | ((b1 as u32) << 8) | ((b2 as u32) << 16) | ((b3 as u32) << 24)
}

pub proof fn lemma_u32_le_roundtrip(x: u32)
    ensures
        u32_of_le(
            (x & 0xff) as u8,
            ((x >> 8) & 0xff) as u8,
            ((x >> 16) & 0xff) as u8,
            ((x >> 24) & 0xff) as u8,
        ) == x,
{
    assert((((x & 0xff) as u8) as u32) | (((((x >> 8) & 0xff) as u8) as u32) << 8) | (((((x
        >> 16) & 0xff) as u8) as u32) << 16) | (((((x >> 24) & 0xff) as u8) as u32) << 24)
        == x) by (bit_vector);
}

/// A code point a `char` may carry: anything but the surrogate range.
pub open spec fn valid_code_point(x: u32) -> bool {
    x < 0xD800 || (0xDFFF < x && x <= 0x10FFFF)
}

/// Relies on `char::from_u32`: `Some` exactly on code points outside the
/// surrogate range and at most 0x10FFFF, returning the character with that
/// code point.
pub assume_specification[ char::from_u32 ](x: u32) -> (r: Option<char>)
    ensures
        valid_code_point(x) ==> r == Some(x as char),
        !valid_code_point(x) ==> r is None,
;

/// Relies on `String::push`: appends one character at the end.
pub assume_specification[ String::push ](s: &mut String, ch: char)
    ensures
        final(s)@ == old(s)@.push(ch),
;

/// One byte for a boolean.
pub open spec fn enc_bool(v: bool) -> Seq<u8> {
    seq![if v { 1u8 } else { 0u8 }]
}

/// The characters of a string, each as its 32-bit code point.
pub open spec fn enc_chars(s: Seq<char>) -> Seq<u8>
    decreases s.len(),
{
    if s.len() == 0 {
        Seq::empty()
    } else {
        u32_le(s[0] as u32) + enc_chars(s.drop_first())
    }
}

/// Whether a string fits the length prefix.
pub open spec fn str_encodable(s: Seq<char>) -> bool {
    s.len() <= u32::MAX
}

/// A string: its character count, then its characters.
pub open spec fn enc_str(s: Seq<char>) -> Seq<u8> {
    u32_le(s.len() as u32) + enc_chars(s)
}

/// Reading a 32-bit integer off the front of a byte string.
pub open spec fn dec_u32(b: Seq<u8>) -> Option<(u32, Seq<u8>)> {
    if b.len() >= 4 {
        Some((u32_of_le(b[0], b[1], b[2], b[3]), b.skip(4)))
    } else {
        None
    }
}

/// Reading a boolean off the front of a byte string.
pub open spec fn dec_bool(b: Seq<u8>) -> Option<(bool, Seq<u8>)> {
    if b.len() >= 1 && (b[0] == 1 || b[0] == 0) {
        Some((b[0] == 1, b.skip(1)))
    } else {
        None
    }
}

/// Reading one character off the front of a byte string.
pub open spec fn dec_char(b: Seq<u8>) -> Option<(char, Seq<u8>)> {
    match dec_u32(b) {
        Some((x, rest)) => if valid_code_point(x) {
            Some((x as char, rest))
        } else {
            None
        },
        None => None,
    }
}

/// Reading `n` characters off the front of a byte string.
pub open spec fn dec_chars(b: Seq<u8>, n: nat) -> Option<(Seq<char>, Seq<u8>)>
    decreases n,
{
    if n == 0 {
        Some((Seq::empty(), b))
    } else {
        match dec_char(b) {
            Some((c, rest)) => match dec_chars(rest, (n - 1) as nat) {
                Some((s, rest2)) => Some((seq![c] + s, rest2)),
                None => None,
            },
            None => None,
        }
    }
}

/// Reading a length-prefixed string off the front of a byte string.
pub open spec fn dec_str(b: Seq<u8>) -> Option<(Seq<char>, Seq<u8>)> {
    match dec_u32(b) {
        Some((n, rest)) => dec_chars(rest, n as nat),
        None => None,
    }
}

/// A decoded string has exactly the announced number of characters.
pub proof fn lemma_dec_chars_len(b: Seq<u8>, n: nat)
    ensures
        dec_chars(b, n) matches Some(p) ==> p.0.len() == n,
    decreases n,
{
    if n > 0 {
        match dec_char(b) {
            Some((c, rest)) => {
                lemma_dec_chars_len(rest, (n - 1) as nat);
            },
            None => {},
        }
    }
}

/// Whatever a string decodes to can be encoded again.
pub proof fn lemma_dec_str_encodable(b: Seq<u8>)
    ensures
        dec_str(b) matches Some(p) ==> str_encodable(p.0),
{
    match dec_u32(b) {
        Some((n, rest)) => {
            lemma_dec_chars_len(rest, n as nat);
        },
        None => {},
    }
}

pub proof fn lemma_dec_u32_of_enc(x: u32, rest: Seq<u8>)
    ensures
        dec_u32(u32_le(x) + rest) == Some((x, rest)),
{
    let b = u32_le(x) + rest;
    lemma_u32_le_roundtrip(x);
    assert(u32_of_le(b[0], b[1], b[2], b[3]) == x);
    assert(b.skip(4) =~= rest);
}

pub proof fn lemma_dec_bool_of_enc(v: bool, rest: Seq<u8>)
    ensures
        dec_bool(enc_bool(v) + rest) == Some((v, rest)),
{
    let b = enc_bool(v) + rest;
    assert(b.skip(1) =~= rest);
}

pub proof fn lemma_dec_char_of_enc(c: char, rest: Seq<u8>)
    ensures
        dec_char(u32_le(c as u32) + rest) == Some((c, rest)),
{
    lemma_dec_u32_of_enc(c as u32, rest);
}

pub proof fn lemma_dec_chars_of_enc(s: Seq<char>, rest: Seq<u8>)
    ensures
        dec_chars(enc_chars(s) + rest, s.len()) == Some((s, rest)),
    decreases s.len(),
{
    if s.len() == 0 {
        assert(enc_chars(s) + rest =~= rest);
        assert(dec_chars(rest, 0) == Some((Seq::<char>::empty(), rest)));
        assert(s =~= Seq::<char>::empty());
    } else {
        let c = s[0];
        let tail = s.drop_first();
        assert(enc_chars(s) + rest =~= u32_le(c as u32) + (enc_chars(tail) + rest));
        lemma_dec_char_of_enc(c, enc_chars(tail) + rest);
        lemma_dec_chars_of_enc(tail, rest);
        assert(seq![c] + tail =~= s);
    }
}

pub proof fn lemma_dec_str_of_enc(s: Seq<char>, rest: Seq<u8>)
    requires
        str_encodable(s),
    ensures
        dec_str(enc_str(s) + rest) == Some((s, rest)),
{
    let n = s.len() as u32;
    assert(enc_str(s) + rest =~= u32_le(n) + (enc_chars(s) + rest));
    lemma_dec_u32_of_enc(n, enc_chars(s) + rest);
    lemma_dec_chars_of_enc(s, rest);
    assert(n as nat == s.len());
}

/// Appends the four little-endian bytes of `x`.
pub fn encode_u32(out: &mut Vec<u8>, x: u32)
    ensures
        final(out)@ == old(out)@ + u32_le(x),
{
    proof {
        assert(x & 0xff < 256 && (x >> 8) & 0xff < 256 && (x >> 16) & 0xff < 256 && (x >> 24)
            & 0xff < 256) by (bit_vector);
    }
    out.push((x & 0xff) as u8);
    out.push(((x >> 8) & 0xff) as u8);
    out.push(((x >> 16) & 0xff) as u8);
    out.push(((x >> 24) & 0xff) as u8);
    proof {
        assert(out@ =~= old(out)@ + u32_le(x));
    }
}

/// Appends one byte for a boolean.
pub fn encode_bool(out: &mut Vec<u8>, v: bool)
    ensures
        final(out)@ == old(out)@ + enc_bool(v),
{
    out.push(if v { 1u8 } else { 0u8 });
    proof {
        assert(out@ =~= old(out)@ + enc_bool(v));
    }
}

/// Appending one more character extends the character encoding.
pub proof fn lemma_enc_chars_snoc(s: Seq<char>, c: char)
    ensures
        enc_chars(s.push(c)) == enc_chars(s) + u32_le(c as u32),
    decreases s.len(),
{
    let sp = s.push(c);
    if s.len() == 0 {
        assert(sp[0] == c);
        assert(sp.drop_first() =~= Seq::<char>::empty());
        assert(enc_chars(Seq::<char>::empty()) == Seq::<u8>::empty());
        assert(u32_le(c as u32) + Seq::<u8>::empty() =~= u32_le(c as u32));
        assert(Seq::<u8>::empty() + u32_le(c as u32) =~= u32_le(c as u32));
    } else {
        assert(sp[0] == s[0]);
        assert(sp.drop_first() =~= s.drop_first().push(c));
        lemma_enc_chars_snoc(s.drop_first(), c);
        assert((u32_le(s[0] as u32) + enc_chars(s.drop_first())) + u32_le(c as u32) =~= u32_le(
            s[0] as u32,
        ) + (enc_chars(s.drop_first()) + u32_le(c as u32)));
    }
}

/// Appends the length-prefixed encoding of the string, or reports that its
/// length does not fit the prefix and leaves the output as it was.
pub fn encode_str(out: &mut Vec<u8>, s: &str) -> (r: Result<(), DbError>)
    ensures
        r is Ok <==> str_encodable(s@),
        r is Ok ==> final(out)@ == old(out)@ + enc_str(s@),
        r is Err ==> final(out)@ == old(out)@ && r == Err::<(), DbError>(DbError::Serialization),
{
    let n = s.unicode_len();
    if n > u32::MAX as usize {
        return Err(DbError::Serialization);
    }
    encode_u32(out, n as u32);
    let mut i: usize = 0;
    while i < n
        invariant
            i <= n,
            n == s@.len(),
            n <= u32::MAX,
            out@ == old(out)@ + u32_le(n as u32) + enc_chars(s@.take(i as int)),
        decreases n - i,
    {
        let c = s.get_char(i);
        proof {
            assert(s@.take(i + 1 as int).drop_last() =~= s@.take(i as int));
            assert(s@.take(i + 1 as int).last() == s@[i as int]);
            lemma_enc_chars_snoc(s@.take(i as int), s@[i as int]);
            assert(s@.take(i as int).push(s@[i as int]) =~= s@.take(i + 1 as int));
        }
        encode_u32(out, c as u32);
        proof {
            assert(out@ =~= old(out)@ + u32_le(n as u32) + enc_chars(s@.take(i + 1 as int)));
        }
        i = i + 1;
    }
    proof {
        assert(s@.take(n as int) =~= s@);
        assert(out@ =~= old(out)@ + enc_str(s@));
    }
    Ok(())
}

/// Reads a 32-bit integer at `pos`, advancing the position.
pub fn decode_u32(b: &Vec<u8>, pos: usize) -> (r: Result<(u32, usize), DbError>)
    requires
        pos <= b@.len(),
    ensures
        match dec_u32(b@.skip(pos as int)) {
            Some(p) => r matches Ok(q) && q.0 == p.0 && q.1 == pos + 4 && b@.skip(q.1 as int)
                == p.1,
            None => r == Err::<(u32, usize), DbError>(DbError::Deserialization),
        },
{
    if b.len() - pos >= 4 {
        let b0 = b[pos];
        let b1 = b[pos + 1];
        let b2 = b[pos + 2];
        let b3 = b[pos + 3];
        let x = (b0 as u32) | ((b1 as u32) << 8) | ((b2 as u32) << 16) | ((b3 as u32) << 24);
        proof {
            let rest = b@.skip(pos as int);
            assert(rest[0] == b@[pos as int] && rest[1] == b@[pos + 1] && rest[2] == b@[pos + 2]
                && rest[3] == b@[pos + 3]);
            assert(rest.skip(4) =~= b@.skip(pos + 4));
        }
        Ok((x, pos + 4))
    } else {
        Err(DbError::Deserialization)
    }
}

/// Reads a boolean at `pos`, advancing the position.
pub fn decode_bool(b: &Vec<u8>, pos: usize) -> (r: Result<(bool, usize), DbError>)
    requires
        pos <= b@.len(),
    ensures
        match dec_bool(b@.skip(pos as int)) {
            Some(p) => r matches Ok(q) && q.0 == p.0 && q.1 == pos + 1 && b@.skip(q.1 as int)
                == p.1,
            None => r == Err::<(bool, usize), DbError>(DbError::Deserialization),
        },
{
    if b.len() - pos >= 1 {
        let byte = b[pos];
        proof {
            let rest = b@.skip(pos as int);
            assert(rest[0] == b@[pos as int]);
            assert(rest.skip(1) =~= b@.skip(pos + 1));
        }
        if byte == 1 {
            Ok((true, pos + 1))
        } else if byte == 0 {
            Ok((false, pos + 1))
        } else {
            Err(DbError::Deserialization)
        }
    } else {
        Err(DbError::Deserialization)
    }
}

/// Reads a length-prefixed string at `pos`, advancing the position.
pub fn decode_str(b: &Vec<u8>, pos: usize) -> (r: Result<(String, usize), DbError>)
    requires
        pos <= b@.len(),
    ensures
        match dec_str(b@.skip(pos as int)) {
            Some(p) => r matches Ok(q) && q.0@ == p.0 && q.1 <= b@.len() && b@.skip(q.1 as int)
                == p.1,
            None => r == Err::<(String, usize), DbError>(DbError::Deserialization),
        },
{
    let (n, cursor0) = match decode_u32(b, pos) {
        Ok(q) => q,
        Err(_) => {
            return Err(DbError::Deserialization);
        },
    };
    let ghost start = b@.skip(cursor0 as int);
    let mut cursor = cursor0;
    let mut acc = String::new();
    let mut i: u32 = 0;
    while i < n
        invariant
            pos <= b@.len(),
            cursor <= b@.len(),
            i <= n,
            acc@.len() == i,
            dec_str(b@.skip(pos as int)) == dec_chars(start, n as nat),
            dec_chars(start, n as nat) == (match dec_chars(
                b@.skip(cursor as int),
                (n - i) as nat,
            ) {
                Some(p) => Some((acc@ + p.0, p.1)),
                None => None::<(Seq<char>, Seq<u8>)>,
            }),
        decreases n - i,
    {
        let ghost cur = b@.skip(cursor as int);
        let ghost left = (n - i) as nat;
        let (x, cursor2) = match decode_u32(b, cursor) {
            Ok(q) => q,
            Err(_) => {
                proof {
                    assert(dec_chars(cur, left) is None);
                }
                return Err(DbError::Deserialization);
            },
        };
        let c = match char::from_u32(x) {
            Some(c) => c,
            None => {
                proof {
                    assert(dec_chars(cur, left) is None);
                }
                return Err(DbError::Deserialization);
            },
        };
        proof {
            assert(dec_char(cur) == Some((c, b@.skip(cursor2 as int))));
        }
        let ghost acc_old = acc@;
        acc.push(c);
        proof {
            let nxt = b@.skip(cursor2 as int);
            let m = (left - 1) as nat;
            match dec_chars(nxt, m) {
                Some(p) => {
                    assert(dec_chars(cur, left) == Some((seq![c] + p.0, p.1)));
                    assert(acc_old + (seq![c] + p.0) =~= acc@ + p.0);
                },
                None => {
                    assert(dec_chars(cur, left) is None);
                },
            }
        }
        cursor = cursor2;
        i = i + 1;
    }
    proof {
        assert(dec_chars(b@.skip(cursor as int), 0) == Some(
            (Seq::<char>::empty(), b@.skip(cursor as int)),
        ));
        assert(acc@ + Seq::<char>::empty() =~= acc@);
    }
    Ok((acc, cursor))
}

} // verus!
