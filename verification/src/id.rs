//! The identifier of a stored reading: twenty bytes, a 32-bit count of seconds
//! followed by 128 random bits, and its canonical text of 27 base-62 digits.

use crate::radix::{be_value, first_less_at, in_base, lemma_value_bound, lemma_value_order, lex_less, power};
use vstd::prelude::*;
use vstd::utf8::{decode_utf8, valid_utf8};

verus! {

/// Number of bytes in an identifier.
pub const ID_LEN: usize = 20;

/// Number of characters in the canonical text of an identifier.
pub const TEXT_LEN: usize = 27;

/// The place of `c` in the alphabet `0-9A-Za-z`, or -1 where it is not in it.
pub open spec fn digit_of(c: char) -> int {
    if '0' <= c && c <= '9' {
        c as int - 48
    } else if 'A' <= c && c <= 'Z' {
        c as int - 55
    } else if 'a' <= c && c <= 'z' {
        c as int - 61
    } else {
        -1
    }
}

/// `c` is one of the 62 characters `0-9A-Za-z`.
pub open spec fn is_base62(c: char) -> bool {
    digit_of(c) >= 0
}

/// Every character of `s` is in the alphabet.
pub open spec fn all_base62(s: Seq<char>) -> bool {
    forall|i: int| 0 <= i < s.len() ==> is_base62(#[trigger] s[i])
}

/// The base-62 digits that the characters of `s` stand for.
pub open spec fn digits(s: Seq<char>) -> Seq<int> {
    Seq::new(s.len(), |i: int| digit_of(s[i]))
}

/// The code points of `s`.
pub open spec fn codes(s: Seq<char>) -> Seq<int> {
    Seq::new(s.len(), |i: int| s[i] as int)
}

/// The bytes of `b` as base-256 digits.
pub open spec fn byte_ints(b: Seq<u8>) -> Seq<int> {
    Seq::new(b.len(), |i: int| b[i] as int)
}

/// The number that `s` denotes, read as a big-endian base-62 numeral.
pub open spec fn text_value(s: Seq<char>) -> int {
    be_value(digits(s), 62)
}

/// The number that `b` denotes, read as a big-endian base-256 numeral.
pub open spec fn bytes_value(b: Seq<u8>) -> int {
    be_value(byte_ints(b), 256)
}

/// The seconds count held in the first four bytes of `b`.
pub open spec fn timestamp_of(b: Seq<u8>) -> int {
    bytes_value(b.subrange(0, 4))
}

/// `s` is canonical text: 27 characters of the alphabet whose number fits in 160 bits.
pub open spec fn decodable(s: Seq<char>) -> bool {
    &&& s.len() == TEXT_LEN
    &&& all_base62(s)
    &&& text_value(s) < power(256, ID_LEN as nat)
}

/// `s` is the canonical text of the identifier bytes `b`.
pub open spec fn is_encoding(s: Seq<char>, b: Seq<u8>) -> bool {
    &&& s.len() == TEXT_LEN
    &&& all_base62(s)
    &&& text_value(s) == bytes_value(b)
}

/// `s` comes before `t` when the two are compared character by character.
pub open spec fn text_less(s: Seq<char>, t: Seq<char>) -> bool {
    lex_less(codes(s), codes(t))
}

/// Why a stored or received identifier was not accepted.
#[derive(Clone, Copy, Debug, PartialEq, Eq, Structural)]
pub enum DecodeError {
    /// The stored bytes are not UTF-8 text.
    NotUtf8,
    /// The text is not the canonical text of any identifier.
    Malformed,
}

/// A sortable unique identifier.
#[derive(Clone, Copy, Debug, PartialEq, Eq)]
pub struct Id {
    bytes: [u8; 20],
}

impl View for Id {
    type V = Seq<u8>;

    closed spec fn view(&self) -> Seq<u8> {
        self.bytes@
    }
}

/// What `decode` owes for the text `s`: the identifier that `s` is the text
/// of, or `Malformed` where `s` is the text of none.
pub open spec fn is_decoding(s: Seq<char>, r: Result<Id, DecodeError>) -> bool {
    match r {
        Ok(id) => decodable(s) && is_encoding(s, id@),
        Err(e) => !decodable(s) && e == DecodeError::Malformed,
    }
}

/// What `from_column_bytes` owes for the stored bytes `b`.
pub open spec fn is_column_decoding(b: Seq<u8>, r: Result<Id, DecodeError>) -> bool {
    if valid_utf8(b) {
        is_decoding(decode_utf8(b), r)
    } else {
        r == Err::<Id, DecodeError>(DecodeError::NotUtf8)
    }
}

/// `ksuid::Ksuid::generate`: a fresh identifier from the clock and the
/// thread's random generator, handed out as its twenty bytes. Nothing is
/// claimed of the bytes.
#[verifier::external_body]
fn ksuid_generate() -> (out: [u8; 20]) {
    let k = ksuid::Ksuid::generate();
    let mut out = [0u8; 20];
    out.copy_from_slice(k.as_bytes());
    out
}

/// `ksuid::Ksuid::to_base62` on the identifier with the given bytes: 27
/// characters of `0-9A-Za-z` that denote, as a base-62 numeral, the number
/// that the bytes denote in base 256.
#[verifier::external_body]
fn ksuid_to_base62(bytes: &[u8; 20]) -> (s: String)
    ensures
        is_encoding(s@, bytes@),
{
    ksuid::Ksuid::from_bytes(bytes).unwrap().to_base62()
}

/// The error with which `ksuid` refuses a text.
#[verifier::external_type_specification]
#[verifier::external_body]
pub struct ExIoError(std::io::Error);

/// The error with which std refuses bytes that are not UTF-8.
#[verifier::external_type_specification]
#[verifier::external_body]
pub struct ExUtf8Error(core::str::Utf8Error);

/// `ksuid::Ksuid::from_base62`: accepts exactly the texts of 27 characters of
/// `0-9A-Za-z` that do not exceed the text of the largest identifier, and
/// returns the bytes that denote the same number.
#[verifier::external_body]
fn ksuid_from_base62(s: &str) -> (r: Result<[u8; 20], std::io::Error>)
    ensures
        r is Ok <==> decodable(s@),
        r matches Ok(b) ==> is_encoding(s@, b@),
{
    let k = ksuid::Ksuid::from_base62(s)?;
    let mut out = [0u8; 20];
    out.copy_from_slice(k.as_bytes());
    Ok(out)
}

/// `core::str::from_utf8`: the text that the bytes spell, where they are valid UTF-8.
#[verifier::external_body]
fn utf8_text(bytes: &[u8]) -> (r: Result<&str, core::str::Utf8Error>)
    ensures
        r is Ok <==> valid_utf8(bytes@),
        r matches Ok(s) ==> s@ == decode_utf8(bytes@),
{
    core::str::from_utf8(bytes)
}

impl Id {
    /// The seconds count of the identifier, from the custom epoch.
    pub open spec fn spec_timestamp(&self) -> int {
        timestamp_of(self@)
    }

    /// Mints a fresh identifier from the current time and 128 random bits.
    pub fn new() -> (id: Id)
        ensures
            id@.len() == ID_LEN,
    {
        Id { bytes: ksuid_generate() }
    }

    /// The identifier with the given bytes.
    pub fn from_bytes(bytes: [u8; 20]) -> (id: Id)
        ensures
            id@ == bytes@,
    {
        Id { bytes }
    }

    /// The twenty bytes of the identifier.
    pub fn as_bytes(&self) -> (out: [u8; 20])
        ensures
            out@ == self@,
    {
        self.bytes
    }

    /// The seconds count of the identifier, from the custom epoch.
    pub fn timestamp(&self) -> (t: u32)
        ensures
            t == self.spec_timestamp(),
    {
        let b0: u32 = self.bytes[0] as u32;
        let b1: u32 = self.bytes[1] as u32;
        let b2: u32 = self.bytes[2] as u32;
        let b3: u32 = self.bytes[3] as u32;
        proof {
            let h = byte_ints(self@.subrange(0, 4));
            reveal_with_fuel(be_value, 5);
            assert(h.len() == 4 && h[0] == b0 && h[1] == b1 && h[2] == b2 && h[3] == b3);
            assert(be_value(h, 256) == ((b0 * 256 + b1) * 256 + b2) * 256 + b3);
        }
        ((b0 * 256 + b1) * 256 + b2) * 256 + b3
    }

    /// The canonical text of the identifier.
    pub fn encode(&self) -> (s: String)
        ensures
            s@.len() == TEXT_LEN,
            all_base62(s@),
            is_encoding(s@, self@),
    {
        ksuid_to_base62(&self.bytes)
    }

    /// The identifier that `s` is the canonical text of.
    pub fn decode(s: &str) -> (r: Result<Id, DecodeError>)
        ensures
            is_decoding(s@, r),
    {
        match ksuid_from_base62(s) {
            Ok(bytes) => Ok(Id { bytes }),
            Err(_) => Err(DecodeError::Malformed),
        }
    }

    /// The identifier as it is stored in a byte column: the bytes of its canonical text.
    pub fn to_column_bytes(&self) -> (out: Vec<u8>)
        ensures
            valid_utf8(out@),
            is_encoding(decode_utf8(out@), self@),
    {
        broadcast use vstd::utf8::encode_utf8_valid_utf8, vstd::utf8::encode_utf8_decode_utf8;

        let s = self.encode();
        s.as_str().as_bytes_vec()
    }

    /// Reads an identifier back from a byte column.
    pub fn from_column_bytes(bytes: &[u8]) -> (r: Result<Id, DecodeError>)
        ensures
            is_column_decoding(bytes@, r),
    {
        match utf8_text(bytes) {
            Ok(s) => Id::decode(s),
            Err(_) => Err(DecodeError::NotUtf8),
        }
    }

    /// Every identifier is twenty bytes long.
    pub proof fn law_twenty_bytes(self)
        ensures
            self@.len() == ID_LEN,
    {
    }

    /// Two identifiers with the same bytes are the same identifier.
    pub proof fn lemma_same_bytes(self, other: Id)
        requires
            self@ == other@,
        ensures
            self == other,
    {
        assert(self.bytes =~= other.bytes);
    }
}

/// The digits of a text over the alphabet are base-62 digits.
pub proof fn lemma_digits_in_base(s: Seq<char>)
    requires
        all_base62(s),
    ensures
        in_base(digits(s), 62),
{
    assert forall|i: int| 0 <= i < digits(s).len() implies 0 <= #[trigger] digits(s)[i] < 62 by {
        assert(is_base62(s[i]));
    }
}

/// Bytes are base-256 digits.
pub proof fn lemma_bytes_in_base(b: Seq<u8>)
    ensures
        in_base(byte_ints(b), 256),
{
}

/// An identifier has exactly one canonical text.
pub proof fn law_one_encoding(b: Seq<u8>, s: Seq<char>, t: Seq<char>)
    requires
        is_encoding(s, b),
        is_encoding(t, b),
    ensures
        s == t,
{
    lemma_digits_in_base(s);
    lemma_digits_in_base(t);
    lemma_value_order(digits(s), digits(t), 62);
    assert forall|i: int| 0 <= i < s.len() implies s[i] == t[i] by {
        assert(digits(s)[i] == digits(t)[i]);
        assert(is_base62(s[i]) && is_base62(t[i]));
    }
    assert(s =~= t);
}

/// Decoding the canonical text of an identifier gives that identifier back.
pub proof fn law_round_trip(id: Id, s: Seq<char>, r: Result<Id, DecodeError>)
    requires
        is_encoding(s, id@),
        is_decoding(s, r),
    ensures
        r == Ok::<Id, DecodeError>(id),
{
    lemma_bytes_in_base(id@);
    lemma_value_bound(byte_ints(id@), 256);
    assert(decodable(s));
    let back = r->Ok_0;
    lemma_bytes_in_base(back@);
    lemma_value_order(byte_ints(id@), byte_ints(back@), 256);
    assert forall|i: int| 0 <= i < 20 implies id@[i] == back@[i] by {
        assert(byte_ints(id@)[i] == byte_ints(back@)[i]);
    }
    assert(id@ =~= back@);
    back.lemma_same_bytes(id);
}

/// Text of another length than 27, or with a character outside the alphabet,
/// decodes to no identifier.
pub proof fn law_decode_rejects(s: Seq<char>, r: Result<Id, DecodeError>)
    requires
        is_decoding(s, r),
        s.len() != TEXT_LEN || !all_base62(s),
    ensures
        r == Err::<Id, DecodeError>(DecodeError::Malformed),
{
}

/// Of two identifiers, the one with the earlier seconds count comes first,
/// both when their bytes are compared and when their canonical texts are.
pub proof fn law_later_sorts_after(a: Id, b: Id, sa: Seq<char>, sb: Seq<char>)
    requires
        is_encoding(sa, a@),
        is_encoding(sb, b@),
        a.spec_timestamp() < b.spec_timestamp(),
    ensures
        lex_less(byte_ints(a@), byte_ints(b@)),
        text_less(sa, sb),
{
    let ha = byte_ints(a@.subrange(0, 4));
    let hb = byte_ints(b@.subrange(0, 4));
    let fa = byte_ints(a@);
    let fb = byte_ints(b@);
    lemma_bytes_in_base(a@.subrange(0, 4));
    lemma_bytes_in_base(b@.subrange(0, 4));
    lemma_value_order(ha, hb, 256);
    let k = choose|k: int| first_less_at(ha, hb, k);
    assert(first_less_at(fa, fb, k)) by {
        assert(ha[k] == fa[k] && hb[k] == fb[k]);
        assert forall|j: int| 0 <= j < k implies #[trigger] fa[j] == fb[j] by {
            assert(ha[j] == fa[j] && hb[j] == fb[j]);
        }
    }
    lemma_bytes_in_base(a@);
    lemma_bytes_in_base(b@);
    lemma_value_order(fa, fb, 256);
    let da = digits(sa);
    let db = digits(sb);
    lemma_digits_in_base(sa);
    lemma_digits_in_base(sb);
    lemma_value_order(da, db, 62);
    let m = choose|m: int| first_less_at(da, db, m);
    assert(first_less_at(codes(sa), codes(sb), m)) by {
        assert(is_base62(sa[m]) && is_base62(sb[m]));
        assert forall|j: int| 0 <= j < m implies #[trigger] codes(sa)[j] == codes(sb)[j] by {
            assert(da[j] == db[j]);
            assert(is_base62(sa[j]) && is_base62(sb[j]));
        }
    }
}

} // verus!
