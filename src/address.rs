//! 20-byte account addresses and their hexadecimal text forms.
use vstd::prelude::*;
use crate::error::Web3Error;

verus! {

/// A blank that address text may hold anywhere: space, tab, carriage return, line feed.
pub open spec fn is_blank(c: char) -> bool {
    c == ' ' || c == '\t' || c == '\r' || c == '\n'
}

/// `t` with its blanks removed.
pub open spec fn without_blanks(t: Seq<char>) -> Seq<char>
    decreases t.len(),
{
    if t.len() == 0 {
        t
    } else if is_blank(t.last()) {
        without_blanks(t.drop_last())
    } else {
        without_blanks(t.drop_last()).push(t.last())
    }
}

pub open spec fn is_hex_digit(c: char) -> bool {
    ('0' <= c && c <= '9') || ('a' <= c && c <= 'f') || ('A' <= c && c <= 'F')
}

pub open spec fn hex_value(c: char) -> nat {
    if '0' <= c && c <= '9' {
        (c as int - '0' as int) as nat
    } else if 'a' <= c && c <= 'f' {
        (c as int - 'a' as int + 10) as nat
    } else {
        (c as int - 'A' as int + 10) as nat
    }
}

/// The hexadecimal digits of address text: an optional `0x` prefix dropped, blanks removed.
pub open spec fn address_digits(s: Seq<char>) -> Seq<char> {
    if s.len() >= 2 && s[0] == '0' && s[1] == 'x' {
        without_blanks(s.skip(2))
    } else {
        without_blanks(s)
    }
}

/// The 20 bytes that address text denotes: forty hexadecimal digits of either case, two per
/// byte, high nibble first.
pub open spec fn parse_address_text(s: Seq<char>) -> Option<Seq<u8>> {
    let h = address_digits(s);
    if h.len() == 40 && forall|i: int| 0 <= i < 40 ==> is_hex_digit(#[trigger] h[i]) {
        Some(Seq::new(20, |i: int| (hex_value(h[2 * i]) * 16 + hex_value(h[2 * i + 1])) as u8))
    } else {
        None
    }
}

/// Whether address text holds a blank anywhere.
pub open spec fn has_blank(s: Seq<char>) -> bool {
    exists|i: int| 0 <= i < s.len() && is_blank(#[trigger] s[i])
}

/// The 20 bytes that address text denotes: an optional `0x` prefix, then exactly forty
/// hexadecimal digits of either case and nothing else.
pub open spec fn parse_address(s: Seq<char>) -> Option<Seq<u8>> {
    if has_blank(s) {
        None
    } else {
        parse_address_text(s)
    }
}

/// Nibble `j` of `b`, counting from the high nibble of the first byte.
pub open spec fn nibble(b: Seq<u8>, j: int) -> nat {
    if j % 2 == 0 {
        (b[j / 2] / 16) as nat
    } else {
        (b[j / 2] % 16) as nat
    }
}

/// `s` is `0x` followed by one hexadecimal digit, of either case, for each nibble of `b`.
pub open spec fn is_hex_rendering(b: Seq<u8>, s: Seq<char>) -> bool {
    &&& s.len() == 2 + 2 * b.len()
    &&& s[0] == '0'
    &&& s[1] == 'x'
    &&& forall|j: int|
        0 <= j < 2 * b.len() ==> is_hex_digit(#[trigger] s[2 + j]) && hex_value(s[2 + j])
            == nibble(b, j)
}

/// The checksummed (mixed-case) text of the address with bytes `b`.
pub uninterp spec fn checksum_text(b: Seq<u8>) -> Seq<char>;

/// Relies on `FromStr` for ethers' `Address` (fixed-hash over rustc-hex): an optional `0x`
/// prefix, then exactly forty hexadecimal digits of either case, blanks skipped anywhere.
#[verifier::external_body]
fn parse_address_bytes(s: &str) -> (r: Option<[u8; 20]>)
    ensures
        match r {
            Some(b) => parse_address_text(s@) == Some(b@),
            None => parse_address_text(s@) is None,
        },
{
    s.parse::<ethers::types::Address>().ok().map(|a| a.0)
}

/// Relies on ethers' `utils::to_checksum` (EIP-55, no chain id): `0x` and the address's
/// forty hexadecimal digits, each letter's case set by the address's keccak-256 hash.
#[verifier::external_body]
fn checksum_string(b: &[u8; 20]) -> (r: String)
    ensures
        r@ == checksum_text(b@),
        is_hex_rendering(b@, r@),
{
    ethers::utils::to_checksum(&ethers::types::Address::from(*b), None)
}

proof fn lemma_without_blanks_id(t: Seq<char>)
    requires
        forall|i: int| 0 <= i < t.len() ==> !is_blank(#[trigger] t[i]),
    ensures
        without_blanks(t) == t,
    decreases t.len(),
{
    if t.len() > 0 {
        let t1 = t.drop_last();
        assert forall|i: int| 0 <= i < t1.len() implies !is_blank(#[trigger] t1[i]) by {
            assert(t1[i] == t[i]);
        }
        lemma_without_blanks_id(t1);
        assert(!is_blank(t[t.len() - 1]));
        assert(t1.push(t.last()) =~= t);
    }
}

/// Parsing a hexadecimal rendering of twenty bytes, of whatever letter case, gives back
/// those bytes.
pub proof fn lemma_rendering_parses(b: Seq<u8>, s: Seq<char>)
    requires
        b.len() == 20,
        is_hex_rendering(b, s),
    ensures
        parse_address(s) == Some(b),
{
    let t = s.skip(2);
    assert forall|i: int| 0 <= i < t.len() implies !is_blank(#[trigger] t[i]) by {
        assert(t[i] == s[2 + i]);
        assert(is_hex_digit(s[2 + i]));
    }
    lemma_without_blanks_id(t);
    let h = address_digits(s);
    assert(h == t);
    assert forall|i: int| 0 <= i < 40 implies is_hex_digit(#[trigger] h[i]) by {
        assert(h[i] == s[2 + i]);
    }
    let parsed = Seq::new(20, |i: int| (hex_value(h[2 * i]) * 16 + hex_value(h[2 * i + 1])) as u8);
    assert forall|i: int| 0 <= i < 20 implies parsed[i] == b[i] by {
        assert(h[2 * i] == s[2 + 2 * i]);
        assert(h[2 * i + 1] == s[2 + (2 * i + 1)]);
        assert(hex_value(h[2 * i]) == nibble(b, 2 * i));
        assert(hex_value(h[2 * i + 1]) == nibble(b, 2 * i + 1));
        assert((2 * i) % 2 == 0 && (2 * i) / 2 == i);
        assert((2 * i + 1) % 2 == 1 && (2 * i + 1) / 2 == i);
    }
    assert(parsed =~= b);
    assert(!has_blank(s)) by {
        assert forall|i: int| 0 <= i < s.len() implies !is_blank(#[trigger] s[i]) by {
            if i >= 2 {
                assert(is_hex_digit(s[2 + (i - 2)]));
            }
        }
    }
}

/// A 20-byte account or contract address.
#[derive(Clone, Copy, Debug, PartialEq, Eq)]
pub struct Address {
    pub bytes: [u8; 20],
}

impl View for Address {
    type V = Seq<u8>;

    open spec fn view(&self) -> Seq<u8> {
        self.bytes@
    }
}

impl Address {
    pub fn from_bytes(bytes: [u8; 20]) -> (r: Address)
        ensures
            r@ == bytes@,
    {
        Address { bytes }
    }

    /// Parses address text; rejects anything but forty hexadecimal digits after an optional
    /// `0x`, blanks included, with `InvalidAddress`.
    pub fn parse(s: &str) -> (r: Result<Address, Web3Error>)
        ensures
            match r {
                Ok(a) => parse_address(s@) == Some(a@),
                Err(e) => e == Web3Error::InvalidAddress && parse_address(s@) is None,
            },
    {
        let n = s.unicode_len();
        let mut i: usize = 0;
        while i < n
            invariant
                n == s@.len(),
                i <= n,
                forall|j: int| 0 <= j < i ==> !is_blank(#[trigger] s@[j]),
            decreases n - i,
        {
            let c = s.get_char(i);
            if c == ' ' || c == '\t' || c == '\r' || c == '\n' {
                return Err(Web3Error::InvalidAddress);
            }
            i = i + 1;
        }
        match parse_address_bytes(s) {
            Some(bytes) => Ok(Address { bytes }),
            None => Err(Web3Error::InvalidAddress),
        }
    }

    /// The canonical checksummed text of the address, which parses back to it.
    pub fn to_canonical_string(&self) -> (r: String)
        ensures
            r@ == checksum_text(self@),
            is_hex_rendering(self@, r@),
            parse_address(r@) == Some(self@),
    {
        let r = checksum_string(&self.bytes);
        proof {
            lemma_rendering_parses(self@, r@);
        }
        r
    }
}

} // verus!
