use vstd::prelude::*;

use crate::error::Error;

verus! {

/// Number of bytes in a device address.
pub const ADDRESS_LEN: usize = 6;

/// Number of characters in the canonical text form `XX:XX:XX:XX:XX:XX`.
pub const ADDRESS_TEXT_LEN: usize = 17;

/// A 48-bit Bluetooth device address, most significant byte first.
#[derive(Clone, Copy, Debug, PartialEq, Eq, Hash, Default)]
pub struct BDAddr {
    pub address: [u8; 6],
}

/// Why address text was rejected.
#[derive(Clone, Copy, Debug, PartialEq, Eq, Hash)]
pub enum ParseBDAddrError {
    /// The text does not have the length of six colon-separated byte pairs.
    IncorrectByteCount,
    /// The text has the right length but a non-hex digit or a wrong separator.
    InvalidDigit,
}

/// The upper-case hex digit for a value below 16.
pub open spec fn hex_char(n: u8) -> char {
    if n < 10 {
        ((n + 48) as u8) as char
    } else {
        ((n + 55) as u8) as char
    }
}

/// The value of a hex digit of either case, if `c` is one.
pub open spec fn hex_value(c: char) -> Option<u8> {
    let v = c as u32;
    if 48 <= v <= 57 {
        Some((v - 48) as u8)
    } else if 65 <= v <= 70 {
        Some((v - 55) as u8)
    } else if 97 <= v <= 102 {
        Some((v - 87) as u8)
    } else {
        None
    }
}

/// The canonical text of a six-byte address: two upper-case hex digits per
/// byte, most significant nibble first, bytes separated by `:`.
pub open spec fn canonical_text(a: Seq<u8>) -> Seq<char> {
    Seq::new(
        17,
        |k: int|
            if k % 3 == 2 {
                ':'
            } else if k % 3 == 0 {
                hex_char(a[k / 3] / 16)
            } else {
                hex_char(a[k / 3] % 16)
            },
    )
}

/// Group `i` of address text (two hex digits, then `:` unless it is the last) is well formed.
pub open spec fn group_ok(s: Seq<char>, i: int) -> bool {
    &&& hex_value(s[3 * i]) is Some
    &&& hex_value(s[3 * i + 1]) is Some
    &&& i < 5 ==> s[3 * i + 2] == ':'
}

/// The byte written by group `i` of address text.
pub open spec fn group_value(s: Seq<char>, i: int) -> u8 {
    (16 * hex_value(s[3 * i])->Some_0 + hex_value(s[3 * i + 1])->Some_0) as u8
}

/// Address text is well formed: 17 characters in six groups.
pub open spec fn valid_text(s: Seq<char>) -> bool {
    s.len() == 17 && forall|i: int| 0 <= i < 6 ==> #[trigger] group_ok(s, i)
}

/// The address that well-formed text denotes.
pub open spec fn text_value(s: Seq<char>) -> Seq<u8> {
    Seq::new(6, |i: int| group_value(s, i))
}

fn hex_digit(n: u8) -> (c: char)
    requires
        n < 16,
    ensures
        c == hex_char(n),
{
    if n < 10 {
        (n + 48) as char
    } else {
        (n + 55) as char
    }
}

fn digit_value(c: char) -> (r: Option<u8>)
    ensures
        r == hex_value(c),
{
    let v = c as u32;
    if 48 <= v && v <= 57 {
        Some((v - 48) as u8)
    } else if 65 <= v && v <= 70 {
        Some((v - 55) as u8)
    } else if 97 <= v && v <= 102 {
        Some((v - 87) as u8)
    } else {
        None
    }
}

/// Relies on `String: FromIterator<char>`: the string holds the characters in order.
#[verifier::external_body]
pub(crate) fn string_from_chars(v: &Vec<char>) -> (r: String)
    ensures
        r@ == v@,
{
    v.iter().collect()
}

impl BDAddr {
    /// The address as a sequence of its six bytes.
    pub open spec fn view(&self) -> Seq<u8> {
        self.address@
    }

    /// Builds an address from its six bytes, most significant first.
    pub fn from_bytes(address: [u8; 6]) -> (r: BDAddr)
        ensures
            r@ == address@,
    {
        BDAddr { address }
    }

    /// The six bytes of the address, most significant first.
    pub fn into_inner(self) -> (r: [u8; 6])
        ensures
            r@ == self@,
    {
        self.address
    }

    /// Whether two addresses hold the same bytes.
    pub fn same_as(&self, other: &BDAddr) -> (r: bool)
        ensures
            r == (self@ == other@),
    {
        let mut i: usize = 0;
        while i < ADDRESS_LEN
            invariant
                i <= 6,
                self@.len() == 6,
                other@.len() == 6,
                forall|j: int| 0 <= j < i ==> self@[j] == other@[j],
            decreases 6 - i,
        {
            if self.address[i] != other.address[i] {
                assert(self@[i as int] != other@[i as int]);
                return false;
            }
            i = i + 1;
        }
        assert(self@ =~= other@);
        true
    }

    /// The canonical colon-separated upper-case text of the address.
    pub fn to_string_delim(&self) -> (r: String)
        ensures
            r@ == canonical_text(self@),
    {
        let mut v: Vec<char> = Vec::new();
        let mut k: usize = 0;
        while k < ADDRESS_TEXT_LEN
            invariant
                k <= 17,
                self@.len() == 6,
                v@ =~= canonical_text(self@).take(k as int),
            decreases 17 - k,
        {
            let c = if k % 3 == 2 {
                ':'
            } else if k % 3 == 0 {
                hex_digit(self.address[k / 3] / 16)
            } else {
                hex_digit(self.address[k / 3] % 16)
            };
            v.push(c);
            k = k + 1;
        }
        string_from_chars(&v)
    }

    /// Parses colon-separated hex text (either case) into an address.
    pub fn parse(s: &str) -> (r: Result<BDAddr, ParseBDAddrError>)
        ensures
            s@.len() != 17 <==> r == Err::<BDAddr, _>(ParseBDAddrError::IncorrectByteCount),
            s@.len() == 17 && !valid_text(s@) <==> r == Err::<BDAddr, _>(ParseBDAddrError::InvalidDigit),
            valid_text(s@) <==> r is Ok,
            r is Ok ==> r->Ok_0@ == text_value(s@),
    {
        let n = s.unicode_len();
        if n != ADDRESS_TEXT_LEN {
            return Err(ParseBDAddrError::IncorrectByteCount);
        }
        let mut bytes: Vec<u8> = Vec::new();
        let mut i: usize = 0;
        while i < ADDRESS_LEN
            invariant
                i <= 6,
                s@.len() == 17,
                bytes@.len() == i,
                forall|j: int| 0 <= j < i ==> #[trigger] group_ok(s@, j),
                forall|j: int| 0 <= j < i ==> bytes@[j] == #[trigger] group_value(s@, j),
            decreases 6 - i,
        {
            let hi = digit_value(s.get_char(3 * i));
            let lo = digit_value(s.get_char(3 * i + 1));
            if hi.is_none() || lo.is_none() {
                assert(!group_ok(s@, i as int));
                return Err(ParseBDAddrError::InvalidDigit);
            }
            if i < 5 && s.get_char(3 * i + 2) != ':' {
                assert(!group_ok(s@, i as int));
                return Err(ParseBDAddrError::InvalidDigit);
            }
            let h = hi.unwrap();
            let l = lo.unwrap();
            bytes.push(16 * h + l);
            i = i + 1;
        }
        let a = BDAddr { address: [bytes[0], bytes[1], bytes[2], bytes[3], bytes[4], bytes[5]] };
        assert(a@ =~= text_value(s@));
        Ok(a)
    }

    /// Parses address text, reporting malformed text as `Error::InvalidBDAddr`.
    pub fn from_str_delim(s: &str) -> (r: Result<BDAddr, Error>)
        ensures
            valid_text(s@) <==> r is Ok,
            r is Ok ==> r->Ok_0@ == text_value(s@),
            r is Err ==> r->Err_0 == Error::InvalidBDAddr(
                if s@.len() != 17 {
                    ParseBDAddrError::IncorrectByteCount
                } else {
                    ParseBDAddrError::InvalidDigit
                },
            ),
    {
        match BDAddr::parse(s) {
            Ok(a) => Ok(a),
            Err(e) => Err(Error::InvalidBDAddr(e)),
        }
    }
}

/// Rendering an address and parsing the text gives the address back, and
/// rendering that again reproduces the same canonical text.
pub proof fn lemma_address_text_round_trip(a: BDAddr)
    ensures
        valid_text(canonical_text(a@)),
        text_value(canonical_text(a@)) == a@,
        canonical_text(text_value(canonical_text(a@))) == canonical_text(a@),
{
    let t = canonical_text(a@);
    assert forall|i: int| 0 <= i < 6 implies #[trigger] group_ok(t, i) && group_value(t, i) == a@[i] by {
        let b = a@[i];
        assert(t[3 * i] == hex_char(b / 16));
        assert(t[3 * i + 1] == hex_char(b % 16));
        assert(hex_value(hex_char(b / 16)) == Some(b / 16));
        assert(hex_value(hex_char(b % 16)) == Some(b % 16));
        if i < 5 {
            assert(t[3 * i + 2] == ':');
        }
    }
    assert(text_value(t) =~= a@);
}

} // verus!
