//! Content addressing: the XOR name of a byte string and its hex form.

use vstd::prelude::*;

verus! {

/// The 32-byte SHA3-256 XOR name of some content.
pub uninterp spec fn xor_name_of(content: Seq<u8>) -> Seq<u8>;

/// Relies on xor_name::XorName::from_content: the 32-byte name of the content,
/// a function of the content alone.
#[verifier::external_body]
pub(crate) fn xor_name(content: &[u8]) -> (r: Vec<u8>)
    ensures
        r@ == xor_name_of(content@),
        r@.len() == 32,
{
    xor_name::XorName::from_content(content).0.to_vec()
}

/// Lower-case hex digit of a value below 16.
pub open spec fn hex_digit(n: u8) -> char {
    seq!['0', '1', '2', '3', '4', '5', '6', '7', '8', '9', 'a', 'b', 'c', 'd', 'e', 'f'][(n % 16) as int]
}

/// Two lower-case hex digits per byte, high nibble first.
pub open spec fn hex_of(b: Seq<u8>) -> Seq<char>
    decreases b.len(),
{
    if b.len() == 0 {
        seq![]
    } else {
        seq![hex_digit(b[0] / 16), hex_digit(b[0] % 16)] + hex_of(b.drop_first())
    }
}

/// Relies on hex::encode: two lower-case hex digits for each byte, in order.
#[verifier::external_body]
pub(crate) fn hex_encode(b: &[u8]) -> (r: String)
    ensures
        r@ == hex_of(b@),
{
    hex::encode(b)
}

/// The storage address of an asset: the XOR name of its id.
#[derive(Clone, Debug, PartialEq, Eq)]
pub struct DbcAddress {
    pub name: Vec<u8>,
}

impl View for DbcAddress {
    type V = Seq<u8>;

    open spec fn view(&self) -> Seq<u8> {
        self.name@
    }
}

impl DbcAddress {
    /// A copy of the address.
    pub fn clone_address(&self) -> (r: DbcAddress)
        ensures
            r@ == self@,
    {
        DbcAddress { name: vstd::slice::slice_to_vec(self.name.as_slice()) }
    }
}

/// The value of one hex digit of either case, given as an ASCII byte.
pub open spec fn hex_value(c: u8) -> Option<u8> {
    if 65 <= c <= 70 {
        Some((c - 55) as u8)
    } else if 97 <= c <= 102 {
        Some((c - 87) as u8)
    } else if 48 <= c <= 57 {
        Some((c - 48) as u8)
    } else {
        None
    }
}

/// The bytes that an even number of hex digits stand for, two per byte.
pub open spec fn hex_decoded(s: Seq<u8>) -> Option<Seq<u8>>
    decreases s.len(),
{
    if s.len() % 2 != 0 {
        None
    } else if s.len() == 0 {
        Some(seq![])
    } else {
        match (hex_value(s[0]), hex_value(s[1]), hex_decoded(s.subrange(2, s.len() as int))) {
            (Some(h), Some(l), Some(rest)) => Some(seq![(h * 16 + l) as u8] + rest),
            _ => None,
        }
    }
}

/// Relies on hex::decode: an even number of hex digits of either case, two
/// per byte with the high nibble first; anything else is refused.
#[verifier::external_body]
pub(crate) fn hex_decode(s: &[u8]) -> (r: Option<Vec<u8>>)
    ensures
        match hex_decoded(s@) {
            Some(b) => r is Some && r->Some_0@ == b,
            None => r is None,
        },
{
    hex::decode(s).ok()
}

/// The address under which spends of the asset `dbc_id` are filed.
pub fn dbc_address(dbc_id: &[u8]) -> (r: DbcAddress)
    ensures
        r@ == xor_name_of(dbc_id@),
        r@.len() == 32,
{
    DbcAddress { name: xor_name(dbc_id) }
}

/// Where the entry for `addr` lies below a ledger's directory: one directory
/// per leading byte of the address (two levels), then the whole address in
/// hex as the file name.
pub fn address_to_filepath(addr: &DbcAddress) -> (r: Vec<String>)
    requires
        addr@.len() == 32,
    ensures
        r@.len() == 3,
        r@[0]@ == hex_of(addr@.subrange(0, 1)),
        r@[1]@ == hex_of(addr@.subrange(1, 2)),
        r@[2]@ == hex_of(addr@),
{
    let name = addr.name.as_slice();
    let mut path: Vec<String> = Vec::new();
    path.push(hex_encode(vstd::slice::slice_subrange(name, 0, 1)));
    path.push(hex_encode(vstd::slice::slice_subrange(name, 1, 2)));
    path.push(hex_encode(name));
    path
}

} // verus!
