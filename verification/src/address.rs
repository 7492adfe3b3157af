//! Contract addresses: twenty bytes, read from their hexadecimal text by
//! `ethers_core`.

use vstd::prelude::*;

verus! {

/// What `ethers_core` reads from `text` as an address: the twenty bytes
/// when it accepts the text, nothing when it rejects it.
pub uninterp spec fn parsed_address(text: Seq<char>) -> Option<Seq<u8>>;

/// Calls `<ethers_core::types::H160 as core::str::FromStr>::from_str`.
///
/// Trusted: the result is the named value `parsed_address` of the text.
/// The outside function reads the whole text, skips one leading `0x` and
/// the blanks among the digits, and either fills all twenty bytes or
/// reports an error; it does not panic and looks at nothing but its
/// argument.
#[verifier::external_body]
fn h160_from_str(text: &str) -> (bytes: Option<[u8; 20]>)
    ensures
        parsed_address(text@) == match bytes {
            Some(b) => Some(b@),
            None => None,
        },
{
    match text.parse::<ethers_core::types::H160>() {
        Ok(hash) => Some(hash.0),
        Err(_) => None,
    }
}

/// The address of a contract: twenty bytes.
#[derive(Clone, Copy, Debug, PartialEq, Eq)]
pub struct Address {
    bytes: [u8; 20],
}

impl View for Address {
    type V = Seq<u8>;

    closed spec fn view(&self) -> Seq<u8> {
        self.bytes@
    }
}

impl Address {
    /// The address made of the given bytes.
    pub fn from_bytes(bytes: [u8; 20]) -> (address: Address)
        ensures
            address@ == bytes@,
    {
        Address { bytes }
    }

    /// The twenty bytes of the address.
    pub fn bytes(&self) -> (bytes: [u8; 20])
        ensures
            bytes@ == self@,
    {
        self.bytes
    }

    /// The address that an optional byte array stands for.
    pub fn from_parsed(bytes: Option<[u8; 20]>) -> (address: Option<Address>)
        ensures
            bytes is Some <==> address is Some,
            bytes is Some ==> address.unwrap()@ == bytes.unwrap()@,
    {
        match bytes {
            Some(b) => Some(Address::from_bytes(b)),
            None => None,
        }
    }

    /// Reads an address from hexadecimal text, with or without a leading
    /// `0x`. Returns nothing exactly when `ethers_core` rejects the text.
    pub fn parse(text: &str) -> (address: Option<Address>)
        ensures
            address is Some <==> parsed_address(text@) is Some,
            address is Some ==> address.unwrap()@ == parsed_address(text@).unwrap(),
    {
        Address::from_parsed(h160_from_str(text))
    }

    /// Whether two addresses hold the same bytes.
    pub fn same_as(&self, other: &Address) -> (same: bool)
        ensures
            same == (self@ == other@),
    {
        let mut i: usize = 0;
        while i < 20
            invariant
                i <= 20,
                forall|k: int| 0 <= k < i ==> self.bytes@[k] == other.bytes@[k],
            decreases 20 - i,
        {
            if self.bytes[i] != other.bytes[i] {
                return false;
            }
            i = i + 1;
        }
        assert(self.bytes@ =~= other.bytes@);
        true
    }
}

} // verus!
