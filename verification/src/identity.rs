//! Party identities: account addresses of the settlement network.

use crate::error::PaymentError;
use vstd::prelude::*;
use vstd::std_specs::cmp::PartialEqSpecImpl;
use vstd::string::*;
use vstd::utf8::*;

verus! {

/// The network writes addresses with the capital letters and the digits 2 to 7.
pub open spec fn in_address_alphabet(c: char) -> bool {
    ('A' <= c && c <= 'Z') || ('2' <= c && c <= '7')
}

/// An address is well formed when it is not empty and every character of it
/// belongs to the address alphabet.
pub open spec fn well_formed_identity(text: Seq<char>) -> bool {
    &&& text.len() > 0
    &&& forall|i: int| 0 <= i < text.len() ==> in_address_alphabet(#[trigger] text[i])
}

/// An account of the settlement network, held by its address.
///
/// A value of this type always holds a well-formed address.
#[derive(Debug)]
pub struct PartyIdentity {
    address: String,
}

impl View for PartyIdentity {
    type V = Seq<char>;

    closed spec fn view(&self) -> Seq<char> {
        self.address@
    }
}

impl PartyIdentity {
    #[verifier::type_invariant]
    pub(crate) open spec fn holds_well_formed_address(&self) -> bool {
        well_formed_identity(self@)
    }

    /// Accepts `text` as an address if it is well formed.
    pub fn new(text: &str) -> (r: Result<PartyIdentity, PaymentError>)
        ensures
            r is Ok <==> well_formed_identity(text@),
            r matches Ok(id) ==> id@ == text@,
            r matches Err(e) ==> e == PaymentError::InvalidIdentity,
    {
        if !text.is_ascii() {
            assert(!well_formed_identity(text@)) by {
                if well_formed_identity(text@) {
                    assert forall|i: int| 0 <= i < text@.len() implies '\0' <= #[trigger] text@[i]
                        <= '\u{7f}' by {
                        assert(in_address_alphabet(text@[i]));
                    }
                }
            }
            return Err(PaymentError::InvalidIdentity);
        }
        let bytes = text.as_bytes();
        proof {
            is_ascii_chars_encode_utf8(text@);
        }
        if bytes.len() == 0 {
            return Err(PaymentError::InvalidIdentity);
        }
        let mut i: usize = 0;
        while i < bytes.len()
            invariant
                i <= bytes.len(),
                bytes@.len() == text@.len(),
                forall|k: int| 0 <= k < text@.len() ==> text@[k] as u8 == #[trigger] bytes@[k],
                forall|k: int| 0 <= k < text@.len() ==> '\0' <= #[trigger] text@[k] <= '\u{7f}',
                forall|k: int| 0 <= k < i ==> in_address_alphabet(#[trigger] text@[k]),
            decreases bytes.len() - i,
        {
            let b = bytes[i];
            let letter = 65 <= b && b <= 90;
            let digit = 50 <= b && b <= 55;
            if !(letter || digit) {
                assert(!in_address_alphabet(text@[i as int]));
                return Err(PaymentError::InvalidIdentity);
            }
            assert(in_address_alphabet(text@[i as int]));
            i = i + 1;
        }
        Ok(PartyIdentity { address: text.to_owned() })
    }

    /// The address as text.
    pub fn as_str(&self) -> (text: &str)
        ensures
            text@ == self@,
            well_formed_identity(self@),
    {
        proof {
            use_type_invariant(self);
        }
        self.address.as_str()
    }
}

impl Clone for PartyIdentity {
    fn clone(&self) -> (r: Self)
        ensures
            r@ == self@,
    {
        proof {
            use_type_invariant(self);
        }
        PartyIdentity { address: self.address.clone() }
    }
}

impl PartialEq for PartyIdentity {
    fn eq(&self, other: &Self) -> (r: bool) {
        self.address == other.address
    }
}

impl Eq for PartyIdentity {

}

impl PartialEqSpecImpl for PartyIdentity {
    open spec fn obeys_eq_spec() -> bool {
        true
    }

    open spec fn eq_spec(&self, other: &Self) -> bool {
        self@ == other@
    }
}

} // verus!
