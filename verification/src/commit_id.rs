//! Commit identities: opaque byte strings that are stored, handed on and
//! rendered in hexadecimal.

use jj_lib::object_id::ObjectId;
use vstd::prelude::*;

verus! {

/// The lowercase hexadecimal digit for a value below sixteen.
pub open spec fn hex_digit(nibble: int) -> char {
    if nibble < 10 {
        ('0' as int + nibble) as char
    } else {
        ('a' as int + nibble - 10) as char
    }
}

/// Two lowercase hexadecimal digits for each byte, the high half first.
pub open spec fn hex_text(bytes: Seq<u8>) -> Seq<char> {
    Seq::new(
        2 * bytes.len(),
        |i: int|
            if i % 2 == 0 {
                hex_digit(bytes[i / 2] as int / 16)
            } else {
                hex_digit(bytes[i / 2] as int % 16)
            },
    )
}

/// Renders bytes through `jj_lib`'s `ObjectId::hex` on a
/// `jj_lib::backend::CommitId` made of them. Trusted: that method hands the
/// bytes to `hex::encode`, documented to write each byte as two lowercase
/// hexadecimal digits.
#[verifier::external_body]
fn render_hex(bytes: &Vec<u8>) -> (text: String)
    ensures
        text@ == hex_text(bytes@),
{
    jj_lib::backend::CommitId::from_bytes(bytes).hex()
}

/// The identity of a commit.
#[derive(Debug, PartialEq, Eq, Hash)]
pub struct CommitId {
    bytes: Vec<u8>,
}

impl View for CommitId {
    type V = Seq<u8>;

    closed spec fn view(&self) -> Seq<u8> {
        self.bytes@
    }
}

impl Clone for CommitId {
    fn clone(&self) -> (copy: Self)
        ensures
            copy@ == self@,
    {
        let bytes = self.bytes.clone();
        assert(bytes@ =~= self.bytes@);
        CommitId { bytes }
    }
}

impl CommitId {
    /// The identity made of `bytes`.
    pub fn new(bytes: Vec<u8>) -> (id: Self)
        ensures
            id@ == bytes@,
    {
        CommitId { bytes }
    }

    /// The bytes of this identity.
    pub fn as_bytes(&self) -> (bytes: &Vec<u8>)
        ensures
            bytes@ == self@,
    {
        &self.bytes
    }

    /// A copy of the bytes of this identity.
    pub fn to_bytes(&self) -> (bytes: Vec<u8>)
        ensures
            bytes@ == self@,
    {
        let bytes = self.bytes.clone();
        assert(bytes@ =~= self.bytes@);
        bytes
    }

    /// This identity in lowercase hexadecimal.
    pub fn hex(&self) -> (text: String)
        ensures
            text@ == hex_text(self@),
    {
        render_hex(&self.bytes)
    }
}

} // verus!
