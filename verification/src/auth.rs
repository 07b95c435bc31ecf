//! The ManageSieve authentication exchange: SASL PLAIN credentials,
//! base64-coded through the outside encoder.

use vstd::prelude::*;

use crate::parser::ascii;

verus! {

/// What the base64 encoder returns for a given input: a function of the
/// bytes alone.
pub uninterp spec fn base64_of(s: Seq<u8>) -> Seq<u8>;

/// Relies on `data_encoding::BASE64.encode`: padded standard base64, four
/// output bytes for every three input bytes, a function of the input
/// alone.  `encode` asserts that the input length stays well under
/// `usize::MAX`, so outsized inputs are excluded here.
#[verifier::external_body]
fn base64_encode(b: &[u8]) -> (r: Vec<u8>)
    requires
        b@.len() <= usize::MAX / 512,
    ensures
        r@ == base64_of(b@),
        r@.len() == 4 * ((b@.len() + 2) / 3),
{
    data_encoding::BASE64.encode(b).into_bytes()
}

/// The SASL PLAIN payload: `\0user\0password`.
pub open spec fn sasl_plain(user: Seq<u8>, pass: Seq<u8>) -> Seq<u8> {
    seq![0u8] + user + seq![0u8] + pass
}

/// The ManageSieve login command:
/// `AUTHENTICATE "PLAIN" "<base64 of \0user\0password>"`.
pub open spec fn sieve_auth_bytes(user: Seq<u8>, pass: Seq<u8>) -> Seq<u8> {
    ascii("AUTHENTICATE \"PLAIN\" \""@) + base64_of(sasl_plain(user, pass)) + seq![34u8]
}

/// Build the ManageSieve authentication command.
pub fn sieve_auth_command(user: &[u8], pass: &[u8]) -> (r: Vec<u8>)
    requires
        user@.len() + pass@.len() + 2 <= usize::MAX / 512,
    ensures
        r@ == sieve_auth_bytes(user@, pass@),
{
    proof {
        reveal_strlit("AUTHENTICATE \"PLAIN\" \"");
    }
    let mut payload: Vec<u8> = Vec::new();
    payload.push(0);
    crate::operations::append_bytes(&mut payload, user);
    payload.push(0);
    crate::operations::append_bytes(&mut payload, pass);
    proof {
        assert(payload@ =~= sasl_plain(user@, pass@));
    }
    let coded = base64_encode(payload.as_slice());
    let head: [u8; 22] = [
        65, 85, 84, 72, 69, 78, 84, 73, 67, 65, 84, 69, 32, 34, 80, 76, 65, 73, 78, 34, 32, 34,
    ];
    proof {
        assert(head@ =~= ascii("AUTHENTICATE \"PLAIN\" \""@));
    }
    let mut out: Vec<u8> = Vec::new();
    crate::operations::append_bytes(&mut out, head.as_slice());
    crate::operations::append_bytes(&mut out, coded.as_slice());
    out.push(34);
    proof {
        assert(out@ =~= sieve_auth_bytes(user@, pass@));
    }
    out
}

} // verus!
