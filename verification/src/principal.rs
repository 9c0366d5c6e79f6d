//! Caller identities: principals of the Internet Computer, held as their
//! raw bytes, with the textual form computed by the `candid` crate.

use candid::Principal;
use vstd::prelude::*;

verus! {

/// The textual form that `candid` gives to a principal made of `bytes`.
pub uninterp spec fn principal_text(bytes: Seq<u8>) -> Seq<char>;

/// The bytes of the principal that `candid` reads from `text`, if it accepts it.
pub uninterp spec fn principal_parse(text: Seq<char>) -> Option<Seq<u8>>;

/// The longest principal, in bytes.
pub const MAX_PRINCIPAL_LEN: usize = 29;

/// The bytes of the identity that stands for "no authenticated caller".
pub open spec fn anonymous_bytes() -> Seq<u8> {
    seq![4u8]
}

/// An identity is usable when it fits in a principal and its textual form
/// reads back as the same bytes.
pub open spec fn valid_identity(bytes: Seq<u8>) -> bool {
    &&& bytes.len() <= MAX_PRINCIPAL_LEN
    &&& principal_parse(principal_text(bytes)) == Some(bytes)
}

/// Calls `candid::Principal::to_text` on the principal built from `bytes`
/// by `Principal::from_slice`. Trusted: the result is the crate's textual
/// form of these bytes, a function of the bytes alone. `from_slice` panics
/// on more than 29 bytes, which the precondition excludes.
#[verifier::external_body]
pub(crate) fn text_of_bytes(bytes: &Vec<u8>) -> (text: String)
    requires
        bytes@.len() <= MAX_PRINCIPAL_LEN,
    ensures
        text@ == principal_text(bytes@),
{
    Principal::from_slice(bytes.as_slice()).to_text()
}

/// Calls `candid::Principal::from_text`. Trusted: the result is `Some` of
/// the parsed principal's bytes exactly when the crate accepts the text,
/// and is a function of the text alone.
#[verifier::external_body]
pub(crate) fn bytes_of_text(text: &str) -> (parsed: Option<Vec<u8>>)
    ensures
        parsed is Some <==> principal_parse(text@) is Some,
        parsed matches Some(b) ==> principal_parse(text@) == Some(b@),
{
    match Principal::from_text(text) {
        Ok(p) => Some(p.as_slice().to_vec()),
        Err(_) => None,
    }
}

/// Calls `candid::Principal::anonymous`. Trusted: the anonymous principal
/// is the single byte 4.
#[verifier::external_body]
pub(crate) fn anonymous_principal() -> (bytes: Vec<u8>)
    ensures
        bytes@ == anonymous_bytes(),
{
    Principal::anonymous().as_slice().to_vec()
}

/// Whether two byte strings are equal.
pub fn bytes_equal(a: &Vec<u8>, b: &Vec<u8>) -> (same: bool)
    ensures
        same == (a@ == b@),
{
    if a.len() != b.len() {
        return false;
    }
    let mut i: usize = 0;
    while i < a.len()
        invariant
            a@.len() == b@.len(),
            i <= a@.len(),
            forall|j: int| 0 <= j < i ==> a@[j] == b@[j],
        decreases a@.len() - i,
    {
        if a[i] != b[i] {
            return false;
        }
        i += 1;
    }
    assert(a@ =~= b@);
    true
}

/// The authenticated identity of a caller: the bytes of its principal.
pub struct Identity {
    bytes: Vec<u8>,
}

impl View for Identity {
    type V = Seq<u8>;

    closed spec fn view(&self) -> Seq<u8> {
        self.bytes@
    }
}

impl Identity {
    #[verifier::type_invariant]
    spec fn inv(self) -> bool {
        valid_identity(self.bytes@)
    }

    /// Makes an identity of `bytes`. It is refused when the bytes do not fit
    /// in a principal, or when their textual form does not read back as
    /// the same bytes.
    pub fn new(bytes: Vec<u8>) -> (made: Option<Identity>)
        ensures
            made is Some <==> valid_identity(bytes@),
            made matches Some(c) ==> c@ == bytes@,
    {
        if bytes.len() > MAX_PRINCIPAL_LEN {
            return None;
        }
        let text = text_of_bytes(&bytes);
        match bytes_of_text(text.as_str()) {
            Some(back) => {
                if bytes_equal(&back, &bytes) {
                    Some(Identity { bytes })
                } else {
                    None
                }
            },
            None => None,
        }
    }

    /// The anonymous identity, which no operation of the store accepts.
    pub fn anonymous() -> (made: Option<Identity>)
        ensures
            made is Some <==> valid_identity(anonymous_bytes()),
            made matches Some(c) ==> c@ == anonymous_bytes(),
    {
        Identity::new(anonymous_principal())
    }

    /// The bytes of the principal.
    pub fn as_bytes(&self) -> (bytes: &Vec<u8>)
        ensures
            bytes@ == self@,
            valid_identity(self@),
    {
        proof {
            use_type_invariant(self);
        }
        &self.bytes
    }

    /// The textual form of the principal, which reads back as its bytes.
    pub fn to_text(&self) -> (text: String)
        ensures
            text@ == principal_text(self@),
            valid_identity(self@),
    {
        proof {
            use_type_invariant(self);
        }
        text_of_bytes(&self.bytes)
    }

    /// Whether this is the anonymous identity.
    pub fn is_anonymous(&self) -> (anonymous: bool)
        ensures
            anonymous == (self@ == anonymous_bytes()),
    {
        let sentinel = anonymous_principal();
        bytes_equal(&self.bytes, &sentinel)
    }
}

/// Lets a caller pass unless it is anonymous.
pub fn not_anonymous(caller: &Identity) -> (verdict: Result<(), String>)
    ensures
        verdict is Err <==> caller@ == anonymous_bytes(),
        verdict matches Err(why) ==> why@ == "You are anonymous"@,
{
    if caller.is_anonymous() {
        return Err("You are anonymous".to_string());
    }
    Ok(())
}

} // verus!
