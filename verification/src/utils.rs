//! Random tokens and outgoing mail.
use vstd::prelude::*;
use rand::RngExt;
use crate::common::Email;
use crate::text::{copy_str, push_char};

verus! {

/// `c` is an ASCII letter or digit.
pub open spec fn is_alphanumeric(c: char) -> bool {
    ('0' <= c <= '9') || ('a' <= c <= 'z') || ('A' <= c <= 'Z')
}

/// Draws one byte from `rand::distr::Alphanumeric` with the thread-local
/// generator `rand::rng()`. Claimed: the byte is an ASCII letter or digit,
/// which is all that distribution ever returns. Which one it is depends on
/// chance; `rand::rng()` panics if the system source of randomness fails
/// while seeding the generator, which no argument here can rule out.
#[verifier::external_body]
fn sample_alphanumeric() -> (b: u8)
    ensures
        is_alphanumeric(b as char),
{
    rand::rng().sample(rand::distr::Alphanumeric)
}

/// A string of `length` random ASCII letters and digits.
pub fn generate_random_string(length: usize) -> (s: String)
    ensures
        s@.len() == length,
        forall|i: int| 0 <= i < length ==> is_alphanumeric(#[trigger] s@[i]),
{
    let mut s = String::new();
    let mut i: usize = 0;
    while i < length
        invariant
            i <= length,
            s@.len() == i,
            forall|k: int| 0 <= k < i ==> is_alphanumeric(#[trigger] s@[k]),
        decreases length - i,
    {
        let b = sample_alphanumeric();
        push_char(&mut s, b as char);
        i = i + 1;
    }
    s
}

/// Whether `lettre` accepts `s` as an e-mail address.
pub uninterp spec fn lettre_accepts_address(s: Seq<char>) -> bool;

/// Parses `s` as a `lettre::Address` (its `FromStr`) and says whether that
/// succeeded. Claimed: the answer depends on the text alone.
#[verifier::external_body]
fn is_lettre_address(s: &str) -> (ok: bool)
    ensures
        ok == lettre_accepts_address(s@),
{
    s.parse::<lettre::Address>().is_ok()
}

/// A message ready for the SMTP relay.
#[derive(Debug)]
pub struct OutgoingMail {
    /// The relay the message is handed to.
    pub relay: String,
    pub from_name: String,
    pub from_address: String,
    pub to_address: String,
    pub subject: String,
    /// Whether the body is HTML (else plain text).
    pub html: bool,
    pub body: String,
}

/// The message that goes to `receipient`: from `NoBody
/// <nobody@domain.tld>`, through `smtp.gmail.com`, with the given subject
/// and body, marked as HTML or plain text; `None` when `lettre` refuses the
/// sender's or the recipient's address.
pub fn compose_mail(subject: &str, receipient: &Email, message: &str, is_html: bool) -> (m: Option<OutgoingMail>)
    ensures
        m is Some <==> lettre_accepts_address("nobody@domain.tld"@) && lettre_accepts_address(receipient@),
        m matches Some(m) ==> {
            &&& m.relay@ == "smtp.gmail.com"@
            &&& m.from_name@ == "NoBody"@
            &&& m.from_address@ == "nobody@domain.tld"@
            &&& m.to_address@ == receipient@
            &&& m.subject@ == subject@
            &&& m.html == is_html
            &&& m.body@ == message@
        },
{
    let from = "nobody@domain.tld";
    if !is_lettre_address(from) || !is_lettre_address(receipient.as_ref()) {
        return None;
    }
    Some(OutgoingMail {
        relay: copy_str("smtp.gmail.com"),
        from_name: copy_str("NoBody"),
        from_address: copy_str(from),
        to_address: copy_str(receipient.as_ref()),
        subject: copy_str(subject),
        html: is_html,
        body: copy_str(message),
    })
}

} // verus!
