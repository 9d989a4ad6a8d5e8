//! Users, their one-time-password state and their password digests.
use vstd::prelude::*;
use crate::accounts::models::{ActiveValue, value_of};
use crate::hashing::{hex_digest, hex_sha512};
use crate::text::{copy_str, push_char};
use crate::utils::{generate_random_string, is_alphanumeric};

verus! {

/// Why a one-time password was issued.
#[derive(Clone, Copy, Debug, PartialEq, Eq)]
pub enum OtpReason {
    Login,
    PasswordReset,
    EmailVerification,
}

impl Default for OtpReason {
    fn default() -> (r: Self)
        ensures
            r == OtpReason::EmailVerification,
    {
        OtpReason::EmailVerification
    }
}

/// A point in time: whole seconds since the Unix epoch and the nanoseconds
/// past that second.
#[derive(Clone, Copy, Debug, PartialEq, Eq)]
pub struct Timestamp {
    pub secs: i64,
    pub nanos: u32,
}

/// A stored user.
#[derive(Debug)]
pub struct Model {
    pub id: i32,
    pub email: String,
    pub otp_reason: OtpReason,
    /// When the one-time password expires.
    pub otp_expiry: Timestamp,
    /// The lowercase hexadecimal SHA-512 digest of `salt` followed by the password.
    pub digest: String,
    pub salt: String,
}

/// A user record being written.
#[derive(Debug)]
pub struct ActiveModel {
    pub id: ActiveValue<i32>,
    pub email: ActiveValue<String>,
    pub otp_reason: ActiveValue<OtpReason>,
    pub otp_expiry: ActiveValue<Timestamp>,
    pub digest: ActiveValue<String>,
    pub salt: ActiveValue<String>,
}

/// The salt made from an address and a random suffix: `"{email}|{suffix}"`.
pub open spec fn salt_text(email: Seq<char>, suffix: Seq<char>) -> Seq<char> {
    email + seq!['|'] + suffix
}

/// The digest stored for `password` under `salt`.
pub open spec fn password_digest(salt: Seq<char>, password: Seq<char>) -> Seq<char> {
    hex_sha512(salt + password)
}

impl Default for ActiveModel {
    fn default() -> (r: Self)
        ensures
            r.id is NotSet,
            r.email is NotSet,
            r.otp_reason is NotSet,
            r.otp_expiry is NotSet,
            r.digest is NotSet,
            r.salt is NotSet,
    {
        ActiveModel {
            id: ActiveValue::NotSet,
            email: ActiveValue::NotSet,
            otp_reason: ActiveValue::NotSet,
            otp_expiry: ActiveValue::NotSet,
            digest: ActiveValue::NotSet,
            salt: ActiveValue::NotSet,
        }
    }
}

impl ActiveModel {
    /// The record written for a new user: only the address is set. The
    /// `password` is not hashed into it; `set_password` does that.
    pub fn create_user(email: &str, password: &str) -> (user: Self)
        ensures
            user.email matches ActiveValue::Assigned(e) && e@ == email@,
            user.id is NotSet,
            user.otp_reason is NotSet,
            user.otp_expiry is NotSet,
            user.digest is NotSet,
            user.salt is NotSet,
    {
        ActiveModel {
            email: ActiveValue::Assigned(copy_str(email)),
            ..Default::default()
        }
    }

    /// Sets the salt to `"{email}|{suffix}"` and the digest to the
    /// hexadecimal SHA-512 of that salt followed by `new_password`.
    pub fn set_password_with_salt(&mut self, new_password: &str, suffix: &str)
        requires
            value_of(old(self).email) is Some,
        ensures
            final(self).id == old(self).id,
            final(self).email == old(self).email,
            final(self).otp_reason == old(self).otp_reason,
            final(self).otp_expiry == old(self).otp_expiry,
            final(self).salt matches ActiveValue::Assigned(s) && s@ == salt_text(value_of(old(self).email)->0@, suffix@),
            final(self).digest matches ActiveValue::Assigned(d)
                && d@ == password_digest(salt_text(value_of(old(self).email)->0@, suffix@), new_password@)
                && d@.len() == 128,
    {
        let mut salt = match &self.email {
            ActiveValue::Assigned(e) => e.clone(),
            ActiveValue::Unchanged(e) => e.clone(),
            ActiveValue::NotSet => {
                assert(false);
                String::new()
            },
        };
        push_char(&mut salt, '|');
        salt.append(suffix);
        let mut text = salt.clone();
        text.append(new_password);
        let digest = hex_digest(text.as_str());
        self.salt = ActiveValue::Assigned(salt);
        self.digest = ActiveValue::Assigned(digest);
    }

    /// Sets a new password under a fresh salt: the address, `'|'` and ten
    /// random letters and digits.
    pub fn set_password(&mut self, new_password: &str)
        requires
            value_of(old(self).email) is Some,
        ensures
            final(self).id == old(self).id,
            final(self).email == old(self).email,
            final(self).otp_reason == old(self).otp_reason,
            final(self).otp_expiry == old(self).otp_expiry,
            exists|suffix: Seq<char>|
                #![trigger salt_text(value_of(old(self).email)->0@, suffix)]
                suffix.len() == 10 && (forall|i: int| 0 <= i < 10 ==> is_alphanumeric(#[trigger] suffix[i]))
                && (final(self).salt matches ActiveValue::Assigned(s) && s@ == salt_text(value_of(old(self).email)->0@, suffix))
                && (final(self).digest matches ActiveValue::Assigned(d)
                    && d@ == password_digest(salt_text(value_of(old(self).email)->0@, suffix), new_password@)
                    && d@.len() == 128),
    {
        let suffix = generate_random_string(10);
        self.set_password_with_salt(new_password, suffix.as_str());
        assert(salt_text(value_of(old(self).email)->0@, suffix@) == salt_text(value_of(old(self).email)->0@, suffix@));
    }
}

impl Model {
    /// Whether the stored digest equals the hexadecimal SHA-512 of the salt
    /// followed by the stored digest itself; `password` is not consulted.
    pub fn check_password(&self, password: &str) -> (ok: bool)
        ensures
            ok == (self.digest@ == password_digest(self.salt@, self.digest@)),
    {
        let mut text = self.salt.clone();
        text.append(self.digest.as_str());
        let expected = hex_digest(text.as_str());
        self.digest == expected
    }
}

} // verus!
