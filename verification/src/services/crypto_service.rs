//! Obscuring of stored passwords, and validation of passwords and addresses.
//!
//! A stored secret is the password between the markers `xmail_` and
//! `_secure`, in base64. This hides the password from a casual look; it is
//! no encryption.

use crate::pattern::find_first;
use crate::pattern::search;
use crate::text::chars_of;
use crate::text::ends_with;
use crate::text::starts_with;
use crate::text::string_of;
use vstd::prelude::*;
use vstd::string::StringExecFns;
use vstd::utf8::decode_utf8;
use vstd::utf8::encode_utf8;
use vstd::utf8::valid_utf8;

verus! {

/// The error with which `base64` refuses a text.
#[verifier::external_type_specification]
#[verifier::external_body]
pub struct ExDecodeError(base64::DecodeError);

/// The error with which `String::from_utf8` refuses bytes.
#[verifier::external_type_specification]
#[verifier::external_body]
pub struct ExFromUtf8Error(std::string::FromUtf8Error);

/// The standard base64 encoding of a byte sequence, with padding.
pub uninterp spec fn base64_encoded(bytes: Seq<u8>) -> Seq<char>;

/// The bytes that a text stands for in standard base64 with padding, if it
/// stands for any.
pub uninterp spec fn base64_decoded(text: Seq<char>) -> Option<Seq<u8>>;

/// Encodes with `base64::Engine::encode` of the engine
/// `general_purpose::STANDARD`. The text depends on the bytes alone. The
/// crate refuses an input whose encoding would be too long for `usize`.
#[verifier::external_body]
fn base64_encode(bytes: &[u8]) -> (text: String)
    requires
        bytes@.len() / 3 < usize::MAX / 4,
    ensures
        text@ == base64_encoded(bytes@),
{
    base64::Engine::encode(&base64::engine::general_purpose::STANDARD, bytes)
}

/// Decodes with `base64::Engine::decode` of the engine
/// `general_purpose::STANDARD`. Whether the text is accepted, and the bytes
/// it gives, depend on the text alone. The decoder undoes the encoder of
/// the same engine: a text that `Engine::encode` gave for some bytes is
/// accepted and gives those bytes.
#[verifier::external_body]
fn base64_decode(text: &str) -> (r: Result<Vec<u8>, base64::DecodeError>)
    ensures
        match r {
            Ok(bytes) => base64_decoded(text@) == Some(bytes@),
            Err(_) => base64_decoded(text@) is None,
        },
        forall|bytes: Seq<u8>|
            #![trigger base64_encoded(bytes)]
            bytes.len() / 3 < usize::MAX / 4 && base64_encoded(bytes) == text@ ==> r is Ok
                && r->Ok_0@ == bytes,
{
    base64::Engine::decode(&base64::engine::general_purpose::STANDARD, text)
}

/// `String::from_utf8` accepts exactly the well-formed UTF-8 sequences, and
/// gives the text that they encode.
pub assume_specification[ String::from_utf8 ](bytes: Vec<u8>) -> (r: Result<
    String,
    std::string::FromUtf8Error,
>)
    ensures
        r is Ok <==> valid_utf8(bytes@),
        r matches Ok(s) ==> s@ == decode_utf8(bytes@),
;

/// Why a password, an address or a stored secret was refused.
#[derive(Debug, Clone, Copy, PartialEq, Eq, Structural)]
pub enum CryptoError {
    /// The password, with its markers, is too long to be encoded.
    TooLong,
    /// The stored secret is not base64.
    InvalidEncoding,
    /// The decoded secret is not UTF-8 text.
    InvalidText,
    /// The decoded secret does not stand between the two markers.
    InvalidFormat,
    /// The password is empty.
    EmptyPassword,
    /// The password has fewer than six bytes.
    PasswordTooShort,
    /// The text is not of the shape of an e-mail address.
    InvalidEmail,
}

/// The least number of bytes in a password.
pub const MIN_PASSWORD_BYTES: usize = 6;

/// The shape of an e-mail address: the whole text must have it.
pub const EMAIL_PATTERN: &'static str = "^[a-zA-Z0-9._%+-]+@[a-zA-Z0-9.-]+\\.[a-zA-Z]{2,}$";

/// The marker before the password.
pub open spec fn head_marker() -> Seq<char> {
    "xmail_"@
}

/// The marker after the password.
pub open spec fn tail_marker() -> Seq<char> {
    "_secure"@
}

/// The password between its markers.
pub open spec fn marked(password: Seq<char>) -> Seq<char> {
    head_marker() + password + tail_marker()
}

/// What stands between the markers, where the text begins with the one, ends
/// with the other, and the two do not overlap.
pub open spec fn unmarked(text: Seq<char>) -> Option<Seq<char>> {
    if head_marker().len() + tail_marker().len() <= text.len() && head_marker().is_prefix_of(text)
        && tail_marker().is_suffix_of(text) {
        Some(text.subrange(head_marker().len() as int, text.len() - tail_marker().len()))
    } else {
        None
    }
}

/// Whether the password, with its markers, is short enough to be encoded.
pub open spec fn encodable(password: Seq<char>) -> bool {
    encode_utf8(marked(password)).len() / 3 < usize::MAX / 4
}

/// The stored form of a password.
pub open spec fn encrypted(password: Seq<char>) -> Seq<char> {
    base64_encoded(encode_utf8(marked(password)))
}

/// The password that a stored secret holds, or why it holds none.
pub open spec fn decrypted(secret: Seq<char>) -> Result<Seq<char>, CryptoError> {
    match base64_decoded(secret) {
        None => Err(CryptoError::InvalidEncoding),
        Some(bytes) => if !valid_utf8(bytes) {
            Err(CryptoError::InvalidText)
        } else {
            match unmarked(decode_utf8(bytes)) {
                Some(password) => Ok(password),
                None => Err(CryptoError::InvalidFormat),
            }
        },
    }
}

/// Taking the markers off a marked password gives the password back.
pub proof fn law_markers_come_off(password: Seq<char>)
    ensures
        unmarked(marked(password)) == Some(password),
{
    let text = marked(password);
    let h = head_marker().len() as int;
    let t = tail_marker().len() as int;
    assert(text.take(h) == head_marker());
    assert(text.skip(text.len() - t) == tail_marker());
    assert(text.subrange(h, text.len() - t) == password);
}

/// The service that obscures passwords and validates what a user enters.
pub struct CryptoService;

impl CryptoError {
    /// The error in words.
    pub fn message(&self) -> (text: String)
        ensures
            text@ == match *self {
                CryptoError::TooLong => "密码过长"@,
                CryptoError::InvalidEncoding => "Invalid encrypted password encoding"@,
                CryptoError::InvalidText => "Invalid encrypted password text"@,
                CryptoError::InvalidFormat => "Invalid encrypted password format"@,
                CryptoError::EmptyPassword => "密码不能为空"@,
                CryptoError::PasswordTooShort => "密码长度至少6位"@,
                CryptoError::InvalidEmail => "邮箱格式不正确"@,
            },
    {
        match self {
            CryptoError::TooLong => "密码过长".to_owned(),
            CryptoError::InvalidEncoding => "Invalid encrypted password encoding".to_owned(),
            CryptoError::InvalidText => "Invalid encrypted password text".to_owned(),
            CryptoError::InvalidFormat => "Invalid encrypted password format".to_owned(),
            CryptoError::EmptyPassword => "密码不能为空".to_owned(),
            CryptoError::PasswordTooShort => "密码长度至少6位".to_owned(),
            CryptoError::InvalidEmail => "邮箱格式不正确".to_owned(),
        }
    }
}

impl CryptoService {
    /// The stored form of `password`: the password between its markers, in
    /// base64. Refused only where that text is too long to encode.
    pub fn encrypt_password(password: &str) -> (r: Result<String, CryptoError>)
        ensures
            match r {
                Ok(secret) => secret@ == encrypted(password@),
                Err(e) => e == CryptoError::TooLong,
            },
            r is Err <==> !encodable(password@),
    {
        let mut mixed = String::from_str("xmail_");
        mixed.append(password);
        mixed.append("_secure");
        let bytes = mixed.as_str().as_bytes();
        if bytes.len() / 3 >= usize::MAX / 4 {
            return Err(CryptoError::TooLong);
        }
        Ok(base64_encode(bytes))
    }

    /// The password that the stored `secret` holds. A secret that
    /// `encrypt_password` made of a password holds that password.
    pub fn decrypt_password(secret: &str) -> (r: Result<String, CryptoError>)
        ensures
            match r {
                Ok(password) => decrypted(secret@) == Ok::<Seq<char>, CryptoError>(password@),
                Err(e) => decrypted(secret@) == Err::<Seq<char>, CryptoError>(e),
            },
            forall|password: Seq<char>|
                #![trigger encrypted(password)]
                encodable(password) && encrypted(password) == secret@ ==> r is Ok && r->Ok_0@
                    == password,
    {
        let decoded = base64_decode(secret);
        proof {
            assert forall|password: Seq<char>|
                #![trigger encrypted(password)]
                encodable(password) && encrypted(password) == secret@ implies decrypted(secret@)
                == Ok::<Seq<char>, CryptoError>(password) by {
                let bytes = encode_utf8(marked(password));
                assert(base64_encoded(bytes) == secret@);
                vstd::utf8::encode_utf8_valid_utf8(marked(password));
                vstd::utf8::encode_utf8_decode_utf8(marked(password));
                law_markers_come_off(password);
            }
        }
        let bytes = match decoded {
            Ok(bytes) => bytes,
            Err(_) => {
                return Err(CryptoError::InvalidEncoding);
            },
        };
        let text = match String::from_utf8(bytes) {
            Ok(text) => text,
            Err(_) => {
                return Err(CryptoError::InvalidText);
            },
        };
        let chars = chars_of(text.as_str());
        let head = chars_of("xmail_");
        let tail = chars_of("_secure");
        assert(chars@.subrange(0, chars.len() as int) == chars@);
        if head.len() <= chars.len() && tail.len() <= chars.len() - head.len() && starts_with(
            &chars,
            0,
            chars.len(),
            &head,
        ) && ends_with(&chars, 0, chars.len(), &tail) {
            Ok(string_of(&chars, head.len(), chars.len() - tail.len()))
        } else {
            Err(CryptoError::InvalidFormat)
        }
    }

    /// The password to show for an account: the one that the stored
    /// `secret` holds, or `***` where it holds none.
    pub fn reveal_password(secret: &str) -> (password: String)
        ensures
            password@ == match decrypted(secret@) {
                Ok(plain) => plain,
                Err(_) => "***"@,
            },
    {
        match Self::decrypt_password(secret) {
            Ok(password) => password,
            Err(_) => "***".to_owned(),
        }
    }

    /// Accepts a password of at least six bytes.
    pub fn validate_password(password: &str) -> (r: Result<(), CryptoError>)
        ensures
            r == if password@.len() == 0 {
                Err::<(), CryptoError>(CryptoError::EmptyPassword)
            } else if encode_utf8(password@).len() < MIN_PASSWORD_BYTES {
                Err::<(), CryptoError>(CryptoError::PasswordTooShort)
            } else {
                Ok::<(), CryptoError>(())
            },
    {
        if password.is_empty() {
            return Err(CryptoError::EmptyPassword);
        }
        if password.as_bytes().len() < MIN_PASSWORD_BYTES {
            return Err(CryptoError::PasswordTooShort);
        }
        Ok(())
    }

    /// Accepts a text that, as a whole, has the shape of an e-mail address.
    pub fn validate_email(email: &str) -> (r: Result<(), CryptoError>)
        ensures
            r == if search(EMAIL_PATTERN@, email@) is Some {
                Ok::<(), CryptoError>(())
            } else {
                Err::<(), CryptoError>(CryptoError::InvalidEmail)
            },
    {
        match find_first(EMAIL_PATTERN, email) {
            Some(_) => Ok(()),
            None => Err(CryptoError::InvalidEmail),
        }
    }
}

} // verus!
