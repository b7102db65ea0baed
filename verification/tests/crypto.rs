use xmail::services::crypto_service::CryptoError;
use xmail::services::crypto_service::CryptoService;

#[test]
fn test_password_encryption() {
    let password = "test123";
    let encrypted = CryptoService::encrypt_password(password).unwrap();
    let decrypted = CryptoService::decrypt_password(&encrypted).unwrap();
    assert_eq!(password, decrypted);
}

#[test]
fn test_email_validation() {
    assert!(CryptoService::validate_email("test@example.com").is_ok());
    assert!(CryptoService::validate_email("invalid-email").is_err());
}

#[test]
fn test_password_validation() {
    assert!(CryptoService::validate_password("123456").is_ok());
    assert!(CryptoService::validate_password("123").is_err());
    assert!(CryptoService::validate_password("").is_err());
}

#[test]
fn stored_form_is_marked_base64() {
    assert_eq!(CryptoService::encrypt_password("secret").unwrap(), "eG1haWxfc2VjcmV0X3NlY3VyZQ==");
    assert_eq!(CryptoService::encrypt_password("").unwrap(), "eG1haWxfX3NlY3VyZQ==");
    assert_eq!(CryptoService::decrypt_password("eG1haWxfc2VjcmV0X3NlY3VyZQ==").unwrap(), "secret");
    assert_eq!(CryptoService::decrypt_password("eG1haWxfX3NlY3VyZQ==").unwrap(), "");
}

#[test]
fn passwords_of_any_script_round_trip() {
    for password in ["密码🔒", "a_secure", "xmail_", "xmail__secure", " spaces ", "\n"] {
        let secret = CryptoService::encrypt_password(password).unwrap();
        assert_eq!(CryptoService::decrypt_password(&secret).unwrap(), password);
    }
}

#[test]
fn secrets_are_refused_for_their_reason() {
    assert_eq!(CryptoService::decrypt_password("***").unwrap_err(), CryptoError::InvalidEncoding);
    assert_eq!(CryptoService::decrypt_password("eG1haWw").unwrap_err(), CryptoError::InvalidEncoding);
    assert_eq!(CryptoService::decrypt_password("/w==").unwrap_err(), CryptoError::InvalidText);
    assert_eq!(CryptoService::decrypt_password("aGVsbG8=").unwrap_err(), CryptoError::InvalidFormat);
    assert_eq!(CryptoService::decrypt_password("").unwrap_err(), CryptoError::InvalidFormat);
    // "xmail_secure": the two markers overlap
    assert_eq!(CryptoService::decrypt_password("eG1haWxfc2VjdXJl").unwrap_err(), CryptoError::InvalidFormat);
    // "xmail_x_securE"
    assert_eq!(CryptoService::decrypt_password("eG1haWxfeF9zZWN1ckU=").unwrap_err(), CryptoError::InvalidFormat);
}

#[test]
fn password_errors_say_which_rule_failed() {
    assert_eq!(CryptoService::validate_password(""), Err(CryptoError::EmptyPassword));
    assert_eq!(CryptoService::validate_password("12345"), Err(CryptoError::PasswordTooShort));
    assert_eq!(CryptoService::validate_password("密"), Err(CryptoError::PasswordTooShort));
    assert_eq!(CryptoService::validate_password("密码"), Ok(()));
    assert_eq!(CryptoService::validate_password("      "), Ok(()));
    assert_eq!(CryptoError::EmptyPassword.message(), "密码不能为空");
    assert_eq!(CryptoError::PasswordTooShort.message(), "密码长度至少6位");
    assert_eq!(CryptoError::InvalidEmail.message(), "邮箱格式不正确");
    assert_eq!(CryptoError::InvalidFormat.message(), "Invalid encrypted password format");
}

#[test]
fn email_shape_is_checked_on_the_whole_text() {
    assert_eq!(CryptoService::validate_email("a.b+c@mail.example.org"), Ok(()));
    assert_eq!(CryptoService::validate_email("a@b.c"), Err(CryptoError::InvalidEmail));
    assert_eq!(CryptoService::validate_email("x a@b.cd"), Err(CryptoError::InvalidEmail));
    assert_eq!(CryptoService::validate_email("a@b.cd "), Err(CryptoError::InvalidEmail));
    assert_eq!(CryptoService::validate_email(""), Err(CryptoError::InvalidEmail));
}

#[test]
fn a_secret_that_cannot_be_opened_is_masked() {
    assert_eq!(CryptoService::reveal_password("eG1haWxfc2VjcmV0X3NlY3VyZQ=="), "secret");
    assert_eq!(CryptoService::reveal_password("plain"), "***");
}
