//! Mail providers, accounts and the categories a user may file mail under.

use vstd::prelude::*;

verus! {

/// Host, port and security settings of one mail provider, for fetching
/// (IMAP) and for sending (SMTP).
#[derive(Debug, Clone)]
pub struct EmailProvider {
    pub id: i32,
    pub name: String,
    pub provider_type: String,
    pub imap_server: String,
    pub imap_port: u16,
    pub smtp_server: String,
    pub smtp_port: u16,
    pub use_ssl: bool,
    pub use_tls: bool,
}

/// One mailbox of the user at a provider. `password` holds the secret in the
/// form in which the account was handed over: obscured when it comes from
/// storage, plain when a caller supplies candidate credentials.
#[derive(Debug, Clone)]
pub struct EmailAccount {
    pub id: i32,
    pub provider_id: i32,
    pub email_address: String,
    pub display_name: String,
    pub username: String,
    pub password: String,
    pub is_active: bool,
    pub last_sync: Option<String>,
    pub created_at: String,
}

/// A category under which mail can be filed.
#[derive(Debug, Clone)]
pub struct EmailCategory {
    pub id: i32,
    pub name: String,
    pub color: String,
    pub description: Option<String>,
    pub is_system: bool,
    pub created_at: String,
}

impl EmailProvider {
    /// Whether the provider holds exactly the given settings.
    pub open spec fn is(
        &self,
        id: int,
        name: Seq<char>,
        provider_type: Seq<char>,
        imap_server: Seq<char>,
        imap_port: int,
        smtp_server: Seq<char>,
        smtp_port: int,
        use_ssl: bool,
        use_tls: bool,
    ) -> bool {
        &&& self.id == id
        &&& self.name@ == name
        &&& self.provider_type@ == provider_type
        &&& self.imap_server@ == imap_server
        &&& self.imap_port == imap_port
        &&& self.smtp_server@ == smtp_server
        &&& self.smtp_port == smtp_port
        &&& self.use_ssl == use_ssl
        &&& self.use_tls == use_tls
    }

    fn preset(
        id: i32,
        name: &str,
        provider_type: &str,
        imap_server: &str,
        smtp_server: &str,
        smtp_port: u16,
        use_tls: bool,
    ) -> (p: EmailProvider)
        ensures
            p.is(
                id as int,
                name@,
                provider_type@,
                imap_server@,
                993,
                smtp_server@,
                smtp_port as int,
                true,
                use_tls,
            ),
    {
        EmailProvider {
            id,
            name: name.to_owned(),
            provider_type: provider_type.to_owned(),
            imap_server: imap_server.to_owned(),
            imap_port: 993,
            smtp_server: smtp_server.to_owned(),
            smtp_port,
            use_ssl: true,
            use_tls,
        }
    }

    /// The five providers that are known from the start, in the order of
    /// their identifiers 1 to 5.
    pub fn get_predefined_providers() -> (list: Vec<EmailProvider>)
        ensures
            list@.len() == 5,
            list@[0].is(1, "Gmail"@, "gmail"@, "imap.gmail.com"@, 993, "smtp.gmail.com"@, 587, true, true),
            list@[1].is(2, "QQ邮箱"@, "qq"@, "imap.qq.com"@, 993, "smtp.qq.com"@, 587, true, true),
            list@[2].is(3, "163邮箱"@, "163"@, "imap.163.com"@, 993, "smtp.163.com"@, 994, true, false),
            list@[3].is(4, "126邮箱"@, "126"@, "imap.126.com"@, 993, "smtp.126.com"@, 994, true, false),
            list@[4].is(
                5,
                "Outlook"@,
                "outlook"@,
                "outlook.office365.com"@,
                993,
                "smtp-mail.outlook.com"@,
                587,
                true,
                true,
            ),
    {
        let mut list: Vec<EmailProvider> = Vec::new();
        list.push(Self::preset(1, "Gmail", "gmail", "imap.gmail.com", "smtp.gmail.com", 587, true));
        list.push(Self::preset(2, "QQ邮箱", "qq", "imap.qq.com", "smtp.qq.com", 587, true));
        list.push(Self::preset(3, "163邮箱", "163", "imap.163.com", "smtp.163.com", 994, false));
        list.push(Self::preset(4, "126邮箱", "126", "imap.126.com", "smtp.126.com", 994, false));
        list.push(
            Self::preset(
                5,
                "Outlook",
                "outlook",
                "outlook.office365.com",
                "smtp-mail.outlook.com",
                587,
                true,
            ),
        );
        list
    }
}

} // verus!
