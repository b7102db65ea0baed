//! The decisions of the commands on providers and accounts.

use crate::models::email_provider::EmailAccount;
use crate::models::email_provider::EmailProvider;
use vstd::prelude::*;

verus! {

/// Why a command found nothing to work on.
#[derive(Debug, Clone, Copy, PartialEq, Eq, Structural)]
pub enum LookupError {
    /// No account has the identifier.
    AccountNotFound,
    /// No provider has the identifier.
    ProviderNotFound,
}

impl LookupError {
    /// The error in words.
    pub fn message(&self) -> (text: String)
        ensures
            text@ == match *self {
                LookupError::AccountNotFound => "未找到邮件账户"@,
                LookupError::ProviderNotFound => "未找到邮件服务商"@,
            },
    {
        match self {
            LookupError::AccountNotFound => "未找到邮件账户".to_owned(),
            LookupError::ProviderNotFound => "未找到邮件服务商".to_owned(),
        }
    }
}

/// Position of the first provider with the identifier `id`, or the number
/// of providers.
pub open spec fn provider_index(providers: Seq<EmailProvider>, id: i32) -> int
    decreases providers.len(),
{
    if providers.len() == 0 {
        0
    } else if providers[0].id == id {
        0
    } else {
        1 + provider_index(providers.drop_first(), id)
    }
}

/// Position of the first account with the identifier `id`, or the number of
/// accounts.
pub open spec fn account_index(accounts: Seq<EmailAccount>, id: i32) -> int
    decreases accounts.len(),
{
    if accounts.len() == 0 {
        0
    } else if accounts[0].id == id {
        0
    } else {
        1 + account_index(accounts.drop_first(), id)
    }
}

proof fn lemma_provider_index(providers: Seq<EmailProvider>, id: i32, i: int)
    requires
        0 <= i <= providers.len(),
        forall|j: int| 0 <= j < i ==> providers[j].id != id,
        i < providers.len() ==> providers[i].id == id,
    ensures
        provider_index(providers, id) == i,
    decreases providers.len(),
{
    if providers.len() > 0 && providers[0].id != id {
        let rest = providers.drop_first();
        assert forall|j: int| 0 <= j < i - 1 implies rest[j].id != id by {
            assert(rest[j] == providers[j + 1]);
        }
        if i - 1 < rest.len() {
            assert(rest[i - 1] == providers[i]);
        }
        lemma_provider_index(rest, id, i - 1);
    }
}

proof fn lemma_account_index(accounts: Seq<EmailAccount>, id: i32, i: int)
    requires
        0 <= i <= accounts.len(),
        forall|j: int| 0 <= j < i ==> accounts[j].id != id,
        i < accounts.len() ==> accounts[i].id == id,
    ensures
        account_index(accounts, id) == i,
    decreases accounts.len(),
{
    if accounts.len() > 0 && accounts[0].id != id {
        let rest = accounts.drop_first();
        assert forall|j: int| 0 <= j < i - 1 implies rest[j].id != id by {
            assert(rest[j] == accounts[j + 1]);
        }
        if i - 1 < rest.len() {
            assert(rest[i - 1] == accounts[i]);
        }
        lemma_account_index(rest, id, i - 1);
    }
}

/// The first of the providers with the identifier `id`.
pub fn find_provider(providers: Vec<EmailProvider>, id: i32) -> (r: Result<
    EmailProvider,
    LookupError,
>)
    ensures
        match r {
            Ok(provider) => provider_index(providers@, id) < providers@.len() && provider
                == providers@[provider_index(providers@, id)],
            Err(e) => provider_index(providers@, id) == providers@.len() && e
                == LookupError::ProviderNotFound,
        },
{
    let mut providers = providers;
    let ghost all = providers@;
    let mut i: usize = 0;
    while i < providers.len() && providers[i].id != id
        invariant
            i <= providers.len(),
            providers@ == all,
            forall|j: int| 0 <= j < i ==> all[j].id != id,
        decreases providers.len() - i,
    {
        i += 1;
    }
    proof {
        lemma_provider_index(all, id, i as int);
    }
    if i < providers.len() {
        Ok(providers.swap_remove(i))
    } else {
        Err(LookupError::ProviderNotFound)
    }
}

/// The first of the accounts with the identifier `id`.
pub fn find_account(accounts: Vec<EmailAccount>, id: i32) -> (r: Result<EmailAccount, LookupError>)
    ensures
        match r {
            Ok(account) => account_index(accounts@, id) < accounts@.len() && account
                == accounts@[account_index(accounts@, id)],
            Err(e) => account_index(accounts@, id) == accounts@.len() && e
                == LookupError::AccountNotFound,
        },
{
    let mut accounts = accounts;
    let ghost all = accounts@;
    let mut i: usize = 0;
    while i < accounts.len() && accounts[i].id != id
        invariant
            i <= accounts.len(),
            accounts@ == all,
            forall|j: int| 0 <= j < i ==> all[j].id != id,
        decreases accounts.len() - i,
    {
        i += 1;
    }
    proof {
        lemma_account_index(all, id, i as int);
    }
    if i < accounts.len() {
        Ok(accounts.swap_remove(i))
    } else {
        Err(LookupError::AccountNotFound)
    }
}

/// The account to synchronise and its provider: the account with the
/// identifier `account_id`, and the provider that the account names.
pub fn resolve_account(
    accounts: Vec<EmailAccount>,
    providers: Vec<EmailProvider>,
    account_id: i32,
) -> (r: Result<(EmailProvider, EmailAccount), LookupError>)
    ensures
        match r {
            Ok((provider, account)) => {
                &&& account_index(accounts@, account_id) < accounts@.len()
                &&& account == accounts@[account_index(accounts@, account_id)]
                &&& provider_index(providers@, account.provider_id) < providers@.len()
                &&& provider == providers@[provider_index(providers@, account.provider_id)]
            },
            Err(e) => if account_index(accounts@, account_id) == accounts@.len() {
                e == LookupError::AccountNotFound
            } else {
                &&& e == LookupError::ProviderNotFound
                &&& provider_index(
                    providers@,
                    accounts@[account_index(accounts@, account_id)].provider_id,
                ) == providers@.len()
            },
        },
{
    let account = match find_account(accounts, account_id) {
        Ok(account) => account,
        Err(e) => {
            return Err(e);
        },
    };
    match find_provider(providers, account.provider_id) {
        Ok(provider) => Ok((provider, account)),
        Err(e) => Err(e),
    }
}

/// A new, active account that was never synchronised. The store gives it
/// its identifier.
pub fn new_account(
    provider_id: i32,
    email_address: String,
    display_name: String,
    username: String,
    password: String,
    created_at: String,
) -> (account: EmailAccount)
    ensures
        account == (EmailAccount {
            id: 0,
            provider_id,
            email_address,
            display_name,
            username,
            password,
            is_active: true,
            last_sync: None,
            created_at,
        }),
{
    EmailAccount {
        id: 0,
        provider_id,
        email_address,
        display_name,
        username,
        password,
        is_active: true,
        last_sync: None,
        created_at,
    }
}

/// An account that stands for candidate credentials in a connection test:
/// the user name is its address, and the password is plain.
pub fn test_account(provider_id: i32, username: String, password: String, created_at: String) -> (account:
    EmailAccount)
    ensures
        account.id == 0,
        account.provider_id == provider_id,
        account.email_address == username,
        account.display_name@ == "Test"@,
        account.username == username,
        account.password == password,
        account.is_active,
        account.last_sync is None,
        account.created_at == created_at,
{
    EmailAccount {
        id: 0,
        provider_id,
        email_address: username.clone(),
        display_name: "Test".to_owned(),
        username,
        password,
        is_active: true,
        last_sync: None,
        created_at,
    }
}

} // verus!
