use vstd::prelude::*;

use vstd::string::StringExecFns;

verus! {

/// The name-based (version 5) UUID, in the OID namespace, of the UTF-8
/// bytes of a user name, as a big-endian 128-bit integer.
pub uninterp spec fn offline_uuid_of(name: Seq<char>) -> u128;

/// Relies on `uuid::Uuid::new_v5` with `Uuid::NAMESPACE_OID`: the result
/// depends on the name's bytes alone. `as_u128` reads its 16 bytes
/// big-endian.
#[verifier::external_body]
pub fn offline_uuid(username: &str) -> (r: u128)
    ensures
        r == offline_uuid_of(username@),
{
    uuid::Uuid::new_v5(&uuid::Uuid::NAMESPACE_OID, username.as_bytes()).as_u128()
}

/// A player account: offline, or signed in with a Microsoft account.
#[derive(Clone, Debug)]
pub enum Account {
    Offline { username: String, uuid: u128 },
    Microsoft { username: String, uuid: u128, access_token: String },
}

impl Account {
    /// An offline account whose UUID is derived from its user name.
    pub fn offline(username: &str) -> (r: Self)
        ensures
            r matches Account::Offline { username: u, uuid } && u@ == username@ && uuid == offline_uuid_of(username@),
    {
        let uuid = offline_uuid(username);
        Account::Offline { username: String::from_str(username), uuid }
    }

    /// The account's user name.
    pub fn username(&self) -> (r: &str)
        ensures
            r@ == match self {
                Account::Offline { username, .. } => username@,
                Account::Microsoft { username, .. } => username@,
            },
    {
        match self {
            Account::Offline { username, .. } => username.as_str(),
            Account::Microsoft { username, .. } => username.as_str(),
        }
    }

    /// The account's UUID.
    pub fn uuid(&self) -> (r: u128)
        ensures
            r == match self {
                Account::Offline { uuid, .. } => *uuid,
                Account::Microsoft { uuid, .. } => *uuid,
            },
    {
        match self {
            Account::Offline { uuid, .. } => *uuid,
            Account::Microsoft { uuid, .. } => *uuid,
        }
    }

    /// The access token of a Microsoft account; none for an offline one.
    pub fn access_token(&self) -> (r: Option<&str>)
        ensures
            match self {
                Account::Offline { .. } => r is None,
                Account::Microsoft { access_token, .. } => r is Some && r->Some_0@ == access_token@,
            },
    {
        match self {
            Account::Offline { .. } => None,
            Account::Microsoft { access_token, .. } => Some(access_token.as_str()),
        }
    }

    /// Whether the account is offline.
    pub fn is_offline(&self) -> (r: bool)
        ensures
            r == (*self is Offline),
    {
        match self {
            Account::Offline { .. } => true,
            Account::Microsoft { .. } => false,
        }
    }
}

/// The list of accounts and the index of the selected one.
pub struct AccountManager {
    accounts: Vec<Account>,
    current: Option<usize>,
}

/// The selection after the account at `idx` is removed from a list of
/// `len` accounts: cleared if it was that account, shifted down if it came
/// after it.
pub open spec fn selection_after_remove(current: Option<usize>, idx: usize, len: nat) -> Option<usize> {
    if idx >= len {
        current
    } else {
        match current {
            Some(c) => if c == idx {
                None
            } else if c > idx {
                Some((c - 1) as usize)
            } else {
                Some(c)
            },
            None => None,
        }
    }
}

impl AccountManager {
    /// The accounts, in order of addition.
    pub closed spec fn accounts(&self) -> Seq<Account> {
        self.accounts@
    }

    /// The selected index, if any; it may lie past the end of the list.
    pub closed spec fn selected(&self) -> Option<usize> {
        self.current
    }

    /// No account, none selected.
    pub fn new() -> (r: Self)
        ensures
            r.accounts().len() == 0,
            r.selected() is None,
    {
        AccountManager { accounts: Vec::new(), current: None }
    }

    /// Adds an offline account, selects it and returns its index.
    pub fn add_offline(&mut self, username: &str) -> (r: usize)
        requires
            old(self).accounts().len() < usize::MAX,
        ensures
            r == old(self).accounts().len(),
            final(self).accounts().len() == r + 1,
            final(self).accounts().take(r as int) == old(self).accounts(),
            final(self).accounts()[r as int] matches Account::Offline { username: u, uuid }
                && u@ == username@ && uuid == offline_uuid_of(username@),
            final(self).selected() == Some(r),
    {
        let account = Account::offline(username);
        let idx = self.accounts.len();
        self.accounts.push(account);
        self.current = Some(idx);
        assert(self.accounts@.take(idx as int) =~= old(self).accounts@);
        idx
    }

    /// The selected account, if the selection names one.
    pub fn current(&self) -> (r: Option<&Account>)
        ensures
            match self.selected() {
                Some(i) => if i < self.accounts().len() {
                    r == Some(&self.accounts()[i as int])
                } else {
                    r is None
                },
                None => r is None,
            },
    {
        match self.current {
            Some(i) => if i < self.accounts.len() {
                Some(&self.accounts[i])
            } else {
                None
            },
            None => None,
        }
    }

    /// Sets the selection; any index is accepted.
    pub fn select(&mut self, idx: Option<usize>)
        ensures
            final(self).selected() == idx,
            final(self).accounts() == old(self).accounts(),
    {
        self.current = idx;
    }

    /// All accounts, in order of addition.
    pub fn list(&self) -> (r: &Vec<Account>)
        ensures
            r@ == self.accounts(),
    {
        &self.accounts
    }

    /// Removes the account at `idx`, if there is one, and keeps the
    /// selection on the same account where it still exists.
    pub fn remove(&mut self, idx: usize)
        ensures
            idx < old(self).accounts().len() ==> final(self).accounts() == old(self).accounts().remove(idx as int),
            idx >= old(self).accounts().len() ==> final(self).accounts() == old(self).accounts(),
            final(self).selected() == selection_after_remove(old(self).selected(), idx, old(self).accounts().len()),
    {
        if idx < self.accounts.len() {
            self.accounts.remove(idx);
            if self.current == Some(idx) {
                self.current = None;
            } else if let Some(c) = self.current {
                if c > idx {
                    self.current = Some(c - 1);
                }
            }
        }
    }
}

impl Default for AccountManager {
    fn default() -> (r: Self)
        ensures
            r.accounts().len() == 0,
            r.selected() is None,
    {
        AccountManager::new()
    }
}

} // verus!
