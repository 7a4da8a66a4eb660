//! Metering: credits and usage counters per user.

use crate::principal::Principal;
use crate::vecmap::VecMap;
use vstd::prelude::*;

verus! {

/// The credits of a user and the plan they are on.
#[derive(Debug, PartialEq, Eq)]
pub struct Account {
    pub user: Principal,
    pub credits_nanos: u128,
    pub plan: String,
}

/// What an `Account` holds.
pub struct AccountView {
    pub user: Seq<u8>,
    pub credits_nanos: u128,
    pub plan: Seq<char>,
}

impl View for Account {
    type V = AccountView;

    open spec fn view(&self) -> AccountView {
        AccountView { user: self.user@, credits_nanos: self.credits_nanos, plan: self.plan@ }
    }
}

impl Clone for Account {
    fn clone(&self) -> (c: Self)
        ensures
            c@ == self@,
    {
        Account {
            user: self.user.clone(),
            credits_nanos: self.credits_nanos,
            plan: self.plan.clone(),
        }
    }
}

/// What a user has used so far.
#[derive(Debug, PartialEq, Eq)]
pub struct Usage {
    pub user: Principal,
    pub requests: u64,
    pub egress_bytes: u64,
    pub ingress_bytes: u64,
}

/// What a `Usage` holds.
pub struct UsageView {
    pub user: Seq<u8>,
    pub requests: u64,
    pub egress_bytes: u64,
    pub ingress_bytes: u64,
}

impl View for Usage {
    type V = UsageView;

    open spec fn view(&self) -> UsageView {
        UsageView {
            user: self.user@,
            requests: self.requests,
            egress_bytes: self.egress_bytes,
            ingress_bytes: self.ingress_bytes,
        }
    }
}

impl Clone for Usage {
    fn clone(&self) -> (c: Self)
        ensures
            c@ == self@,
    {
        Usage {
            user: self.user.clone(),
            requests: self.requests,
            egress_bytes: self.egress_bytes,
            ingress_bytes: self.ingress_bytes,
        }
    }
}

/// What the billing service holds.
#[verifier::ext_equal]
pub struct BillingView {
    /// The accounts, by user.
    pub accounts: Map<Seq<u8>, AccountView>,
    /// The usage counters, by user.
    pub usage: Map<Seq<u8>, UsageView>,
}

/// The usage of `user` in `usage`: all zero where nothing was recorded.
pub open spec fn usage_of(usage: Map<Seq<u8>, UsageView>, user: Seq<u8>) -> UsageView {
    if usage.contains_key(user) {
        usage[user]
    } else {
        UsageView { user: user, requests: 0, egress_bytes: 0, ingress_bytes: 0 }
    }
}

/// The account of `user` in `accounts`: one without credits on the
/// `standard` plan where none was opened.
pub open spec fn account_of(accounts: Map<Seq<u8>, AccountView>, user: Seq<u8>) -> AccountView {
    if accounts.contains_key(user) {
        accounts[user]
    } else {
        AccountView { user: user, credits_nanos: 0, plan: "standard"@ }
    }
}

/// The billing service's state.
pub struct Billing {
    accounts: VecMap<Principal, Account>,
    usage: VecMap<Principal, Usage>,
}

impl View for Billing {
    type V = BillingView;

    closed spec fn view(&self) -> BillingView {
        BillingView {
            accounts: self.accounts@.map_values(|a: Account| a@),
            usage: self.usage@.map_values(|u: Usage| u@),
        }
    }
}

impl Billing {
    /// A service without accounts or usage.
    pub fn new() -> (b: Billing)
        ensures
            b@ == (BillingView { accounts: Map::empty(), usage: Map::empty() }),
    {
        let b = Billing { accounts: VecMap::new(), usage: VecMap::new() };
        assert(b@.accounts =~= Map::empty());
        assert(b@.usage =~= Map::empty());
        b
    }

    /// `ok`.
    pub fn health(&self) -> (s: String)
        ensures
            s@ == "ok"@,
    {
        "ok".to_owned()
    }

    /// Adds to the usage counters of `user`. The counters must not overflow.
    pub fn record_usage(&mut self, user: Principal, requests: u64, egress_bytes: u64, ingress_bytes: u64)
        requires
            usage_of(old(self)@.usage, user@).requests + requests <= u64::MAX,
            usage_of(old(self)@.usage, user@).egress_bytes + egress_bytes <= u64::MAX,
            usage_of(old(self)@.usage, user@).ingress_bytes + ingress_bytes <= u64::MAX,
        ensures
            final(self)@ == (BillingView {
                usage: old(self)@.usage.insert(
                    user@,
                    UsageView {
                        requests: (usage_of(old(self)@.usage, user@).requests + requests) as u64,
                        egress_bytes: (usage_of(old(self)@.usage, user@).egress_bytes
                            + egress_bytes) as u64,
                        ingress_bytes: (usage_of(old(self)@.usage, user@).ingress_bytes
                            + ingress_bytes) as u64,
                        ..usage_of(old(self)@.usage, user@)
                    },
                ),
                ..old(self)@
            }),
    {
        let entry = match self.usage.get(&user) {
            Some(held) => Usage {
                user: held.user.clone(),
                requests: held.requests + requests,
                egress_bytes: held.egress_bytes + egress_bytes,
                ingress_bytes: held.ingress_bytes + ingress_bytes,
            },
            None => Usage { user: user.clone(), requests, egress_bytes, ingress_bytes },
        };
        self.usage.insert(user, entry);
        assert(self@.usage =~= old(self)@.usage.insert(user@, entry@));
    }

    /// Adds `credits_nanos` to the credits of `user`, opening an account on
    /// the `standard` plan where there is none. The credits must not
    /// overflow.
    pub fn recharge(&mut self, user: Principal, credits_nanos: u128)
        requires
            account_of(old(self)@.accounts, user@).credits_nanos + credits_nanos <= u128::MAX,
        ensures
            final(self)@ == (BillingView {
                accounts: old(self)@.accounts.insert(
                    user@,
                    AccountView {
                        credits_nanos: (account_of(old(self)@.accounts, user@).credits_nanos
                            + credits_nanos) as u128,
                        ..account_of(old(self)@.accounts, user@)
                    },
                ),
                ..old(self)@
            }),
    {
        let entry = match self.accounts.get(&user) {
            Some(held) => Account {
                user: held.user.clone(),
                credits_nanos: held.credits_nanos + credits_nanos,
                plan: held.plan.clone(),
            },
            None => Account { user: user.clone(), credits_nanos, plan: "standard".to_owned() },
        };
        self.accounts.insert(user, entry);
        assert(self@.accounts =~= old(self)@.accounts.insert(user@, entry@));
    }

    /// The account of `user`, if one was opened.
    pub fn account(&self, user: &Principal) -> (r: Option<Account>)
        ensures
            match r {
                Some(a) => self@.accounts.contains_key(user@) && a@ == self@.accounts[user@],
                None => !self@.accounts.contains_key(user@),
            },
    {
        match self.accounts.get(user) {
            Some(a) => Some(a.clone()),
            None => None,
        }
    }

    /// The usage of `user`, if any was recorded.
    pub fn usage(&self, user: &Principal) -> (r: Option<Usage>)
        ensures
            match r {
                Some(u) => self@.usage.contains_key(user@) && u@ == self@.usage[user@],
                None => !self@.usage.contains_key(user@),
            },
    {
        match self.usage.get(user) {
            Some(u) => Some(u.clone()),
            None => None,
        }
    }
}

} // verus!
