//! An in-memory account store: accounts by id, a routing table from
//! address prefixes to accounts, and lookup by HTTP or BTP credentials.
//! The maps are association lists whose keys stay unique.

use vstd::prelude::*;

verus! {

/// One stored account.
#[derive(Debug, Clone, PartialEq, Eq)]
pub struct Account {
    /// The store-assigned identifier.
    pub id: u64,
    /// The account's ILP address bytes.
    pub ilp_address: Vec<u8>,
    /// Further address prefixes routed to this account.
    pub additional_routes: Vec<Vec<u8>>,
    /// The account's asset code.
    pub asset_code: String,
    /// The account's asset scale.
    pub asset_scale: u8,
    /// The token peers present over BTP, when one is set.
    pub btp_incoming_token: Option<String>,
    /// The username peers present over BTP, when one is set.
    pub btp_incoming_username: Option<String>,
    /// The authorization header value for HTTP, when one is set.
    pub http_incoming_authorization: Option<String>,
}

impl Account {
    /// The account's identifier.
    pub fn get_id(&self) -> (r: u64)
        ensures
            r == self.id,
    {
        self.id
    }

    /// A fresh copy of the account.
    pub fn clone_account(&self) -> (r: Account)
        ensures
            r.id == self.id,
            r.ilp_address@ == self.ilp_address@,
            r.additional_routes@.len() == self.additional_routes@.len(),
            forall|i: int|
                0 <= i < self.additional_routes@.len() ==> #[trigger] r.additional_routes@[i]@
                    == self.additional_routes@[i]@,
            r.asset_code == self.asset_code,
            r.asset_scale == self.asset_scale,
            r.btp_incoming_token == self.btp_incoming_token,
            r.btp_incoming_username == self.btp_incoming_username,
            r.http_incoming_authorization == self.http_incoming_authorization,
            account_like(r, *self),
    {
        Account {
            id: self.id,
            ilp_address: crate::copy_bytes(&self.ilp_address),
            additional_routes: copy_routes(&self.additional_routes),
            asset_code: self.asset_code.clone(),
            asset_scale: self.asset_scale,
            btp_incoming_token: clone_opt_string(&self.btp_incoming_token),
            btp_incoming_username: clone_opt_string(&self.btp_incoming_username),
            http_incoming_authorization: clone_opt_string(&self.http_incoming_authorization),
        }
    }
}

/// A fresh copy of an optional string.
fn clone_opt_string(v: &Option<String>) -> (r: Option<String>)
    ensures
        r == *v,
{
    match v {
        Some(s) => Some(s.clone()),
        None => None,
    }
}

/// A fresh copy of a route list.
fn copy_routes(v: &Vec<Vec<u8>>) -> (r: Vec<Vec<u8>>)
    ensures
        r@.len() == v@.len(),
        forall|i: int| 0 <= i < v@.len() ==> #[trigger] r@[i]@ == v@[i]@,
{
    let mut out: Vec<Vec<u8>> = Vec::new();
    let mut i: usize = 0;
    while i < v.len()
        invariant
            i <= v@.len(),
            out@.len() == i,
            forall|j: int| 0 <= j < i ==> #[trigger] out@[j]@ == v@[j]@,
        decreases v@.len() - i,
    {
        out.push(crate::copy_bytes(&v[i]));
        i = i + 1;
    }
    out
}

/// A builder assembling one account, field by field.
pub struct AccountBuilder {
    /// The account being assembled.
    pub account: Account,
}

impl AccountBuilder {
    /// A builder for an account with empty details and id zero.
    pub fn new() -> (r: AccountBuilder)
        ensures
            r.account.id == 0,
            r.account.btp_incoming_token is None,
            r.account.btp_incoming_username is None,
            r.account.http_incoming_authorization is None,
            r.account.ilp_address@ == Seq::<u8>::empty(),
            r.account.additional_routes@.len() == 0,
    {
        AccountBuilder {
            account: Account {
                id: 0,
                ilp_address: Vec::new(),
                additional_routes: Vec::new(),
                asset_code: String::new(),
                asset_scale: 0,
                btp_incoming_token: None,
                btp_incoming_username: None,
                http_incoming_authorization: None,
            },
        }
    }

    /// Sets the identifier.
    pub fn id(self, id: u64) -> (r: AccountBuilder)
        ensures
            r.account == (Account { id, ..self.account }),
    {
        let mut account = self.account;
        account.id = id;
        AccountBuilder { account }
    }

    /// Sets the ILP address bytes.
    pub fn ilp_address(self, ilp_address: Vec<u8>) -> (r: AccountBuilder)
        ensures
            r.account == (Account { ilp_address, ..self.account }),
    {
        let mut account = self.account;
        account.ilp_address = ilp_address;
        AccountBuilder { account }
    }

    /// Sets the asset code.
    pub fn asset_code(self, asset_code: String) -> (r: AccountBuilder)
        ensures
            r.account == (Account { asset_code, ..self.account }),
    {
        let mut account = self.account;
        account.asset_code = asset_code;
        AccountBuilder { account }
    }

    /// Sets the asset scale.
    pub fn asset_scale(self, asset_scale: u8) -> (r: AccountBuilder)
        ensures
            r.account == (Account { asset_scale, ..self.account }),
    {
        let mut account = self.account;
        account.asset_scale = asset_scale;
        AccountBuilder { account }
    }

    /// Sets the incoming BTP token.
    pub fn btp_incoming_token(self, token: String) -> (r: AccountBuilder)
        ensures
            r.account == (Account { btp_incoming_token: Some(token), ..self.account }),
    {
        let mut account = self.account;
        account.btp_incoming_token = Some(token);
        AccountBuilder { account }
    }

    /// Sets the incoming BTP username.
    pub fn btp_incoming_username(self, username: Option<String>) -> (r: AccountBuilder)
        ensures
            r.account == (Account { btp_incoming_username: username, ..self.account }),
    {
        let mut account = self.account;
        account.btp_incoming_username = username;
        AccountBuilder { account }
    }

    /// Sets the incoming HTTP authorization value.
    pub fn http_incoming_authorization(self, auth: String) -> (r: AccountBuilder)
        ensures
            r.account == (Account { http_incoming_authorization: Some(auth), ..self.account }),
    {
        let mut account = self.account;
        account.http_incoming_authorization = Some(auth);
        AccountBuilder { account }
    }

    /// The assembled account.
    pub fn build(self) -> (r: Account)
        ensures
            r == self.account,
    {
        self.account
    }
}

/// Do two account values hold the same data?
pub open spec fn account_like(a: Account, b: Account) -> bool {
    &&& a.id == b.id
    &&& a.ilp_address@ == b.ilp_address@
    &&& a.additional_routes@.len() == b.additional_routes@.len()
    &&& (forall|i: int|
        0 <= i < a.additional_routes@.len() ==> #[trigger] a.additional_routes@[i]@
            == b.additional_routes@[i]@)
    &&& a.asset_code == b.asset_code
    &&& a.asset_scale == b.asset_scale
    &&& a.btp_incoming_token == b.btp_incoming_token
    &&& a.btp_incoming_username == b.btp_incoming_username
    &&& a.http_incoming_authorization == b.http_incoming_authorization
}

/// Does the list hold an account with this id?
pub open spec fn has_id(accounts: Seq<Account>, id: u64) -> bool {
    exists|i: int| 0 <= i < accounts.len() && (#[trigger] accounts[i]).id == id
}

/// The last account in the list with this id; which one only matters
/// when some account has it.
pub open spec fn latest_with_id(accounts: Seq<Account>, id: u64) -> Account
    decreases accounts.len(),
{
    if accounts.len() == 0 {
        choose|a: Account| #[trigger] a.id >= 0
    } else if accounts.last().id == id {
        accounts.last()
    } else {
        latest_with_id(accounts.drop_last(), id)
    }
}

/// One more identifier than the largest assignable id in the list;
/// zero when none is assignable.
pub open spec fn max_next_id(accounts: Seq<Account>) -> u64
    decreases accounts.len(),
{
    if accounts.len() == 0 {
        0
    } else {
        let rest = max_next_id(accounts.drop_last());
        let a = accounts.last();
        if a.id < u64::MAX && a.id + 1 > rest {
            (a.id + 1) as u64
        } else {
            rest
        }
    }
}

/// Does the table route these address bytes to this id?
pub open spec fn routed_to(table: Seq<(Vec<u8>, u64)>, address: Seq<u8>, id: u64) -> bool {
    exists|k: int| 0 <= k < table.len() && (#[trigger] table[k]).0@ == address && table[k].1 == id
}

/// How one more input account changes the latest-by-id view.
proof fn lemma_latest_snoc(accounts: Seq<Account>, i: int, id: u64)
    requires
        0 <= i < accounts.len(),
    ensures
        latest_with_id(accounts.take(i + 1), id) == (if accounts[i].id == id {
            accounts[i]
        } else {
            latest_with_id(accounts.take(i), id)
        }),
        has_id(accounts.take(i + 1), id) == (accounts[i].id == id || has_id(
            accounts.take(i),
            id,
        )),
{
    let t1 = accounts.take(i + 1);
    let t0 = accounts.take(i);
    assert(t1.drop_last() =~= t0);
    assert(t1.last() == accounts[i]);
    if accounts[i].id == id {
        assert(t1[i].id == id);
        assert(has_id(t1, id));
    }
    if has_id(t0, id) {
        let w = choose|w: int| 0 <= w < t0.len() && (#[trigger] t0[w]).id == id;
        assert(t1[w].id == id);
        assert(has_id(t1, id));
    }
    if has_id(t1, id) && accounts[i].id != id {
        let w = choose|w: int| 0 <= w < t1.len() && (#[trigger] t1[w]).id == id;
        assert(w != i);
        assert(t0[w].id == id);
        assert(has_id(t0, id));
    }
}

/// Sameness of account data carries over.
proof fn lemma_account_like_trans(a: Account, b: Account, c: Account)
    requires
        account_like(a, b),
        account_like(b, c),
    ensures
        account_like(a, c),
{
    assert forall|i: int| 0 <= i < a.additional_routes@.len() implies #[trigger] a.additional_routes@[i]@ == c.additional_routes@[i]@ by {
        assert(a.additional_routes@[i]@ == b.additional_routes@[i]@);
    }
}

/// Two pointwise-same lists have pointwise-same latest entries.
proof fn lemma_latest_like(a: Seq<Account>, b: Seq<Account>, id: u64)
    requires
        a.len() == b.len(),
        forall|x: int| 0 <= x < a.len() ==> account_like(#[trigger] a[x], b[x]),
        has_id(a, id),
    ensures
        account_like(latest_with_id(a, id), latest_with_id(b, id)),
    decreases a.len(),
{
    if a.len() == 0 {
    } else {
        assert(account_like(a.last(), b.last())) by {
            assert(account_like(a[a.len() - 1], b[a.len() - 1]));
        }
        if a.last().id == id {
            assert(b.last().id == id);
        } else {
            assert(b.last().id != id);
            assert(has_id(a.drop_last(), id)) by {
                let w = choose|w: int| 0 <= w < a.len() && (#[trigger] a[w]).id == id;
                assert(w != a.len() - 1);
                assert(a.drop_last()[w].id == id);
            }
            assert(forall|x: int|
                0 <= x < a.drop_last().len() ==> account_like(
                    #[trigger] a.drop_last()[x],
                    b.drop_last()[x],
                ));
            lemma_latest_like(a.drop_last(), b.drop_last(), id);
        }
    }
}

/// Membership by id survives appending an account.
proof fn lemma_has_id_push(accounts: Seq<Account>, a: Account, id: u64)
    requires
        has_id(accounts, id) || a.id == id,
    ensures
        has_id(accounts.push(a), id),
{
    if a.id == id {
        assert(accounts.push(a)[accounts.len() as int].id == id);
    } else {
        let w = choose|w: int| 0 <= w < accounts.len() && (#[trigger] accounts[w]).id == id;
        assert(accounts.push(a)[w].id == id);
    }
}

/// Membership by id survives replacing an account by one of its id.
proof fn lemma_has_id_update(accounts: Seq<Account>, f: int, a: Account, id: u64)
    requires
        0 <= f < accounts.len(),
        accounts[f].id == a.id,
        has_id(accounts, id),
    ensures
        has_id(accounts.update(f, a), id),
{
    let w = choose|w: int| 0 <= w < accounts.len() && (#[trigger] accounts[w]).id == id;
    if w == f {
        assert(accounts.update(f, a)[f].id == id);
    } else {
        assert(accounts.update(f, a)[w].id == id);
    }
}

/// A route survives appending a table entry.
proof fn lemma_routed_push(table: Seq<(Vec<u8>, u64)>, e: (Vec<u8>, u64), address: Seq<u8>, id: u64)
    requires
        routed_to(table, address, id) || (e.0@ == address && e.1 == id),
    ensures
        routed_to(table.push(e), address, id),
{
    if e.0@ == address && e.1 == id {
        assert(table.push(e)[table.len() as int].0@ == address);
    } else {
        let k = choose|k: int|
            0 <= k < table.len() && (#[trigger] table[k]).0@ == address && table[k].1 == id;
        assert(table.push(e)[k].0@ == address);
    }
}

/// Does the store hold an account with exactly this content?
pub open spec fn stored_like(accounts: Seq<Account>, a: Account) -> bool {
    exists|j: int| 0 <= j < accounts.len() && #[trigger] account_like(accounts[j], a)
}

/// Does a BTP credential pair match an account's?
pub open spec fn btp_matches(a: Account, token: Seq<char>, username: Option<Seq<char>>) -> bool {
    &&& a.btp_incoming_token matches Some(t) && t@ == token
    &&& match (a.btp_incoming_username, username) {
        (Some(u), Some(w)) => u@ == w,
        (None, None) => true,
        _ => false,
    }
}

/// An in-memory store of accounts, their routes and credentials.
pub struct InMemoryStore {
    accounts: Vec<Account>,
    routing_table: Vec<(Vec<u8>, u64)>,
    next_account_id: u64,
}

impl InMemoryStore {
    /// The stored accounts.
    pub closed spec fn spec_accounts(&self) -> Seq<Account> {
        self.accounts@
    }

    /// The routing table: address bytes to account id.
    pub closed spec fn spec_routing_table(&self) -> Seq<(Vec<u8>, u64)> {
        self.routing_table@
    }

    /// The next identifier to assign.
    pub closed spec fn spec_next_account_id(&self) -> u64 {
        self.next_account_id
    }

    /// Account identifiers are unique and below the next to assign.
    pub open spec fn wf(&self) -> bool {
        &&& forall|i: int, j: int|
            0 <= i < j < self.spec_accounts().len() ==> #[trigger] self.spec_accounts()[i].id
                != #[trigger] self.spec_accounts()[j].id
        &&& forall|i: int|
            0 <= i < self.spec_accounts().len() ==> #[trigger] self.spec_accounts()[i].id
                < self.spec_next_account_id()
    }

    /// A store of the accounts the builders assemble, as
    /// `from_accounts` would hold them: of builders sharing an id the
    /// last wins, and each stored account holds that builder's data.
    pub fn new(accounts: Vec<AccountBuilder>) -> (r: InMemoryStore)
        ensures
            r.wf(),
            r.spec_accounts().len() <= accounts@.len(),
            forall|i: int|
                0 <= i < accounts@.len() && (#[trigger] accounts@[i]).account.id < u64::MAX
                    ==> has_id(r.spec_accounts(), accounts@[i].account.id),
            forall|j: int|
                0 <= j < r.spec_accounts().len() ==> (exists|i: int|
                    0 <= i < accounts@.len() && (#[trigger] accounts@[i]).account.id == (
                    #[trigger] r.spec_accounts()[j]).id),
            forall|j: int|
                0 <= j < r.spec_accounts().len() ==> account_like(
                    #[trigger] r.spec_accounts()[j],
                    latest_with_id(
                        accounts@.map_values(|b: AccountBuilder| b.account),
                        r.spec_accounts()[j].id,
                    ),
                ),
    {
        let mut built: Vec<Account> = Vec::new();
        let mut i: usize = 0;
        while i < accounts.len()
            invariant
                i <= accounts@.len(),
                built@.len() == i,
                forall|x: int|
                    0 <= x < i ==> #[trigger] built@[x].id == accounts@[x].account.id,
                forall|x: int|
                    0 <= x < i ==> account_like(#[trigger] built@[x], accounts@[x].account),
            decreases accounts@.len() - i,
        {
            built.push(accounts[i].account.clone_account());
            i = i + 1;
        }
        let store = InMemoryStore::from_accounts(built);
        proof {
            let mapped = accounts@.map_values(|b: AccountBuilder| b.account);
            assert forall|i: int|
                0 <= i < accounts@.len() && (#[trigger] accounts@[i]).account.id
                    < u64::MAX implies has_id(store.spec_accounts(), accounts@[i].account.id) by {
                assert(built@[i].id == accounts@[i].account.id);
            }
            assert forall|j: int| 0 <= j < store.spec_accounts().len() implies (exists|i: int|
                0 <= i < accounts@.len() && (#[trigger] accounts@[i]).account.id == (
                #[trigger] store.spec_accounts()[j]).id) by {
                assert(has_id(built@, store.spec_accounts()[j].id));
                let w = choose|w: int|
                    0 <= w < built@.len() && (#[trigger] built@[w]).id == store.spec_accounts()[
                        j
                    ].id;
                assert(accounts@[w].account.id == store.spec_accounts()[j].id);
            }
            assert forall|j: int| 0 <= j < store.spec_accounts().len() implies account_like(
                #[trigger] store.spec_accounts()[j],
                latest_with_id(mapped, store.spec_accounts()[j].id),
            ) by {
                let id = store.spec_accounts()[j].id;
                assert(forall|x: int|
                    0 <= x < built@.len() ==> account_like(#[trigger] built@[x], mapped[x]));
                lemma_latest_like(built@, mapped, id);
                lemma_account_like_trans(
                    store.spec_accounts()[j],
                    latest_with_id(built@, id),
                    latest_with_id(mapped, id),
                );
            }
        }
        store
    }

    /// An empty store.
    pub fn default() -> (r: InMemoryStore)
        ensures
            r.wf(),
            r.spec_accounts().len() == 0,
            r.spec_next_account_id() == 1,
    {
        let none: Vec<Account> = Vec::new();
        proof {
            assert(none@ =~= Seq::<Account>::empty());
        }
        InMemoryStore::from_accounts(none)
    }

    /// A store of the given accounts, as a map keyed by id would hold
    /// them: of accounts sharing an id the last wins; an account with
    /// the largest possible id is left out, so one more id can always
    /// be assigned; the routing table maps each kept account's address
    /// and additional routes to its id; and the next identifier is one
    /// past the largest kept id — one, when there is none.
    pub fn from_accounts(accounts: Vec<Account>) -> (r: InMemoryStore)
        ensures
            r.wf(),
            r.spec_accounts().len() <= accounts@.len(),
            r.spec_next_account_id() == (if max_next_id(accounts@) == 0 {
                1u64
            } else {
                max_next_id(accounts@)
            }),
            forall|i: int|
                0 <= i < accounts@.len() && (#[trigger] accounts@[i]).id < u64::MAX ==> has_id(
                    r.spec_accounts(),
                    accounts@[i].id,
                ),
            forall|j: int|
                0 <= j < r.spec_accounts().len() ==> {
                    &&& (#[trigger] r.spec_accounts()[j]).id < u64::MAX
                    &&& has_id(accounts@, r.spec_accounts()[j].id)
                    &&& account_like(
                        r.spec_accounts()[j],
                        latest_with_id(accounts@, r.spec_accounts()[j].id),
                    )
                },
            forall|j: int|
                0 <= j < r.spec_accounts().len() ==> routed_to(
                    r.spec_routing_table(),
                    (#[trigger] r.spec_accounts()[j]).ilp_address@,
                    r.spec_accounts()[j].id,
                ),
            forall|j: int, m: int|
                0 <= j < r.spec_accounts().len() && 0 <= m < r.spec_accounts()[
                    j
                ].additional_routes@.len() ==> routed_to(
                    r.spec_routing_table(),
                    (#[trigger] r.spec_accounts()[j].additional_routes@[m])@,
                    r.spec_accounts()[j].id,
                ),
            forall|k: int|
                0 <= k < r.spec_routing_table().len() ==> has_id(
                    r.spec_accounts(),
                    (#[trigger] r.spec_routing_table()[k]).1,
                ),
    {
        let mut kept: Vec<Account> = Vec::new();
        let mut next_account_id: u64 = 0;
        let mut i: usize = 0;
        while i < accounts.len()
            invariant
                i <= accounts@.len(),
                kept@.len() <= i,
                next_account_id == max_next_id(accounts@.take(i as int)),
                forall|x: int, y: int|
                    0 <= x < y < kept@.len() ==> #[trigger] kept@[x].id != #[trigger] kept@[y].id,
                forall|x: int| 0 <= x < kept@.len() ==> #[trigger] kept@[x].id < next_account_id,
                forall|x: int| 0 <= x < kept@.len() ==> #[trigger] kept@[x].id < u64::MAX,
                forall|x: int|
                    0 <= x < i && (#[trigger] accounts@[x]).id < u64::MAX ==> has_id(
                        kept@,
                        accounts@[x].id,
                    ),
                forall|x: int|
                    0 <= x < kept@.len() ==> has_id(
                        accounts@.take(i as int),
                        (#[trigger] kept@[x]).id,
                    ),
                forall|x: int|
                    0 <= x < kept@.len() ==> account_like(
                        #[trigger] kept@[x],
                        latest_with_id(accounts@.take(i as int), kept@[x].id),
                    ),
            decreases accounts@.len() - i,
        {
            let ghost kept_before = kept@;
            let ghost next_before = next_account_id;
            let account = accounts[i].clone_account();
            proof {
                assert(accounts@.take(i + 1).drop_last() =~= accounts@.take(i as int));
                assert(accounts@.take(i + 1).last() == accounts@[i as int]);
            }
            if account.id < u64::MAX {
                let mut found_at: Option<usize> = None;
                let mut k: usize = 0;
                while k < kept.len()
                    invariant
                        k <= kept@.len(),
                        i < accounts@.len(),
                        account.id == accounts@[i as int].id,
                        match found_at {
                            Some(f) => f < k && kept@[f as int].id == account.id,
                            None => forall|x: int|
                                0 <= x < k ==> #[trigger] kept@[x].id != account.id,
                        },
                    decreases kept@.len() - k,
                {
                    if kept[k].get_id() == account.id {
                        found_at = Some(k);
                    }
                    k = k + 1;
                }
                match found_at {
                    Some(f) => {
                        kept.set(f, account);
                        proof {
                            assert(kept@ =~= kept_before.update(f as int, kept@[f as int]));
                            assert(accounts@[i as int].id + 1 <= next_account_id);
                            assert forall|x: int|
                                0 <= x < i && (#[trigger] accounts@[x]).id
                                    < u64::MAX implies has_id(kept@, accounts@[x].id) by {
                                lemma_has_id_update(
                                    kept_before,
                                    f as int,
                                    kept@[f as int],
                                    accounts@[x].id,
                                );
                            }
                            assert(has_id(kept@, accounts@[i as int].id)) by {
                                assert(kept@[f as int].id == accounts@[i as int].id);
                            }
                            assert forall|x: int| 0 <= x < kept@.len() implies has_id(
                                accounts@.take(i + 1),
                                (#[trigger] kept@[x]).id,
                            ) && account_like(
                                kept@[x],
                                latest_with_id(accounts@.take(i + 1), kept@[x].id),
                            ) by {
                                lemma_latest_snoc(accounts@, i as int, kept@[x].id);
                                if x != f {
                                    assert(kept@[x] == kept_before[x]);
                                    assert(kept_before[x].id != kept_before[f as int].id);
                                }
                            }
                        }
                    },
                    None => {
                        if account.id >= next_account_id {
                            next_account_id = account.id + 1;
                        }
                        kept.push(account);
                        proof {
                            assert(kept@ =~= kept_before.push(kept@.last()));
                            assert forall|x: int|
                                0 <= x < i && (#[trigger] accounts@[x]).id
                                    < u64::MAX implies has_id(kept@, accounts@[x].id) by {
                                lemma_has_id_push(kept_before, kept@.last(), accounts@[x].id);
                            }
                            assert(has_id(kept@, accounts@[i as int].id)) by {
                                assert(kept@[kept@.len() - 1].id == accounts@[i as int].id);
                            }
                            assert forall|x: int| 0 <= x < kept@.len() implies has_id(
                                accounts@.take(i + 1),
                                (#[trigger] kept@[x]).id,
                            ) && account_like(
                                kept@[x],
                                latest_with_id(accounts@.take(i + 1), kept@[x].id),
                            ) by {
                                lemma_latest_snoc(accounts@, i as int, kept@[x].id);
                                if x < kept_before.len() {
                                    assert(kept@[x] == kept_before[x]);
                                    assert(kept_before[x].id != accounts@[i as int].id);
                                }
                            }
                        }
                    },
                }
            } else {
                proof {
                    assert forall|x: int| 0 <= x < kept@.len() implies has_id(
                        accounts@.take(i + 1),
                        (#[trigger] kept@[x]).id,
                    ) && account_like(
                        kept@[x],
                        latest_with_id(accounts@.take(i + 1), kept@[x].id),
                    ) by {
                        lemma_latest_snoc(accounts@, i as int, kept@[x].id);
                    }
                }
            }
            i = i + 1;
        }
        proof {
            assert(accounts@.take(accounts@.len() as int) =~= accounts@);
        }
        let next_account_id = if next_account_id == 0 {
            1u64
        } else {
            next_account_id
        };
        let mut routing_table: Vec<(Vec<u8>, u64)> = Vec::new();
        let mut i2: usize = 0;
        while i2 < kept.len()
            invariant
                i2 <= kept@.len(),
                forall|j: int|
                    0 <= j < i2 ==> routed_to(
                        routing_table@,
                        (#[trigger] kept@[j]).ilp_address@,
                        kept@[j].id,
                    ),
                forall|j: int, m: int|
                    0 <= j < i2 && 0 <= m < kept@[j].additional_routes@.len() ==> routed_to(
                        routing_table@,
                        (#[trigger] kept@[j].additional_routes@[m])@,
                        kept@[j].id,
                    ),
                forall|k: int|
                    0 <= k < routing_table@.len() ==> has_id(
                        kept@,
                        (#[trigger] routing_table@[k]).1,
                    ),
            decreases kept@.len() - i2,
        {
            let ghost table_before = routing_table@;
            let id = kept[i2].get_id();
            routing_table.push((crate::copy_bytes(&kept[i2].ilp_address), id));
            proof {
                assert(routing_table@ =~= table_before.push(routing_table@.last()));
                assert(routed_to(routing_table@, kept@[i2 as int].ilp_address@, id)) by {
                    assert(routing_table@[routing_table@.len() - 1].0@ == kept@[
                        i2 as int
                    ].ilp_address@);
                }
                assert forall|j: int| 0 <= j < i2 implies routed_to(
                    routing_table@,
                    (#[trigger] kept@[j]).ilp_address@,
                    kept@[j].id,
                ) by {
                    lemma_routed_push(
                        table_before,
                        routing_table@.last(),
                        kept@[j].ilp_address@,
                        kept@[j].id,
                    );
                }
                assert forall|j: int, m: int|
                    0 <= j < i2 && 0 <= m < kept@[j].additional_routes@.len() implies routed_to(
                    routing_table@,
                    (#[trigger] kept@[j].additional_routes@[m])@,
                    kept@[j].id,
                ) by {
                    lemma_routed_push(
                        table_before,
                        routing_table@.last(),
                        kept@[j].additional_routes@[m]@,
                        kept@[j].id,
                    );
                }
                assert(has_id(kept@, id)) by {
                    assert(kept@[i2 as int].id == id);
                }
            }
            let mut k: usize = 0;
            while k < kept[i2].additional_routes.len()
                invariant
                    i2 < kept@.len(),
                    k <= kept@[i2 as int].additional_routes@.len(),
                    id == kept@[i2 as int].id,
                    routed_to(routing_table@, kept@[i2 as int].ilp_address@, id),
                    forall|j: int|
                        0 <= j < i2 ==> routed_to(
                            routing_table@,
                            (#[trigger] kept@[j]).ilp_address@,
                            kept@[j].id,
                        ),
                    forall|j: int, m: int|
                        0 <= j < i2 && 0 <= m < kept@[j].additional_routes@.len() ==> routed_to(
                            routing_table@,
                            (#[trigger] kept@[j].additional_routes@[m])@,
                            kept@[j].id,
                        ),
                    forall|m: int|
                        0 <= m < k ==> routed_to(
                            routing_table@,
                            (#[trigger] kept@[i2 as int].additional_routes@[m])@,
                            id,
                        ),
                    forall|kk: int|
                        0 <= kk < routing_table@.len() ==> has_id(
                            kept@,
                            (#[trigger] routing_table@[kk]).1,
                        ),
                decreases kept@[i2 as int].additional_routes@.len() - k,
            {
                let ghost table_before2 = routing_table@;
                routing_table.push((crate::copy_bytes(&kept[i2].additional_routes[k]), id));
                proof {
                    assert(routing_table@ =~= table_before2.push(routing_table@.last()));
                    lemma_routed_push(
                        table_before2,
                        routing_table@.last(),
                        kept@[i2 as int].ilp_address@,
                        id,
                    );
                    assert(routed_to(
                        routing_table@,
                        kept@[i2 as int].additional_routes@[k as int]@,
                        id,
                    )) by {
                        assert(routing_table@[routing_table@.len() - 1].0@ == kept@[
                            i2 as int
                        ].additional_routes@[k as int]@);
                    }
                    assert forall|j: int| 0 <= j < i2 implies routed_to(
                        routing_table@,
                        (#[trigger] kept@[j]).ilp_address@,
                        kept@[j].id,
                    ) by {
                        lemma_routed_push(
                            table_before2,
                            routing_table@.last(),
                            kept@[j].ilp_address@,
                            kept@[j].id,
                        );
                    }
                    assert forall|j: int, m: int|
                        0 <= j < i2 && 0 <= m < kept@[
                        j
                    ].additional_routes@.len() implies routed_to(
                        routing_table@,
                        (#[trigger] kept@[j].additional_routes@[m])@,
                        kept@[j].id,
                    ) by {
                        lemma_routed_push(
                            table_before2,
                            routing_table@.last(),
                            kept@[j].additional_routes@[m]@,
                            kept@[j].id,
                        );
                    }
                    assert forall|m: int| 0 <= m < k + 1 implies routed_to(
                        routing_table@,
                        (#[trigger] kept@[i2 as int].additional_routes@[m])@,
                        id,
                    ) by {
                        if m < k {
                            lemma_routed_push(
                                table_before2,
                                routing_table@.last(),
                                kept@[i2 as int].additional_routes@[m]@,
                                id,
                            );
                        }
                    }
                    assert(has_id(kept@, id)) by {
                        assert(kept@[i2 as int].id == id);
                    }
                }
                k = k + 1;
            }
            i2 = i2 + 1;
        }
        InMemoryStore { accounts: kept, routing_table, next_account_id }
    }

    /// The accounts with the given ids, in order; an unknown id fails
    /// the whole lookup.
    pub fn get_accounts(&self, account_ids: Vec<u64>) -> (r: Result<Vec<Account>, ()>)
        ensures
            r matches Ok(found) ==> found@.len() == account_ids@.len() && (forall|i: int|
                0 <= i < found@.len() ==> #[trigger] found@[i].id == account_ids@[i]) && (forall|
                i: int,
            |
                0 <= i < found@.len() ==> stored_like(
                    self.spec_accounts(),
                    #[trigger] found@[i],
                )) && (forall|i: int|
                0 <= i < account_ids@.len() ==> has_id(
                    self.spec_accounts(),
                    #[trigger] account_ids@[i],
                )),
            r is Err ==> (exists|i: int|
                0 <= i < account_ids@.len() && (forall|j: int|
                    0 <= j < self.spec_accounts().len()
                        ==> #[trigger] self.spec_accounts()[j].id != #[trigger] account_ids@[i])),
    {
        let mut found: Vec<Account> = Vec::new();
        let mut i: usize = 0;
        while i < account_ids.len()
            invariant
                i <= account_ids@.len(),
                found@.len() == i,
                forall|x: int| 0 <= x < i ==> #[trigger] found@[x].id == account_ids@[x],
                forall|x: int|
                    0 <= x < i ==> stored_like(self.spec_accounts(), #[trigger] found@[x]),
                forall|x: int|
                    0 <= x < i ==> has_id(self.spec_accounts(), #[trigger] account_ids@[x]),
            decreases account_ids@.len() - i,
        {
            match self.lookup_by_id(account_ids[i]) {
                Some(account) => {
                    found.push(account);
                },
                None => {
                    return Err(());
                },
            }
            i = i + 1;
        }
        Ok(found)
    }

    /// The account with the given id, if the store holds one: a copy
    /// of the stored account itself.
    fn lookup_by_id(&self, id: u64) -> (r: Option<Account>)
        ensures
            r matches Some(a) ==> a.id == id && has_id(self.spec_accounts(), id) && stored_like(
                self.spec_accounts(),
                a,
            ),
            r is None ==> (forall|j: int|
                0 <= j < self.spec_accounts().len() ==> #[trigger] self.spec_accounts()[j].id
                    != id),
    {
        let mut j: usize = 0;
        while j < self.accounts.len()
            invariant
                j <= self.spec_accounts().len(),
                forall|x: int| 0 <= x < j ==> #[trigger] self.spec_accounts()[x].id != id,
            decreases self.spec_accounts().len() - j,
        {
            if self.accounts[j].get_id() == id {
                let found = self.accounts[j].clone_account();
                proof {
                    assert(self.spec_accounts()[j as int].id == id);
                    assert(account_like(self.spec_accounts()[j as int], found));
                }
                return Some(found);
            }
            j = j + 1;
        }
        None
    }

    /// The account whose HTTP authorization equals the header, if one
    /// is stored.
    pub fn get_account_from_authorization(&self, auth_header: &String) -> (r: Result<Account, ()>)
        ensures
            r matches Ok(a) ==> (a.http_incoming_authorization matches Some(h) && h@
                == auth_header@) && stored_like(self.spec_accounts(), a) && (exists|j: int|
                0 <= j < self.spec_accounts().len() && (#[trigger] self.spec_accounts()[
                    j
                ].http_incoming_authorization matches Some(h2) && h2@ == auth_header@)),
            r is Err ==> (forall|j: int|
                0 <= j < self.spec_accounts().len() ==> !((#[trigger] self.spec_accounts()[
                    j
                ].http_incoming_authorization) matches Some(h) && h@ == auth_header@)),
    {
        let mut j: usize = 0;
        while j < self.accounts.len()
            invariant
                j <= self.spec_accounts().len(),
                forall|x: int|
                    0 <= x < j ==> !(#[trigger] self.spec_accounts()[
                        x
                    ].http_incoming_authorization matches Some(h) && h@ == auth_header@),
            decreases self.spec_accounts().len() - j,
        {
            let matched = match &self.accounts[j].http_incoming_authorization {
                Some(h) => *h == *auth_header,
                None => false,
            };
            if matched {
                let found = self.accounts[j].clone_account();
                proof {
                    assert(account_like(self.spec_accounts()[j as int], found));
                }
                return Ok(found);
            }
            j = j + 1;
        }
        Err(())
    }

    /// A copy of the routing table.
    pub fn routing_table(&self) -> (r: Vec<(Vec<u8>, u64)>)
        ensures
            r@.len() == self.spec_routing_table().len(),
            forall|i: int|
                0 <= i < r@.len() ==> #[trigger] r@[i].0@ == self.spec_routing_table()[i].0@ && r@[
                    i
                ].1 == self.spec_routing_table()[i].1,
    {
        let mut out: Vec<(Vec<u8>, u64)> = Vec::new();
        let mut i: usize = 0;
        while i < self.routing_table.len()
            invariant
                i <= self.spec_routing_table().len(),
                out@.len() == i,
                forall|x: int|
                    0 <= x < i ==> #[trigger] out@[x].0@ == self.spec_routing_table()[x].0@
                        && out@[x].1 == self.spec_routing_table()[x].1,
            decreases self.spec_routing_table().len() - i,
        {
            out.push((crate::copy_bytes(&self.routing_table[i].0), self.routing_table[i].1));
            i = i + 1;
        }
        out
    }

    /// The account whose BTP token and username equal the given ones,
    /// if one is stored.
    pub fn get_account_from_auth(&self, token: &String, username: Option<&String>) -> (r: Result<
        Account,
        (),
    >)
        ensures
            r matches Ok(a) ==> btp_matches(
                a,
                token@,
                match username {
                    Some(u) => Some(u@),
                    None => None,
                },
            ) && stored_like(self.spec_accounts(), a) && (exists|j: int|
                0 <= j < self.spec_accounts().len() && btp_matches(
                    #[trigger] self.spec_accounts()[j],
                    token@,
                    match username {
                        Some(u) => Some(u@),
                        None => None,
                    },
                )),
            r is Err ==> (forall|j: int|
                0 <= j < self.spec_accounts().len() ==> !btp_matches(
                    #[trigger] self.spec_accounts()[j],
                    token@,
                    match username {
                        Some(u) => Some(u@),
                        None => None,
                    },
                )),
    {
        let mut j: usize = 0;
        while j < self.accounts.len()
            invariant
                j <= self.spec_accounts().len(),
                forall|x: int|
                    0 <= x < j ==> !btp_matches(
                        #[trigger] self.spec_accounts()[x],
                        token@,
                        match username {
                            Some(u) => Some(u@),
                            None => None,
                        },
                    ),
            decreases self.spec_accounts().len() - j,
        {
            let token_matched = match &self.accounts[j].btp_incoming_token {
                Some(t) => *t == *token,
                None => false,
            };
            let username_matched = match (&self.accounts[j].btp_incoming_username, username) {
                (Some(u), Some(w)) => *u == *w,
                (None, None) => true,
                _ => false,
            };
            if token_matched && username_matched {
                let found = self.accounts[j].clone_account();
                proof {
                    assert(account_like(self.spec_accounts()[j as int], found));
                }
                return Ok(found);
            }
            j = j + 1;
        }
        Err(())
    }

    /// Creates an account from an open BTP signup: it gets the next
    /// identifier and is stored with its address routed and its token
    /// registered.
    pub fn create_btp_account(
        &mut self,
        ilp_address: Vec<u8>,
        auth_token: String,
        username: Option<String>,
        asset_code: String,
        asset_scale: u8,
    ) -> (r: Result<Account, ()>)
        requires
            old(self).wf(),
        ensures
            final(self).wf(),
            r matches Ok(a) ==> {
                &&& a.id == old(self).spec_next_account_id()
                &&& a.ilp_address@ == ilp_address@
                &&& a.btp_incoming_token matches Some(t) && t@ == auth_token@
                &&& a.btp_incoming_username == username
                &&& a.asset_code == asset_code
                &&& a.asset_scale == asset_scale
                &&& a.http_incoming_authorization is None
                &&& a.additional_routes@.len() == 0
                &&& final(self).spec_accounts().len() == old(self).spec_accounts().len() + 1
                &&& account_like(final(self).spec_accounts().last(), a)
                &&& (forall|j: int|
                    0 <= j < old(self).spec_accounts().len() ==> final(self).spec_accounts()[j]
                        == #[trigger] old(self).spec_accounts()[j])
                &&& final(self).spec_next_account_id() == old(self).spec_next_account_id() + 1
                &&& final(self).spec_routing_table().len() == old(self).spec_routing_table().len() + 1
                &&& final(self).spec_routing_table().last().0@ == ilp_address@
                &&& final(self).spec_routing_table().last().1 == a.id
                &&& (forall|k: int|
                    0 <= k < old(self).spec_routing_table().len() ==> final(self).spec_routing_table()[k] == #[trigger] old(self).spec_routing_table()[k])
            },
            r is Err <==> old(self).spec_next_account_id() == u64::MAX,
            r is Err ==> *final(self) == *old(self),
    {
        if self.next_account_id == u64::MAX {
            return Err(());
        }
        let account_id = self.next_account_id;
        self.next_account_id = self.next_account_id + 1;
        let account = Account {
            id: account_id,
            ilp_address,
            additional_routes: Vec::new(),
            asset_code,
            asset_scale,
            btp_incoming_token: Some(auth_token),
            btp_incoming_username: username,
            http_incoming_authorization: None,
        };
        self.routing_table.push((crate::copy_bytes(&account.ilp_address), account_id));
        let out = account.clone_account();
        self.accounts.push(account);
        Ok(out)
    }
}

} // verus!
