//! Balances per address and currency, and the public keys registered per
//! address. Both are association lists in which no key occurs twice, each
//! mirrored by a ghost map.

use vstd::prelude::*;
use vstd::set::fold::{is_fun_commutative, lemma_fold_empty, lemma_fold_insert};

verus! {

/// The balance that `balances` records for `address` in `currency`; an
/// address with no record for the currency holds 0.
pub open spec fn balance_in(
    balances: Map<(Seq<char>, Seq<char>), u64>,
    address: Seq<char>,
    currency: Seq<char>,
) -> u64 {
    if balances.dom().contains((address, currency)) {
        balances[(address, currency)]
    } else {
        0
    }
}

/// The balances after moving `amount` of `currency` from `sender` to
/// `receiver`: the sender's record is lowered first, then the receiver's is
/// raised. `None` when the sender holds less than `amount` or the receiver's
/// balance would exceed `u64::MAX`.
pub open spec fn transfer_result(
    balances: Map<(Seq<char>, Seq<char>), u64>,
    sender: Seq<char>,
    receiver: Seq<char>,
    currency: Seq<char>,
    amount: u64,
) -> Option<Map<(Seq<char>, Seq<char>), u64>> {
    let from: u64 = balance_in(balances, sender, currency);
    if from < amount {
        None
    } else {
        let debited = balances.insert((sender, currency), (from - amount) as u64);
        let to: u64 = balance_in(debited, receiver, currency);
        if to + amount > u64::MAX {
            None
        } else {
            Some(debited.insert((receiver, currency), (to + amount) as u64))
        }
    }
}

/// A transfer goes through exactly when the sender holds at least the
/// amount and the receiver's resulting balance fits in `u64`. It then lowers
/// the sender's balance and raises the receiver's by the amount (a transfer
/// to oneself leaves the balance as it was) and touches no other record.
pub proof fn lemma_transfer_moves_amount(
    balances: Map<(Seq<char>, Seq<char>), u64>,
    sender: Seq<char>,
    receiver: Seq<char>,
    currency: Seq<char>,
    amount: u64,
)
    ensures
        transfer_result(balances, sender, receiver, currency, amount) is Some <==> {
            &&& balance_in(balances, sender, currency) >= amount
            &&& if sender == receiver {
                balance_in(balances, sender, currency) <= u64::MAX
            } else {
                balance_in(balances, receiver, currency) + amount <= u64::MAX
            }
        },
        transfer_result(balances, sender, receiver, currency, amount) matches Some(after) ==> {
            &&& sender != receiver ==> balance_in(after, sender, currency) == balance_in(
                balances,
                sender,
                currency,
            ) - amount
            &&& sender != receiver ==> balance_in(after, receiver, currency) == balance_in(
                balances,
                receiver,
                currency,
            ) + amount
            &&& sender == receiver ==> balance_in(after, sender, currency) == balance_in(
                balances,
                sender,
                currency,
            )
            &&& forall|a: Seq<char>, c: Seq<char>|
                (a, c) != (sender, currency) && (a, c) != (receiver, currency) ==> #[trigger] balance_in(
                    after,
                    a,
                    c,
                ) == balance_in(balances, a, c)
            &&& forall|k: (Seq<char>, Seq<char>)|
                #[trigger] after.dom().contains(k) <==> balances.dom().contains(k) || k == (
                    sender,
                    currency,
                ) || k == (receiver, currency)
        },
{
}

/// What the record for `key` contributes to the supply of `currency`.
pub open spec fn currency_share(
    balances: Map<(Seq<char>, Seq<char>), u64>,
    currency: Seq<char>,
    key: (Seq<char>, Seq<char>),
) -> int {
    if key.1 == currency && balances.dom().contains(key) {
        balances[key] as int
    } else {
        0
    }
}

/// The sum of `share` over a finite set of keys.
pub open spec fn sum_over<K>(keys: Set<K>, share: spec_fn(K) -> int) -> int {
    keys.fold(0int, |acc: int, key: K| acc + share(key))
}

/// The total amount of `currency` held over all addresses.
pub open spec fn supply(balances: Map<(Seq<char>, Seq<char>), u64>, currency: Seq<char>) -> int {
    sum_over(balances.dom(), |key: (Seq<char>, Seq<char>)| currency_share(balances, currency, key))
}

proof fn lemma_sum_over_insert<K>(keys: Set<K>, share: spec_fn(K) -> int, key: K)
    requires
        keys.finite(),
        !keys.contains(key),
    ensures
        sum_over(keys.insert(key), share) == sum_over(keys, share) + share(key),
{
    let f = |acc: int, k: K| acc + share(k);
    assert(is_fun_commutative(f));
    lemma_fold_insert(keys, 0int, f, key);
}

proof fn lemma_sum_over_agree<K>(keys: Set<K>, share1: spec_fn(K) -> int, share2: spec_fn(K) -> int)
    requires
        keys.finite(),
        forall|k: K| keys.contains(k) ==> share1(k) == share2(k),
    ensures
        sum_over(keys, share1) == sum_over(keys, share2),
    decreases keys.len(),
{
    if keys.len() == 0 {
        assert(keys =~= Set::<K>::empty());
        lemma_fold_empty(0int, |acc: int, key: K| acc + share1(key));
        lemma_fold_empty(0int, |acc: int, key: K| acc + share2(key));
    } else {
        let key = keys.choose();
        let rest = keys.remove(key);
        lemma_sum_over_agree(rest, share1, share2);
        lemma_sum_over_insert(rest, share1, key);
        lemma_sum_over_insert(rest, share2, key);
        assert(rest.insert(key) =~= keys);
    }
}

/// Setting one record changes the supply of its currency by the difference
/// between the new and the old balance, and no other currency's supply.
pub proof fn lemma_supply_after_set(
    balances: Map<(Seq<char>, Seq<char>), u64>,
    key: (Seq<char>, Seq<char>),
    amount: u64,
    currency: Seq<char>,
)
    requires
        balances.dom().finite(),
    ensures
        supply(balances.insert(key, amount), currency) == supply(balances, currency) - currency_share(
            balances,
            currency,
            key,
        ) + if key.1 == currency {
            amount as int
        } else {
            0
        },
{
    let after = balances.insert(key, amount);
    let old_share = |k: (Seq<char>, Seq<char>)| currency_share(balances, currency, k);
    let new_share = |k: (Seq<char>, Seq<char>)| currency_share(after, currency, k);
    let rest = balances.dom().remove(key);
    lemma_sum_over_agree(rest, old_share, new_share);
    lemma_sum_over_insert(rest, new_share, key);
    assert(rest.insert(key) =~= after.dom());
    if balances.dom().contains(key) {
        lemma_sum_over_insert(rest, old_share, key);
        assert(rest.insert(key) =~= balances.dom());
    } else {
        assert(rest =~= balances.dom());
    }
}

/// A transfer keeps the total amount of every currency.
pub proof fn lemma_transfer_keeps_supply(
    balances: Map<(Seq<char>, Seq<char>), u64>,
    sender: Seq<char>,
    receiver: Seq<char>,
    currency: Seq<char>,
    amount: u64,
    any_currency: Seq<char>,
)
    requires
        balances.dom().finite(),
        transfer_result(balances, sender, receiver, currency, amount) is Some,
    ensures
        transfer_result(balances, sender, receiver, currency, amount)->0.dom().finite(),
        supply(transfer_result(balances, sender, receiver, currency, amount)->0, any_currency)
            == supply(balances, any_currency),
{
    let from: u64 = balance_in(balances, sender, currency);
    let debited = balances.insert((sender, currency), (from - amount) as u64);
    let to: u64 = balance_in(debited, receiver, currency);
    lemma_supply_after_set(balances, (sender, currency), (from - amount) as u64, any_currency);
    lemma_supply_after_set(debited, (receiver, currency), (to + amount) as u64, any_currency);
}

struct BalanceEntry {
    address: String,
    currency: String,
    amount: u64,
}

spec fn balance_key(entries: Seq<BalanceEntry>, i: int) -> (Seq<char>, Seq<char>) {
    (entries[i].address@, entries[i].currency@)
}

/// The entries of a ledger, mirrored by a ghost map.
struct BalanceList {
    entries: Vec<BalanceEntry>,
    model: Ghost<Map<(Seq<char>, Seq<char>), u64>>,
}

impl View for BalanceList {
    type V = Map<(Seq<char>, Seq<char>), u64>;

    closed spec fn view(&self) -> Map<(Seq<char>, Seq<char>), u64> {
        self.model@
    }
}

impl BalanceList {
    /// Each (address, currency) pair has one entry, and the entries are
    /// exactly the records of the view.
    spec fn wf(&self) -> bool {
        &&& self.model@.dom().finite()
        &&& forall|i: int, j: int|
            0 <= i < j < self.entries@.len() ==> balance_key(self.entries@, i) != balance_key(
                self.entries@,
                j,
            )
        &&& forall|i: int|
            0 <= i < self.entries@.len() ==> {
                &&& self.model@.dom().contains(#[trigger] balance_key(self.entries@, i))
                &&& self.model@[balance_key(self.entries@, i)] == self.entries@[i].amount
            }
        &&& forall|k: (Seq<char>, Seq<char>)|
            #[trigger] self.model@.dom().contains(k) ==> exists|i: int|
                0 <= i < self.entries@.len() && balance_key(self.entries@, i) == k
    }

    /// A ledger with no records.
    fn new() -> (list: Self)
        ensures
            list.wf(),
            list@ == Map::<(Seq<char>, Seq<char>), u64>::empty(),
    {
        BalanceList { entries: Vec::new(), model: Ghost(Map::empty()) }
    }

    /// A ledger with the same records.
    fn copy(&self) -> (list: Self)
        requires
            self.wf(),
        ensures
            list.wf(),
            list@ == self@,
    {
        let mut entries: Vec<BalanceEntry> = Vec::new();
        let n: usize = self.entries.len();
        for i in 0..n
            invariant
                n == self.entries@.len(),
                entries@ == self.entries@.take(i as int),
        {
            let entry = BalanceEntry {
                address: self.entries[i].address.clone(),
                currency: self.entries[i].currency.clone(),
                amount: self.entries[i].amount,
            };
            entries.push(entry);
            assert(entries@ =~= self.entries@.take(i + 1));
        }
        assert(entries@ =~= self.entries@);
        let list = BalanceList { entries, model: Ghost(self.model@) };
        assert(list.entries@ == self.entries@);
        assert forall|k: (Seq<char>, Seq<char>)| #[trigger]
            list.model@.dom().contains(k) implies exists|i: int|
                0 <= i < list.entries@.len() && balance_key(list.entries@, i) == k by {
            let i = choose|i: int| 0 <= i < self.entries@.len() && balance_key(self.entries@, i) == k;
            assert(balance_key(list.entries@, i) == k);
        }
        list
    }

    /// Removes every record.
    fn clear(&mut self)
        ensures
            final(self).wf(),
            final(self)@ == Map::<(Seq<char>, Seq<char>), u64>::empty(),
    {
        self.entries = Vec::new();
        self.model = Ghost(Map::empty());
    }

    fn find(&self, address: &String, currency: &String) -> (found: Option<usize>)
        requires
            self.wf(),
        ensures
            match found {
                Some(i) => i < self.entries@.len() && balance_key(self.entries@, i as int) == (
                    address@,
                    currency@,
                ),
                None => !self@.dom().contains((address@, currency@)),
            },
    {
        let n: usize = self.entries.len();
        for i in 0..n
            invariant
                n == self.entries@.len(),
                forall|j: int| 0 <= j < i ==> balance_key(self.entries@, j) != (address@, currency@),
        {
            if self.entries[i].address == *address && self.entries[i].currency == *currency {
                return Some(i);
            }
        }
        None
    }

    /// The balance of `address` in `currency` (0 when there is no record).
    fn balance(&self, address: &str, currency: &str) -> (amount: u64)
        requires
            self.wf(),
        ensures
            amount == balance_in(self@, address@, currency@),
    {
        let address = address.to_owned();
        let currency = currency.to_owned();
        match self.find(&address, &currency) {
            Some(i) => self.entries[i].amount,
            None => 0,
        }
    }

    /// Records `amount` as the balance of `address` in `currency`.
    fn set(&mut self, address: &str, currency: &str, amount: u64)
        requires
            old(self).wf(),
        ensures
            final(self).wf(),
            final(self)@ == old(self)@.insert((address@, currency@), amount),
    {
        let address = address.to_owned();
        let currency = currency.to_owned();
        let ghost key = (address@, currency@);
        let found = self.find(&address, &currency);
        let entry = BalanceEntry { address, currency, amount };
        match found {
            Some(i) => {
                self.entries.set(i, entry);
            },
            None => {
                self.entries.push(entry);
            },
        }
        self.model = Ghost(self.model@.insert(key, amount));
        let ghost changed: int = match found {
            Some(f) => f as int,
            None => self.entries@.len() - 1,
        };
        assert(balance_key(self.entries@, changed) == key);
        assert(self.entries@[changed].amount == amount);
        assert forall|x: int| 0 <= x < self.entries@.len() && x != changed implies {
            &&& self.entries@[x] == old(self).entries@[x]
            &&& #[trigger] balance_key(self.entries@, x) != key
            &&& old(self).model@.dom().contains(balance_key(self.entries@, x))
            &&& old(self).model@[balance_key(self.entries@, x)] == self.entries@[x].amount
        } by {
            assert(old(self).model@.dom().contains(balance_key(old(self).entries@, x)));
        }
        assert forall|i: int| 0 <= i < self.entries@.len() implies self.model@[#[trigger] balance_key(
            self.entries@,
            i,
        )] == self.entries@[i].amount by {
            if i != changed {
                assert(balance_key(self.entries@, i) != key);
            }
        }
        assert forall|i: int, j: int|
            0 <= i < j < self.entries@.len() implies balance_key(self.entries@, i) != balance_key(
                self.entries@,
                j,
            ) by {
            if i != changed && j != changed {
                assert(balance_key(self.entries@, i) == balance_key(old(self).entries@, i));
                assert(balance_key(self.entries@, j) == balance_key(old(self).entries@, j));
            } else if i == changed {
                assert(balance_key(self.entries@, j) != key);
            } else {
                assert(balance_key(self.entries@, i) != key);
            }
        }
        assert forall|k: (Seq<char>, Seq<char>)| #[trigger]
            self.model@.dom().contains(k) implies exists|i: int|
                0 <= i < self.entries@.len() && balance_key(self.entries@, i) == k by {
            if k != key {
                let i = choose|i: int|
                    0 <= i < old(self).entries@.len() && balance_key(old(self).entries@, i) == k;
                assert(balance_key(self.entries@, i) == k);
            } else {
                match found {
                    Some(i) => assert(balance_key(self.entries@, i as int) == k),
                    None => assert(balance_key(self.entries@, self.entries@.len() - 1) == k),
                }
            }
        }
    }
}

struct KeyEntry {
    address: String,
    public_key: Vec<u8>,
}

/// The entries of a key registry, mirrored by a ghost map.
struct KeyList {
    entries: Vec<KeyEntry>,
    model: Ghost<Map<Seq<char>, Seq<u8>>>,
}

impl View for KeyList {
    type V = Map<Seq<char>, Seq<u8>>;

    closed spec fn view(&self) -> Map<Seq<char>, Seq<u8>> {
        self.model@
    }
}

impl KeyList {
    /// Each address has one entry, and the entries are exactly the records
    /// of the view.
    spec fn wf(&self) -> bool {
        &&& forall|i: int, j: int|
            0 <= i < j < self.entries@.len() ==> #[trigger] self.entries@[i].address@
                != #[trigger] self.entries@[j].address@
        &&& forall|i: int|
            0 <= i < self.entries@.len() ==> {
                &&& self.model@.dom().contains(#[trigger] self.entries@[i].address@)
                &&& self.model@[self.entries@[i].address@] == self.entries@[i].public_key@
            }
        &&& forall|k: Seq<char>|
            #[trigger] self.model@.dom().contains(k) ==> exists|i: int|
                0 <= i < self.entries@.len() && #[trigger] self.entries@[i].address@ == k
    }

    /// A registry with no keys.
    fn new() -> (list: Self)
        ensures
            list.wf(),
            list@ == Map::<Seq<char>, Seq<u8>>::empty(),
    {
        KeyList { entries: Vec::new(), model: Ghost(Map::empty()) }
    }

    fn find(&self, address: &String) -> (found: Option<usize>)
        requires
            self.wf(),
        ensures
            match found {
                Some(i) => i < self.entries@.len() && self.entries@[i as int].address@ == address@,
                None => !self@.dom().contains(address@),
            },
    {
        let n: usize = self.entries.len();
        for i in 0..n
            invariant
                n == self.entries@.len(),
                forall|j: int| 0 <= j < i ==> self.entries@[j].address@ != address@,
        {
            if self.entries[i].address == *address {
                return Some(i);
            }
        }
        None
    }

    /// The key registered for `address`, if any.
    fn get(&self, address: &str) -> (key: Option<&Vec<u8>>)
        requires
            self.wf(),
        ensures
            match key {
                Some(k) => self@.dom().contains(address@) && k@ == self@[address@],
                None => !self@.dom().contains(address@),
            },
    {
        let address = address.to_owned();
        match self.find(&address) {
            Some(i) => Some(&self.entries[i].public_key),
            None => None,
        }
    }

    /// Registers `public_key` for `address`, replacing any earlier key.
    fn insert(&mut self, address: String, public_key: Vec<u8>)
        requires
            old(self).wf(),
        ensures
            final(self).wf(),
            final(self)@ == old(self)@.insert(address@, public_key@),
    {
        let ghost key = address@;
        let ghost value = public_key@;
        let found = self.find(&address);
        let entry = KeyEntry { address, public_key };
        match found {
            Some(i) => {
                self.entries.set(i, entry);
            },
            None => {
                self.entries.push(entry);
            },
        }
        self.model = Ghost(self.model@.insert(key, value));
        assert forall|k: Seq<char>| #[trigger]
            self.model@.dom().contains(k) implies exists|i: int|
                0 <= i < self.entries@.len() && #[trigger] self.entries@[i].address@ == k by {
            if k != key {
                let i = choose|i: int|
                    0 <= i < old(self).entries@.len() && #[trigger] old(self).entries@[i].address@ == k;
                assert(self.entries@[i].address@ == k);
            } else {
                match found {
                    Some(i) => assert(self.entries@[i as int].address@ == k),
                    None => assert(self.entries@[self.entries@.len() - 1].address@ == k),
                }
            }
        }
    }
}


/// Balances keyed by address and currency.
pub struct Ledger {
    list: BalanceList,
}

impl View for Ledger {
    type V = Map<(Seq<char>, Seq<char>), u64>;

    closed spec fn view(&self) -> Map<(Seq<char>, Seq<char>), u64> {
        self.list@
    }
}

impl Ledger {
    /// Each (address, currency) pair has one entry, and the entries are
    /// exactly the records of the view.
    #[verifier::type_invariant]
    pub closed spec fn well_formed(self) -> bool {
        self.list.wf()
    }

    /// A well-formed ledger has finitely many records.
    pub proof fn lemma_finite(&self)
        requires
            self.well_formed(),
        ensures
            self@.dom().finite(),
    {
    }

    /// A ledger with no records.
    pub fn new() -> (ledger: Self)
        ensures
            ledger@ == Map::<(Seq<char>, Seq<char>), u64>::empty(),
    {
        Ledger { list: BalanceList::new() }
    }

    /// A ledger with the same records.
    pub fn copy(&self) -> (ledger: Self)
        ensures
            ledger@ == self@,
    {
        proof {
            use_type_invariant(self);
        }
        Ledger { list: self.list.copy() }
    }

    /// Removes every record.
    pub fn clear(&mut self)
        ensures
            final(self)@ == Map::<(Seq<char>, Seq<char>), u64>::empty(),
    {
        let mut empty = BalanceList::new();
        std::mem::swap(&mut self.list, &mut empty);
    }

    /// The balance of `address` in `currency` (0 when there is no record).
    pub fn balance(&self, address: &str, currency: &str) -> (amount: u64)
        ensures
            amount == balance_in(self@, address@, currency@),
    {
        proof {
            use_type_invariant(self);
        }
        self.list.balance(address, currency)
    }

    /// Records `amount` as the balance of `address` in `currency`.
    pub fn set(&mut self, address: &str, currency: &str, amount: u64)
        ensures
            final(self)@ == old(self)@.insert((address@, currency@), amount),
    {
        proof {
            use_type_invariant(&*self);
        }
        let mut list = BalanceList::new();
        std::mem::swap(&mut self.list, &mut list);
        list.set(address, currency, amount);
        std::mem::swap(&mut self.list, &mut list);
    }

    /// Moves `amount` of `currency` from `sender` to `receiver` when the
    /// sender holds enough and the receiver's balance stays within `u64`;
    /// otherwise leaves the ledger as it was. Returns whether it moved.
    pub fn transfer(&mut self, sender: &str, receiver: &str, currency: &str, amount: u64) -> (done: bool)
        ensures
            match transfer_result(old(self)@, sender@, receiver@, currency@, amount) {
                Some(next) => done && final(self)@ == next,
                None => !done && final(self)@ == old(self)@,
            },
    {
        let from: u64 = self.balance(sender, currency);
        if from < amount {
            return false;
        }
        let same = sender.to_owned() == receiver.to_owned();
        let to: u64 = if same {
            from - amount
        } else {
            self.balance(receiver, currency)
        };
        if to > u64::MAX - amount {
            return false;
        }
        self.set(sender, currency, from - amount);
        self.set(receiver, currency, to + amount);
        true
    }
}

/// Public keys keyed by address.
pub struct KeyRegistry {
    list: KeyList,
}

impl View for KeyRegistry {
    type V = Map<Seq<char>, Seq<u8>>;

    closed spec fn view(&self) -> Map<Seq<char>, Seq<u8>> {
        self.list@
    }
}

impl KeyRegistry {
    /// Each address has one entry, and the entries are exactly the records
    /// of the view.
    #[verifier::type_invariant]
    closed spec fn well_formed(self) -> bool {
        self.list.wf()
    }

    /// A registry with no keys.
    pub fn new() -> (registry: Self)
        ensures
            registry@ == Map::<Seq<char>, Seq<u8>>::empty(),
    {
        KeyRegistry { list: KeyList::new() }
    }

    /// The key registered for `address`, if any.
    pub fn get(&self, address: &str) -> (key: Option<&Vec<u8>>)
        ensures
            match key {
                Some(k) => self@.dom().contains(address@) && k@ == self@[address@],
                None => !self@.dom().contains(address@),
            },
    {
        proof {
            use_type_invariant(self);
        }
        self.list.get(address)
    }

    /// Registers `public_key` for `address`, replacing any earlier key.
    pub fn insert(&mut self, address: String, public_key: Vec<u8>)
        ensures
            final(self)@ == old(self)@.insert(address@, public_key@),
    {
        proof {
            use_type_invariant(&*self);
        }
        let mut list = KeyList::new();
        std::mem::swap(&mut self.list, &mut list);
        list.insert(address, public_key);
        std::mem::swap(&mut self.list, &mut list);
    }
}

} // verus!
