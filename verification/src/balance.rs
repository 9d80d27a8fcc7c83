//! Watching a fixed list of named accounts: the `name=address` entries of
//! the configuration, the list they make, and the polling cycle that keeps
//! one balance gauge for each account.

use vstd::prelude::*;
use crate::account::{account_bytes_of, AccountId};
use crate::base58::base58_encoded;
use crate::cycle::{DataEncoding, DataSlice, WatcherAction, WatcherState};
use crate::metrics::{
    balance_labels, reset_metric_balance_sol, update_metric_balance_sol, MetricsStore,
};
use crate::sol::SolAmount;
use crate::text::{
    head_of, lemma_split_join, lemma_split_unique, same_text, split_once, tail_of, texts_of,
};

verus! {

/// An account to watch, and the name under which its balance is shown.
#[derive(Debug)]
pub struct NamedAddress {
    pub address: AccountId,
    pub name: String,
}

/// A named address as a mathematical value.
pub struct NamedAddressView {
    pub address: Seq<u8>,
    pub name: Seq<char>,
}

impl View for NamedAddress {
    type V = NamedAddressView;

    open spec fn view(&self) -> NamedAddressView {
        NamedAddressView { address: self.address@, name: self.name@ }
    }
}

/// Why the named addresses of a configuration were refused.
#[derive(Clone, Copy, Debug, PartialEq, Eq, Structural)]
pub enum NamedAddressError {
    /// An entry has no `=` between name and address.
    MissingSeparator,
    /// What stands behind the `=` names no account.
    InvalidAddress,
    /// An address was given a second, different name.
    DuplicateAddress,
}

impl NamedAddressError {
    /// What to tell the operator.
    pub open spec fn message_text(self) -> Seq<char> {
        match self {
            NamedAddressError::MissingSeparator => "Failed to parse the named address, expected syntax: name=address"@,
            NamedAddressError::InvalidAddress => "Cannot parse pubkey"@,
            NamedAddressError::DuplicateAddress => "Pubkey is stored with a different name already"@,
        }
    }

    /// What to tell the operator.
    pub fn message(&self) -> (text: &'static str)
        ensures
            text@ == self.message_text(),
    {
        match self {
            NamedAddressError::MissingSeparator => "Failed to parse the named address, expected syntax: name=address",
            NamedAddressError::InvalidAddress => "Cannot parse pubkey",
            NamedAddressError::DuplicateAddress => "Pubkey is stored with a different name already",
        }
    }
}

/// The named address that an entry `name=address` stands for. The name ends
/// at the first `=`, and the rest is the address.
pub open spec fn named_address_of(entry: Seq<char>) -> Result<NamedAddressView, NamedAddressError> {
    if !entry.contains('=') {
        Err(NamedAddressError::MissingSeparator)
    } else {
        match account_bytes_of(tail_of(entry, '=')) {
            Some(address) => Ok(NamedAddressView { address, name: head_of(entry, '=') }),
            None => Err(NamedAddressError::InvalidAddress),
        }
    }
}

/// Reads one entry of the form `name=address`.
pub fn parse_named_address(entry: &str) -> (result: Result<NamedAddress, NamedAddressError>)
    ensures
        match result {
            Ok(named) => named_address_of(entry@) == Ok::<NamedAddressView, NamedAddressError>(
                named@,
            ),
            Err(error) => named_address_of(entry@) == Err::<NamedAddressView, NamedAddressError>(
                error,
            ),
        },
{
    match split_once(entry, '=') {
        Some((name, address_text)) => named_address_from(name, AccountId::parse(address_text)),
        None => Err(NamedAddressError::MissingSeparator),
    }
}

/// Puts a name together with the address that was read for it, and refuses
/// with `InvalidAddress` where none was read.
pub fn named_address_from(name: &str, address: Option<AccountId>) -> (result: Result<
    NamedAddress,
    NamedAddressError,
>)
    ensures
        match address {
            Some(id) => result matches Ok(named) && named@ == (NamedAddressView {
                address: id@,
                name: name@,
            }),
            None => result == Err::<NamedAddress, NamedAddressError>(
                NamedAddressError::InvalidAddress,
            ),
        },
{
    match address {
        Some(id) => Ok(NamedAddress { address: id, name: name.to_owned() }),
        None => Err(NamedAddressError::InvalidAddress),
    }
}

/// An entry made of a name without `=`, an `=` and the text of an account
/// stands for exactly that name and that account: the name of the named
/// address is what stands before the `=`, and the text of its address is
/// what stands behind it.
pub proof fn lemma_named_address_sides(name: Seq<char>, address_text: Seq<char>)
    requires
        !name.contains('='),
        account_bytes_of(address_text) is Some,
    ensures
        named_address_of(name + seq!['='] + address_text) == Ok::<
            NamedAddressView,
            NamedAddressError,
        >(NamedAddressView { address: account_bytes_of(address_text)->0, name }),
        base58_encoded(account_bytes_of(address_text)->0) == address_text,
{
    lemma_split_unique(name + seq!['='] + address_text, '=', name, address_text);
}

/// An entry that is read is its name, an `=` and the text of its address.
pub proof fn lemma_named_address_text(entry: Seq<char>)
    requires
        named_address_of(entry) is Ok,
    ensures
        entry == named_address_of(entry)->Ok_0.name + seq!['='] + base58_encoded(
            named_address_of(entry)->Ok_0.address,
        ),
        !named_address_of(entry)->Ok_0.name.contains('='),
{
    lemma_split_join(entry, '=');
}

/// The named addresses in `entries`, each as a mathematical value.
pub open spec fn named_views(entries: Seq<NamedAddress>) -> Seq<NamedAddressView> {
    Seq::new(entries.len(), |i: int| entries[i]@)
}

/// No two entries of the list have the same address.
pub open spec fn distinct_addresses(list: Seq<NamedAddressView>) -> bool {
    forall|i: int, j: int|
        0 <= i < j < list.len() ==> (#[trigger] list[i]).address != (#[trigger] list[j]).address
}

/// Whether the list holds the address of `entry`.
pub open spec fn knows(list: Seq<NamedAddressView>, entry: NamedAddressView) -> bool {
    exists|k: int| 0 <= k < list.len() && (#[trigger] list[k]).address == entry.address
}

/// Whether the list holds the address of `entry` under another name.
pub open spec fn conflicts(list: Seq<NamedAddressView>, entry: NamedAddressView) -> bool {
    exists|k: int|
        0 <= k < list.len() && (#[trigger] list[k]).address == entry.address && list[k].name
            != entry.name
}

/// The list after `entry` was put into it. An address that the list holds
/// under another name is refused; one that it holds under the same name
/// changes nothing; a new one goes to the end.
pub open spec fn registered(list: Seq<NamedAddressView>, entry: NamedAddressView) -> Result<
    Seq<NamedAddressView>,
    NamedAddressError,
> {
    if conflicts(list, entry) {
        Err(NamedAddressError::DuplicateAddress)
    } else if knows(list, entry) {
        Ok(list)
    } else {
        Ok(list.push(entry))
    }
}

/// The list that the entries of a configuration make, taken in order. Where
/// an entry is refused, the error of the first such entry.
pub open spec fn registry_of(entries: Seq<Seq<char>>) -> Result<
    Seq<NamedAddressView>,
    NamedAddressError,
>
    decreases entries.len(),
{
    if entries.len() == 0 {
        Ok(Seq::empty())
    } else {
        match registry_of(entries.drop_last()) {
            Err(error) => Err(error),
            Ok(list) => match named_address_of(entries.last()) {
                Err(error) => Err(error),
                Ok(entry) => registered(list, entry),
            },
        }
    }
}

/// An error among the first `k` entries is the error of the whole list.
pub proof fn lemma_registry_first_error(entries: Seq<Seq<char>>, k: int)
    requires
        0 <= k <= entries.len(),
        registry_of(entries.take(k)) is Err,
    ensures
        registry_of(entries) == registry_of(entries.take(k)),
    decreases entries.len(),
{
    if k == entries.len() {
        assert(entries.take(k) == entries);
    } else {
        assert(entries.drop_last().take(k) == entries.take(k));
        lemma_registry_first_error(entries.drop_last(), k);
    }
}

/// What a list that was made holds: every entry of the configuration, under
/// its own name; nothing else; and no address twice.
pub proof fn lemma_registry_holds_entries(entries: Seq<Seq<char>>)
    requires
        registry_of(entries) is Ok,
    ensures
        distinct_addresses(registry_of(entries)->Ok_0),
        forall|k: int|
            0 <= k < entries.len() ==> named_address_of(#[trigger] entries[k]) is Ok
                && registry_of(entries)->Ok_0.contains(named_address_of(entries[k])->Ok_0),
        forall|m: int|
            0 <= m < registry_of(entries)->Ok_0.len() ==> exists|k: int|
                0 <= k < entries.len() && named_address_of(#[trigger] entries[k]) == Ok::<
                    NamedAddressView,
                    NamedAddressError,
                >((#[trigger] registry_of(entries)->Ok_0[m])),
    decreases entries.len(),
{
    if entries.len() > 0 {
        let front = entries.drop_last();
        let before = registry_of(front)->Ok_0;
        let entry = named_address_of(entries.last())->Ok_0;
        let after = registry_of(entries)->Ok_0;
        lemma_registry_holds_entries(front);
        assert(entries.last() == entries[entries.len() - 1]);
        assert(!conflicts(before, entry));
        if knows(before, entry) {
            let at = choose|at: int|
                0 <= at < before.len() && (#[trigger] before[at]).address == entry.address;
            assert(before[at].name == entry.name);
            assert(before[at] == entry);
        } else {
            assert(after[before.len() as int] == entry);
            assert forall|a: int, b: int| 0 <= a < b < after.len() implies (#[trigger] after[a]).address
                != (#[trigger] after[b]).address by {
                if b == before.len() {
                    assert(before[a] == after[a]);
                } else {
                    assert(before[a] == after[a]);
                    assert(before[b] == after[b]);
                }
            }
        }
        assert(after.contains(entry));
        assert forall|k: int| 0 <= k < entries.len() implies named_address_of(
            #[trigger] entries[k],
        ) is Ok && after.contains(named_address_of(entries[k])->Ok_0) by {
            if k < front.len() {
                assert(front[k] == entries[k]);
                let found = named_address_of(front[k])->Ok_0;
                assert(before.contains(found));
                let at = choose|at: int| 0 <= at < before.len() && before[at] == found;
                assert(after[at] == found);
            }
        }
        assert forall|m: int| 0 <= m < after.len() implies exists|k: int|
            0 <= k < entries.len() && named_address_of(#[trigger] entries[k]) == Ok::<
                NamedAddressView,
                NamedAddressError,
            >((#[trigger] after[m])) by {
            if m < before.len() {
                assert(after[m] == before[m]);
                let k = choose|k: int|
                    0 <= k < front.len() && named_address_of(#[trigger] front[k]) == Ok::<
                        NamedAddressView,
                        NamedAddressError,
                    >(before[m]);
                assert(front[k] == entries[k]);
            } else {
                assert(after[m] == entry);
                assert(named_address_of(entries[entries.len() - 1]) == Ok::<
                    NamedAddressView,
                    NamedAddressError,
                >(after[m]));
            }
        }
    }
}

/// Two entries that give one address two different names make the whole
/// configuration fail, wherever they stand in it. Where every entry can be
/// read, it fails as a duplicate address.
pub proof fn lemma_duplicate_address_refused(entries: Seq<Seq<char>>, i: int, j: int)
    requires
        0 <= i < entries.len(),
        0 <= j < entries.len(),
        named_address_of(entries[i]) is Ok,
        named_address_of(entries[j]) is Ok,
        named_address_of(entries[i])->Ok_0.address == named_address_of(entries[j])->Ok_0.address,
        named_address_of(entries[i])->Ok_0.name != named_address_of(entries[j])->Ok_0.name,
    ensures
        registry_of(entries) is Err,
        (forall|k: int| 0 <= k < entries.len() ==> named_address_of(#[trigger] entries[k]) is Ok)
            ==> registry_of(entries) == Err::<Seq<NamedAddressView>, NamedAddressError>(
            NamedAddressError::DuplicateAddress,
        ),
{
    if registry_of(entries) is Ok {
        let list = registry_of(entries)->Ok_0;
        lemma_registry_holds_entries(entries);
        let first = named_address_of(entries[i])->Ok_0;
        let second = named_address_of(entries[j])->Ok_0;
        assert(list.contains(first));
        assert(list.contains(second));
        let a = choose|a: int| 0 <= a < list.len() && list[a] == first;
        let b = choose|b: int| 0 <= b < list.len() && list[b] == second;
        assert(a != b);
        assert(list[a].address == list[b].address);
    }
    if forall|k: int| 0 <= k < entries.len() ==> named_address_of(#[trigger] entries[k]) is Ok {
        lemma_readable_entries_fail_as_duplicate(entries);
    }
}

/// Where every entry can be read, the only way to fail is a duplicate
/// address.
pub proof fn lemma_readable_entries_fail_as_duplicate(entries: Seq<Seq<char>>)
    requires
        forall|k: int| 0 <= k < entries.len() ==> named_address_of(#[trigger] entries[k]) is Ok,
    ensures
        registry_of(entries) is Err ==> registry_of(entries) == Err::<
            Seq<NamedAddressView>,
            NamedAddressError,
        >(NamedAddressError::DuplicateAddress),
    decreases entries.len(),
{
    if entries.len() > 0 {
        let front = entries.drop_last();
        assert forall|k: int| 0 <= k < front.len() implies named_address_of(
            #[trigger] front[k],
        ) is Ok by {
            assert(front[k] == entries[k]);
        }
        lemma_readable_entries_fail_as_duplicate(front);
        assert(entries.last() == entries[entries.len() - 1]);
    }
}

/// Where every entry can be read and no address is given two different
/// names, the configuration is accepted: giving an address the same name
/// again is no fault.
pub proof fn lemma_consistent_entries_accepted(entries: Seq<Seq<char>>)
    requires
        forall|k: int| 0 <= k < entries.len() ==> named_address_of(#[trigger] entries[k]) is Ok,
        forall|i: int, j: int|
            0 <= i < entries.len() && 0 <= j < entries.len() && named_address_of(
                #[trigger] entries[i],
            )->Ok_0.address == named_address_of(#[trigger] entries[j])->Ok_0.address
                ==> named_address_of(entries[i])->Ok_0.name == named_address_of(
                entries[j],
            )->Ok_0.name,
    ensures
        registry_of(entries) is Ok,
    decreases entries.len(),
{
    if entries.len() > 0 {
        let front = entries.drop_last();
        assert(forall|k: int| 0 <= k < front.len() ==> front[k] == entries[k]);
        lemma_consistent_entries_accepted(front);
        lemma_registry_holds_entries(front);
        let before = registry_of(front)->Ok_0;
        let last = entries.len() - 1;
        assert(entries.last() == entries[last]);
        let entry = named_address_of(entries[last])->Ok_0;
        if conflicts(before, entry) {
            let at = choose|at: int|
                0 <= at < before.len() && (#[trigger] before[at]).address == entry.address
                    && before[at].name != entry.name;
            let k = choose|k: int|
                0 <= k < front.len() && named_address_of(#[trigger] front[k]) == Ok::<
                    NamedAddressView,
                    NamedAddressError,
                >(before[at]);
            assert(front[k] == entries[k]);
            assert(named_address_of(entries[k])->Ok_0.address == named_address_of(
                entries[last],
            )->Ok_0.address);
        }
    }
}

/// The accounts that the fixed-address watcher polls, in the order in which
/// the configuration named them. Fixed once the watcher runs.
#[derive(Debug)]
pub struct NamedAddresses {
    entries: Vec<NamedAddress>,
}

impl View for NamedAddresses {
    type V = Seq<NamedAddressView>;

    closed spec fn view(&self) -> Seq<NamedAddressView> {
        named_views(self.entries@)
    }
}

impl NamedAddresses {
    /// No address stands in the list twice. Every function here keeps this.
    pub open spec fn wf(&self) -> bool {
        distinct_addresses(self@)
    }

    /// A list without entries.
    pub fn new() -> (list: NamedAddresses)
        ensures
            list.wf(),
            list@ == Seq::<NamedAddressView>::empty(),
    {
        let list = NamedAddresses { entries: Vec::new() };
        assert(list@ == Seq::<NamedAddressView>::empty());
        list
    }

    /// How many accounts the list holds.
    pub fn len(&self) -> (len: usize)
        ensures
            len == self@.len(),
    {
        self.entries.len()
    }

    /// The entry at position `i`.
    pub fn get(&self, i: usize) -> (entry: &NamedAddress)
        requires
            i < self@.len(),
        ensures
            entry@ == self@[i as int],
    {
        &self.entries[i]
    }

    /// Where the list holds `address`, if it does.
    fn position(&self, address: &AccountId) -> (at: Option<usize>)
        ensures
            match at {
                Some(k) => k < self@.len() && self@[k as int].address == address@,
                None => forall|k: int| 0 <= k < self@.len() ==> (#[trigger] self@[k]).address
                    != address@,
            },
    {
        let n = self.entries.len();
        let mut k: usize = 0;
        while k < n
            invariant
                n == self.entries@.len(),
                n == self@.len(),
                0 <= k <= n,
                forall|m: int| 0 <= m < k ==> (#[trigger] self@[m]).address != address@,
            decreases n - k,
        {
            if self.entries[k].address.same_as(address) {
                return Some(k);
            }
            k += 1;
        }
        None
    }

    /// Puts `entry` into the list. An address that the list holds under
    /// another name is refused as a duplicate, and the list stays as it was.
    pub fn insert(&mut self, entry: NamedAddress) -> (result: Result<(), NamedAddressError>)
        requires
            old(self).wf(),
        ensures
            final(self).wf(),
            match registered(old(self)@, entry@) {
                Ok(list) => result is Ok && final(self)@ == list,
                Err(error) => result == Err::<(), NamedAddressError>(error) && final(self)@ == old(
                    self,
                )@,
            },
    {
        match self.position(&entry.address) {
            Some(k) => {
                if same_text(self.entries[k].name.as_str(), entry.name.as_str()) {
                    proof {
                        let list = self@;
                        if conflicts(list, entry@) {
                            let m = choose|m: int|
                                0 <= m < list.len() && (#[trigger] list[m]).address
                                    == entry@.address && list[m].name != entry@.name;
                            assert(list[m].address == list[k as int].address);
                        }
                    }
                    Ok(())
                } else {
                    Err(NamedAddressError::DuplicateAddress)
                }
            },
            None => {
                let ghost before = self@;
                self.entries.push(entry);
                proof {
                    assert(self@ == before.push(entry@));
                    assert forall|a: int, b: int| 0 <= a < b < self@.len() implies (
                    #[trigger] self@[a]).address != (#[trigger] self@[b]).address by {
                        assert(self@[a] == before[a]);
                        if b < before.len() {
                            assert(self@[b] == before[b]);
                        }
                    }
                }
                Ok(())
            },
        }
    }

    /// Builds the list from the `name=address` entries of a configuration,
    /// taken in order. The first entry that is refused ends it.
    pub fn from_entries(entries: &Vec<String>) -> (result: Result<
        NamedAddresses,
        NamedAddressError,
    >)
        ensures
            match result {
                Ok(list) => list.wf() && registry_of(texts_of(entries@)) == Ok::<
                    Seq<NamedAddressView>,
                    NamedAddressError,
                >(list@),
                Err(error) => registry_of(texts_of(entries@)) == Err::<
                    Seq<NamedAddressView>,
                    NamedAddressError,
                >(error),
            },
    {
        let ghost texts = texts_of(entries@);
        let n = entries.len();
        let mut list = NamedAddresses::new();
        let mut i: usize = 0;
        assert(texts.take(0) == Seq::<Seq<char>>::empty());
        while i < n
            invariant
                n == entries@.len(),
                texts == texts_of(entries@),
                0 <= i <= n,
                list.wf(),
                registry_of(texts.take(i as int)) == Ok::<Seq<NamedAddressView>, NamedAddressError>(
                    list@,
                ),
            decreases n - i,
        {
            proof {
                assert(texts.take(i + 1).drop_last() == texts.take(i as int));
                assert(texts.take(i + 1).last() == entries@[i as int]@);
            }
            let entry = match parse_named_address(entries[i].as_str()) {
                Ok(entry) => entry,
                Err(error) => {
                    proof {
                        lemma_registry_first_error(texts, i + 1);
                    }
                    return Err(error);
                },
            };
            match list.insert(entry) {
                Ok(()) => {},
                Err(error) => {
                    proof {
                        lemma_registry_first_error(texts, i + 1);
                    }
                    return Err(error);
                },
            }
            i += 1;
        }
        assert(texts.take(n as int) == texts);
        Ok(list)
    }
}

/// What one poll found of one account.
#[derive(Clone, Copy, Debug, PartialEq, Eq)]
pub struct BalanceSample {
    /// The account.
    pub address: AccountId,
    /// Its balance; zero for an account that does not exist.
    pub lamports: u64,
    /// Whether the ledger holds the account. One that it does not hold is
    /// worth a diagnostic, and is no failure.
    pub exists: bool,
}

/// The balance that counts for an account of which the ledger returned
/// `account`: zero where it returned none.
pub open spec fn lamports_of(account: Option<u64>) -> u64 {
    match account {
        Some(lamports) => lamports,
        None => 0,
    }
}

/// How many accounts a response answers: as many as were asked for, or as
/// many as it holds, whichever is less.
pub open spec fn answered(named: Seq<NamedAddressView>, response: Seq<Option<u64>>) -> int {
    if named.len() <= response.len() {
        named.len() as int
    } else {
        response.len() as int
    }
}

/// The label values of the balance gauge of a named address.
pub open spec fn gauge_labels(named: NamedAddressView) -> Seq<Seq<char>> {
    balance_labels(named.name, base58_encoded(named.address))
}

/// The balance gauges after the first `n` accounts of a response were taken
/// in: one after the other, the gauge of each account is set to its balance
/// in SOL.
pub open spec fn balances_after(
    before: Map<Seq<Seq<char>>, SolAmount>,
    named: Seq<NamedAddressView>,
    response: Seq<Option<u64>>,
    n: int,
) -> Map<Seq<Seq<char>>, SolAmount>
    decreases n,
{
    if n <= 0 {
        before
    } else {
        balances_after(before, named, response, n - 1).insert(
            gauge_labels(named[n - 1]),
            SolAmount::of_lamports(lamports_of(response[n - 1])),
        )
    }
}

/// Whether `sample` is what a response says of the account `named`.
pub open spec fn sample_matches(
    sample: BalanceSample,
    named: NamedAddressView,
    account: Option<u64>,
) -> bool {
    &&& sample.address@ == named.address
    &&& sample.lamports == lamports_of(account)
    &&& sample.exists == account is Some
}

/// What the fixed-address watcher asks the ledger in one poll.
#[derive(Debug)]
pub struct BalanceRequest {
    /// The accounts to look up. The response answers them in this order.
    pub addresses: Vec<AccountId>,
    /// The part of each account's data to return.
    pub data_slice: DataSlice,
    /// How the data is to be written.
    pub encoding: DataEncoding,
}

/// The watcher of the fixed list of named addresses.
pub struct BalanceWatcher {
    /// What is watched. It never changes.
    pub named: NamedAddresses,
    /// Where the watcher stands in its cycle.
    pub state: WatcherState,
}

impl BalanceWatcher {
    /// A watcher of `named` whose first poll is due.
    pub fn new(named: NamedAddresses) -> (watcher: BalanceWatcher)
        ensures
            watcher.named == named,
            watcher.state == WatcherState::Polling,
    {
        BalanceWatcher { named, state: WatcherState::start() }
    }

    /// What the runner has to do next.
    pub fn next_action(&self) -> (action: WatcherAction)
        ensures
            action == self.state.action(),
    {
        self.state.next_action()
    }

    /// What to ask the ledger in a poll: all the accounts of the list in one
    /// request, in the order of the list, and none of their data.
    pub fn request(&self) -> (request: BalanceRequest)
        ensures
            request.data_slice == DataSlice::empty(),
            request.encoding == DataEncoding::Unspecified,
            request.addresses@.len() == self.named@.len(),
            forall|i: int|
                0 <= i < request.addresses@.len() ==> (#[trigger] request.addresses@[i])@
                    == self.named@[i].address,
    {
        let n = self.named.len();
        let mut addresses: Vec<AccountId> = Vec::new();
        let mut i: usize = 0;
        while i < n
            invariant
                n == self.named@.len(),
                0 <= i <= n,
                addresses@.len() == i,
                forall|k: int|
                    0 <= k < i ==> (#[trigger] addresses@[k])@ == self.named@[k].address,
            decreases n - i,
        {
            addresses.push(self.named.get(i).address);
            i += 1;
        }
        BalanceRequest {
            addresses,
            data_slice: DataSlice::balance_only(),
            encoding: DataEncoding::Unspecified,
        }
    }

    /// Takes what a poll brought: for each account asked for, in the order of
    /// the request, its balance or `None` where it does not exist; or `None`
    /// for all of it where the ledger could not be asked.
    ///
    /// After a response every answered account has its balance gauge set, to
    /// zero where the account does not exist, and the long sleep is due. The
    /// samples returned say the same of each account, in order. After a
    /// failure no balance gauge is left, no sample is returned, and the short
    /// sleep is due. No total gauge changes.
    pub fn handle_response(
        &mut self,
        store: &mut MetricsStore,
        response: Option<&Vec<Option<u64>>>,
    ) -> (samples: Vec<BalanceSample>)
        requires
            old(store).wf(),
        ensures
            final(store).wf(),
            final(self).named == old(self).named,
            final(self).state == WatcherState::after_poll(response is Some),
            final(store).total_balance_sol@ == old(store).total_balance_sol@,
            match response {
                Some(accounts) => {
                    &&& final(store).balance_sol@ == balances_after(
                        old(store).balance_sol@,
                        old(self).named@,
                        accounts@,
                        answered(old(self).named@, accounts@),
                    )
                    &&& samples@.len() == answered(old(self).named@, accounts@)
                    &&& forall|i: int|
                        0 <= i < samples@.len() ==> sample_matches(
                            #[trigger] samples@[i],
                            old(self).named@[i],
                            accounts@[i],
                        )
                },
                None => {
                    &&& final(store).balance_sol@ == Map::<Seq<Seq<char>>, SolAmount>::empty()
                    &&& samples@.len() == 0
                },
            },
    {
        let mut samples: Vec<BalanceSample> = Vec::new();
        let accounts = match response {
            Some(accounts) => accounts,
            None => {
                reset_metric_balance_sol(store);
                self.state = WatcherState::on_poll(false);
                return samples;
            },
        };
        let n = if self.named.len() <= accounts.len() {
            self.named.len()
        } else {
            accounts.len()
        };
        let ghost before = store.balance_sol@;
        let mut i: usize = 0;
        while i < n
            invariant
                n == answered(self.named@, accounts@),
                0 <= i <= n,
                store.wf(),
                store.total_balance_sol@ == old(store).total_balance_sol@,
                store.balance_sol@ == balances_after(before, self.named@, accounts@, i as int),
                samples@.len() == i,
                forall|k: int|
                    0 <= k < i ==> sample_matches(
                        #[trigger] samples@[k],
                        self.named@[k],
                        accounts@[k],
                    ),
            decreases n - i,
        {
            let named = self.named.get(i);
            let (lamports, exists) = match accounts[i] {
                Some(lamports) => (lamports, true),
                None => (0, false),
            };
            let balance = SolAmount::from_lamports(lamports);
            let pubkey = named.address.to_text();
            update_metric_balance_sol(store, named.name.as_str(), pubkey.as_str(), balance);
            samples.push(BalanceSample { address: named.address, lamports, exists });
            i += 1;
        }
        self.state = WatcherState::on_poll(true);
        samples
    }

    /// Takes the end of a sleep: the next poll is due.
    pub fn wake(&mut self)
        ensures
            final(self).named == old(self).named,
            final(self).state == WatcherState::Polling,
    {
        self.state = self.state.on_wake();
    }
}

} // verus!
