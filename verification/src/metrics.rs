//! The gauge store that the watchers write to.
//!
//! A gauge family holds one value for each list of label values, as a
//! labelled gauge of a metrics registry does. The store has two families:
//! the balance of each watched account, labelled by name and address, and
//! the total balance of each watched group of accounts, labelled by name.

use vstd::prelude::*;
use crate::sol::SolAmount;
use crate::text::texts_of;

verus! {

/// Whether two lists hold the same label values in the same order.
pub fn same_labels(a: &Vec<String>, b: &Vec<String>) -> (same: bool)
    ensures
        same == (texts_of(a@) == texts_of(b@)),
{
    if a.len() != b.len() {
        assert(texts_of(a@).len() != texts_of(b@).len());
        return false;
    }
    let n = a.len();
    let mut i: usize = 0;
    while i < n
        invariant
            n == a@.len(),
            n == b@.len(),
            0 <= i <= n,
            forall|j: int| 0 <= j < i ==> a@[j]@ == b@[j]@,
        decreases n - i,
    {
        if a[i] != b[i] {
            assert(texts_of(a@)[i as int] != texts_of(b@)[i as int]);
            return false;
        }
        i += 1;
    }
    assert(texts_of(a@) =~= texts_of(b@));
    true
}

/// One gauge: its label values and the value it shows.
pub struct Gauge {
    pub labels: Vec<String>,
    pub value: SolAmount,
}

impl Gauge {
    /// The label values that tell this gauge from the others of its family.
    pub open spec fn key(self) -> Seq<Seq<char>> {
        texts_of(self.labels@)
    }
}

/// What a list of gauges shows for each list of label values. Where two
/// gauges had the same label values, the later one would count.
pub open spec fn gauges_map(gauges: Seq<Gauge>) -> Map<Seq<Seq<char>>, SolAmount>
    decreases gauges.len(),
{
    if gauges.len() == 0 {
        Map::empty()
    } else {
        gauges_map(gauges.drop_last()).insert(gauges.last().key(), gauges.last().value)
    }
}

/// No two gauges of the list have the same label values.
pub open spec fn distinct_keys(gauges: Seq<Gauge>) -> bool {
    forall|i: int, j: int|
        0 <= i < j < gauges.len() ==> (#[trigger] gauges[i]).key() != (#[trigger] gauges[j]).key()
}

/// Label values that no gauge of the list has are shown no value.
proof fn lemma_absent(gauges: Seq<Gauge>, key: Seq<Seq<char>>)
    requires
        forall|i: int| 0 <= i < gauges.len() ==> (#[trigger] gauges[i]).key() != key,
    ensures
        !gauges_map(gauges).contains_key(key),
    decreases gauges.len(),
{
    if gauges.len() > 0 {
        let front = gauges.drop_last();
        assert forall|i: int| 0 <= i < front.len() implies (#[trigger] front[i]).key() != key by {
            assert(front[i] == gauges[i]);
        }
        lemma_absent(front, key);
        assert(gauges.last() == gauges[gauges.len() - 1]);
    }
}

/// A list with distinct label values stays so without its last gauge, and
/// what is left shows nothing for the label values of that gauge.
proof fn lemma_distinct_front(gauges: Seq<Gauge>)
    requires
        distinct_keys(gauges),
        gauges.len() > 0,
    ensures
        distinct_keys(gauges.drop_last()),
        !gauges_map(gauges.drop_last()).contains_key(gauges.last().key()),
{
    let front = gauges.drop_last();
    assert forall|i: int, j: int| 0 <= i < j < front.len() implies (#[trigger] front[i]).key() != (
    #[trigger] front[j]).key() by {
        assert(front[i] == gauges[i]);
        assert(front[j] == gauges[j]);
    }
    assert forall|i: int| 0 <= i < front.len() implies (#[trigger] front[i]).key()
        != gauges.last().key() by {
        assert(front[i] == gauges[i]);
        assert(gauges.last() == gauges[gauges.len() - 1]);
    }
    lemma_absent(front, gauges.last().key());
}

/// In a list with distinct label values every gauge is shown with its own
/// value.
proof fn lemma_present(gauges: Seq<Gauge>, i: int)
    requires
        distinct_keys(gauges),
        0 <= i < gauges.len(),
    ensures
        gauges_map(gauges).contains_key(gauges[i].key()),
        gauges_map(gauges)[gauges[i].key()] == gauges[i].value,
    decreases gauges.len(),
{
    let front = gauges.drop_last();
    if i < gauges.len() - 1 {
        lemma_distinct_front(gauges);
        lemma_present(front, i);
        assert(front[i] == gauges[i]);
        assert(gauges.last() == gauges[gauges.len() - 1]);
    }
}

/// Putting a gauge in the place of one with the same label values sets the
/// value shown for them, and nothing else.
proof fn lemma_update(gauges: Seq<Gauge>, i: int, gauge: Gauge)
    requires
        distinct_keys(gauges),
        0 <= i < gauges.len(),
        gauge.key() == gauges[i].key(),
    ensures
        distinct_keys(gauges.update(i, gauge)),
        gauges_map(gauges.update(i, gauge)) == gauges_map(gauges).insert(gauge.key(), gauge.value),
    decreases gauges.len(),
{
    let after = gauges.update(i, gauge);
    assert forall|a: int, b: int| 0 <= a < b < after.len() implies (#[trigger] after[a]).key() != (
    #[trigger] after[b]).key() by {
        assert(after[a].key() == gauges[a].key());
        assert(after[b].key() == gauges[b].key());
    }
    let front = gauges.drop_last();
    if i == gauges.len() - 1 {
        assert(after.drop_last() == front);
        assert(gauges_map(after) =~= gauges_map(gauges).insert(gauge.key(), gauge.value));
    } else {
        lemma_distinct_front(gauges);
        lemma_update(front, i, gauge);
        assert(after.drop_last() == front.update(i, gauge));
        assert(after.last() == gauges.last());
        assert(gauges.last() == gauges[gauges.len() - 1]);
        assert(gauges.last().key() != gauge.key());
        assert(gauges_map(after) =~= gauges_map(gauges).insert(gauge.key(), gauge.value));
    }
}

/// Taking a gauge out of the list takes out what is shown for its label
/// values, and nothing else.
proof fn lemma_remove(gauges: Seq<Gauge>, i: int)
    requires
        distinct_keys(gauges),
        0 <= i < gauges.len(),
    ensures
        distinct_keys(gauges.remove(i)),
        gauges_map(gauges.remove(i)) == gauges_map(gauges).remove(gauges[i].key()),
    decreases gauges.len(),
{
    let after = gauges.remove(i);
    assert forall|a: int, b: int| 0 <= a < b < after.len() implies (#[trigger] after[a]).key() != (
    #[trigger] after[b]).key() by {
        assert(after[a] == gauges[if a < i { a } else { a + 1 }]);
        assert(after[b] == gauges[if b < i { b } else { b + 1 }]);
    }
    let front = gauges.drop_last();
    lemma_distinct_front(gauges);
    if i == gauges.len() - 1 {
        assert(after == front);
        assert(gauges_map(after) =~= gauges_map(gauges).remove(gauges[i].key()));
    } else {
        lemma_remove(front, i);
        assert(after.drop_last() == front.remove(i));
        assert(after.last() == gauges.last());
        assert(front[i] == gauges[i]);
        assert(gauges.last() == gauges[gauges.len() - 1]);
        assert(gauges.last().key() != gauges[i].key());
        assert(gauges_map(after) =~= gauges_map(gauges).remove(gauges[i].key()));
    }
}

/// A family of gauges, at most one for each list of label values.
pub struct GaugeFamily {
    gauges: Vec<Gauge>,
}

impl View for GaugeFamily {
    type V = Map<Seq<Seq<char>>, SolAmount>;

    /// The value shown for each list of label values that has a gauge.
    closed spec fn view(&self) -> Map<Seq<Seq<char>>, SolAmount> {
        gauges_map(self.gauges@)
    }
}

impl GaugeFamily {
    /// No two gauges of the family have the same label values. Every
    /// function here keeps this.
    pub closed spec fn wf(&self) -> bool {
        distinct_keys(self.gauges@)
    }

    /// A family without gauges.
    pub fn new() -> (family: GaugeFamily)
        ensures
            family.wf(),
            family@ == Map::<Seq<Seq<char>>, SolAmount>::empty(),
    {
        GaugeFamily { gauges: Vec::new() }
    }

    /// Where the gauge with these label values stands, if there is one.
    fn position(&self, labels: &Vec<String>) -> (at: Option<usize>)
        ensures
            match at {
                Some(i) => i < self.gauges@.len() && self.gauges@[i as int].key() == texts_of(
                    labels@,
                ),
                None => !self@.contains_key(texts_of(labels@)),
            },
    {
        let n = self.gauges.len();
        let mut i: usize = 0;
        while i < n
            invariant
                n == self.gauges@.len(),
                0 <= i <= n,
                forall|j: int|
                    0 <= j < i ==> (#[trigger] self.gauges@[j]).key() != texts_of(labels@),
            decreases n - i,
        {
            if same_labels(&self.gauges[i].labels, labels) {
                return Some(i);
            }
            i += 1;
        }
        proof {
            lemma_absent(self.gauges@, texts_of(labels@));
        }
        None
    }

    /// The value of the gauge with these label values, if there is one.
    pub fn get(&self, labels: &Vec<String>) -> (value: Option<SolAmount>)
        requires
            self.wf(),
        ensures
            value == (if self@.contains_key(texts_of(labels@)) {
                Some(self@[texts_of(labels@)])
            } else {
                None
            }),
    {
        match self.position(labels) {
            Some(i) => {
                proof {
                    lemma_present(self.gauges@, i as int);
                }
                Some(self.gauges[i].value)
            },
            None => None,
        }
    }

    /// Sets the gauge with these label values, making it where there is none.
    /// The other gauges keep their values.
    pub fn set(&mut self, labels: Vec<String>, value: SolAmount)
        requires
            old(self).wf(),
        ensures
            final(self).wf(),
            final(self)@ == old(self)@.insert(texts_of(labels@), value),
    {
        let at = self.position(&labels);
        let gauge = Gauge { labels, value };
        match at {
            Some(i) => {
                proof {
                    lemma_update(self.gauges@, i as int, gauge);
                }
                self.gauges.set(i, gauge);
            },
            None => {
                proof {
                    lemma_push(self.gauges@, gauge);
                }
                self.gauges.push(gauge);
            },
        }
    }

    /// Removes the gauge with these label values. Returns whether there was
    /// one. The other gauges stay.
    pub fn remove(&mut self, labels: &Vec<String>) -> (removed: bool)
        requires
            old(self).wf(),
        ensures
            final(self).wf(),
            removed == old(self)@.contains_key(texts_of(labels@)),
            final(self)@ == old(self)@.remove(texts_of(labels@)),
    {
        match self.position(labels) {
            Some(i) => {
                proof {
                    lemma_remove(self.gauges@, i as int);
                    lemma_present(self.gauges@, i as int);
                }
                self.gauges.remove(i);
                true
            },
            None => {
                assert(self@.remove(texts_of(labels@)) =~= self@);
                false
            },
        }
    }

    /// Removes every gauge of the family.
    pub fn reset(&mut self)
        ensures
            final(self).wf(),
            final(self)@ == Map::<Seq<Seq<char>>, SolAmount>::empty(),
    {
        self.gauges.clear();
    }
}

/// Adding a gauge with label values that are not yet shown shows its value
/// for them, and nothing else changes.
proof fn lemma_push(gauges: Seq<Gauge>, gauge: Gauge)
    requires
        distinct_keys(gauges),
        !gauges_map(gauges).contains_key(gauge.key()),
    ensures
        distinct_keys(gauges.push(gauge)),
        gauges_map(gauges.push(gauge)) == gauges_map(gauges).insert(gauge.key(), gauge.value),
{
    let after = gauges.push(gauge);
    assert(after.drop_last() == gauges);
    assert forall|a: int, b: int| 0 <= a < b < after.len() implies (#[trigger] after[a]).key() != (
    #[trigger] after[b]).key() by {
        if b == gauges.len() {
            lemma_present(gauges, a);
        }
    }
}

impl GaugeFamily {
    /// The gauges of the family, for showing them.
    pub fn gauges(&self) -> (gauges: &Vec<Gauge>)
        requires
            self.wf(),
        ensures
            distinct_keys(gauges@),
            gauges_map(gauges@) == self@,
    {
        &self.gauges
    }
}

/// The label values of an account's balance gauge: the name, then the address.
pub open spec fn balance_labels(name: Seq<char>, pubkey: Seq<char>) -> Seq<Seq<char>> {
    seq![name, pubkey]
}

/// The label values of a group's total gauge: the name alone.
pub open spec fn total_labels(name: Seq<char>) -> Seq<Seq<char>> {
    seq![name]
}

/// The gauges of the process: made once, and handed to every watcher and to
/// whatever shows them.
pub struct MetricsStore {
    /// SOL in each watched account, by name and address.
    pub balance_sol: GaugeFamily,
    /// SOL in each watched group of accounts, by name.
    pub total_balance_sol: GaugeFamily,
}

impl MetricsStore {
    /// Both families are well formed.
    pub open spec fn wf(&self) -> bool {
        self.balance_sol.wf() && self.total_balance_sol.wf()
    }

    /// A store without gauges.
    pub fn new() -> (store: MetricsStore)
        ensures
            store.wf(),
            store.balance_sol@ == Map::<Seq<Seq<char>>, SolAmount>::empty(),
            store.total_balance_sol@ == Map::<Seq<Seq<char>>, SolAmount>::empty(),
    {
        MetricsStore { balance_sol: GaugeFamily::new(), total_balance_sol: GaugeFamily::new() }
    }

    /// What the balance gauge of this name and address shows, if it exists.
    pub fn balance_of(&self, name: &str, pubkey: &str) -> (value: Option<SolAmount>)
        requires
            self.wf(),
        ensures
            value == (if self.balance_sol@.contains_key(balance_labels(name@, pubkey@)) {
                Some(self.balance_sol@[balance_labels(name@, pubkey@)])
            } else {
                None
            }),
    {
        let labels = balance_label_values(name, pubkey);
        self.balance_sol.get(&labels)
    }

    /// What the total gauge of this name shows, if it exists.
    pub fn total_of(&self, name: &str) -> (value: Option<SolAmount>)
        requires
            self.wf(),
        ensures
            value == (if self.total_balance_sol@.contains_key(total_labels(name@)) {
                Some(self.total_balance_sol@[total_labels(name@)])
            } else {
                None
            }),
    {
        let labels = total_label_values(name);
        self.total_balance_sol.get(&labels)
    }
}

fn balance_label_values(name: &str, pubkey: &str) -> (labels: Vec<String>)
    ensures
        texts_of(labels@) == balance_labels(name@, pubkey@),
{
    let mut labels: Vec<String> = Vec::new();
    labels.push(name.to_owned());
    labels.push(pubkey.to_owned());
    assert(texts_of(labels@) =~= balance_labels(name@, pubkey@));
    labels
}

fn total_label_values(name: &str) -> (labels: Vec<String>)
    ensures
        texts_of(labels@) == total_labels(name@),
{
    let mut labels: Vec<String> = Vec::new();
    labels.push(name.to_owned());
    assert(texts_of(labels@) =~= total_labels(name@));
    labels
}

/// Sets the balance gauge of this name and address to `sol`, making the
/// gauge where there is none. No other gauge changes.
pub fn update_metric_balance_sol(store: &mut MetricsStore, name: &str, pubkey: &str, sol: SolAmount)
    requires
        old(store).wf(),
    ensures
        final(store).wf(),
        final(store).balance_sol@ == old(store).balance_sol@.insert(
            balance_labels(name@, pubkey@),
            sol,
        ),
        final(store).total_balance_sol@ == old(store).total_balance_sol@,
{
    let labels = balance_label_values(name, pubkey);
    store.balance_sol.set(labels, sol);
}

/// Sets the total gauge of this name to `sol`, making the gauge where there
/// is none. No other gauge changes.
pub fn update_metric_total_balance_sol(store: &mut MetricsStore, name: &str, sol: SolAmount)
    requires
        old(store).wf(),
    ensures
        final(store).wf(),
        final(store).total_balance_sol@ == old(store).total_balance_sol@.insert(
            total_labels(name@),
            sol,
        ),
        final(store).balance_sol@ == old(store).balance_sol@,
{
    let labels = total_label_values(name);
    store.total_balance_sol.set(labels, sol);
}

/// Removes every balance gauge. The total gauges stay.
pub fn reset_metric_balance_sol(store: &mut MetricsStore)
    requires
        old(store).wf(),
    ensures
        final(store).wf(),
        final(store).balance_sol@ == Map::<Seq<Seq<char>>, SolAmount>::empty(),
        final(store).total_balance_sol@ == old(store).total_balance_sol@,
{
    store.balance_sol.reset();
}

/// Removes the total gauge of this name, if there is one. No other gauge
/// changes.
pub fn remove_metric_total_balance_sol(store: &mut MetricsStore, name: &str)
    requires
        old(store).wf(),
    ensures
        final(store).wf(),
        final(store).total_balance_sol@ == old(store).total_balance_sol@.remove(
            total_labels(name@),
        ),
        final(store).balance_sol@ == old(store).balance_sol@,
{
    let labels = total_label_values(name);
    let _ = store.total_balance_sol.remove(&labels);
}

/// Setting a gauge is idempotent: setting it a second time to the same value
/// changes nothing, and of two values the later one stays.
pub proof fn lemma_set_is_idempotent(
    gauges: Map<Seq<Seq<char>>, SolAmount>,
    labels: Seq<Seq<char>>,
    earlier: SolAmount,
    later: SolAmount,
)
    ensures
        gauges.insert(labels, later).insert(labels, later) == gauges.insert(labels, later),
        gauges.insert(labels, earlier).insert(labels, later) == gauges.insert(labels, later),
{
    assert(gauges.insert(labels, later).insert(labels, later) =~= gauges.insert(labels, later));
    assert(gauges.insert(labels, earlier).insert(labels, later) =~= gauges.insert(labels, later));
}

/// Removing a gauge leaves every other gauge as it was, and removing it a
/// second time changes nothing.
pub proof fn lemma_remove_keeps_others(
    gauges: Map<Seq<Seq<char>>, SolAmount>,
    labels: Seq<Seq<char>>,
    other: Seq<Seq<char>>,
)
    requires
        other != labels,
    ensures
        gauges.remove(labels).contains_key(other) == gauges.contains_key(other),
        gauges.contains_key(other) ==> gauges.remove(labels)[other] == gauges[other],
        !gauges.remove(labels).contains_key(labels),
        gauges.remove(labels).remove(labels) == gauges.remove(labels),
{
    assert(gauges.remove(labels).remove(labels) =~= gauges.remove(labels));
}

} // verus!
