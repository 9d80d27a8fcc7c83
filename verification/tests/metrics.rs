use solana_balance_watcher::metrics::{
    remove_metric_total_balance_sol, reset_metric_balance_sol, same_labels,
    update_metric_balance_sol, update_metric_total_balance_sol, GaugeFamily, MetricsStore,
};
use solana_balance_watcher::sol::{SolAmount, LAMPORTS_PER_SOL};

fn labels(values: &[&str]) -> Vec<String> {
    values.iter().map(|value| value.to_string()).collect()
}

fn sol(whole: u64, nanos: u32) -> SolAmount {
    SolAmount { whole, nanos }
}

#[test]
fn sol_amount_is_lamports_divided_by_ten_to_the_ninth() {
    assert_eq!(LAMPORTS_PER_SOL, 1_000_000_000);
    assert_eq!(SolAmount::from_lamports(0), sol(0, 0));
    assert_eq!(SolAmount::from_lamports(1), sol(0, 1));
    assert_eq!(SolAmount::from_lamports(600), sol(0, 600));
    assert_eq!(SolAmount::from_lamports(999_999_999), sol(0, 999_999_999));
    assert_eq!(SolAmount::from_lamports(1_000_000_000), sol(1, 0));
    assert_eq!(SolAmount::from_lamports(1_500_000_000), sol(1, 500_000_000));
    assert_eq!(SolAmount::from_lamports(u64::MAX), sol(18_446_744_073, 709_551_615));
}

#[test]
fn sol_amount_gives_its_lamports_back() {
    for lamports in [0u64, 1, 600, 999_999_999, 1_000_000_000, 123_456_789_012, u64::MAX] {
        assert_eq!(SolAmount::from_lamports(lamports).lamports(), Some(lamports));
    }
    assert_eq!(sol(18_446_744_073, 709_551_616).lamports(), None);
    assert_eq!(sol(u64::MAX, 0).lamports(), None);
}

#[test]
fn same_labels_compares_values_in_order() {
    assert!(same_labels(&labels(&["a", "b"]), &labels(&["a", "b"])));
    assert!(!same_labels(&labels(&["a", "b"]), &labels(&["b", "a"])));
    assert!(!same_labels(&labels(&["a"]), &labels(&["a", "b"])));
    assert!(same_labels(&labels(&[]), &labels(&[])));
}

#[test]
fn gauge_family_set_makes_and_overwrites() {
    let mut family = GaugeFamily::new();
    assert_eq!(family.get(&labels(&["a"])), None);
    family.set(labels(&["a"]), sol(1, 0));
    family.set(labels(&["b"]), sol(2, 0));
    assert_eq!(family.get(&labels(&["a"])), Some(sol(1, 0)));
    assert_eq!(family.get(&labels(&["b"])), Some(sol(2, 0)));
    family.set(labels(&["a"]), sol(3, 5));
    assert_eq!(family.get(&labels(&["a"])), Some(sol(3, 5)));
    assert_eq!(family.get(&labels(&["b"])), Some(sol(2, 0)));
    assert_eq!(family.gauges().len(), 2);
}

#[test]
fn gauge_family_set_is_idempotent() {
    let mut family = GaugeFamily::new();
    family.set(labels(&["a", "x"]), sol(1, 0));
    family.set(labels(&["a", "x"]), sol(1, 0));
    assert_eq!(family.gauges().len(), 1);
    assert_eq!(family.get(&labels(&["a", "x"])), Some(sol(1, 0)));
}

#[test]
fn gauge_family_remove_takes_one_gauge() {
    let mut family = GaugeFamily::new();
    family.set(labels(&["a"]), sol(1, 0));
    family.set(labels(&["b"]), sol(2, 0));
    family.set(labels(&["c"]), sol(3, 0));
    assert!(family.remove(&labels(&["b"])));
    assert!(!family.remove(&labels(&["b"])));
    assert_eq!(family.get(&labels(&["a"])), Some(sol(1, 0)));
    assert_eq!(family.get(&labels(&["b"])), None);
    assert_eq!(family.get(&labels(&["c"])), Some(sol(3, 0)));
    assert_eq!(family.gauges().len(), 2);
}

#[test]
fn gauge_family_reset_takes_all_gauges() {
    let mut family = GaugeFamily::new();
    family.set(labels(&["a"]), sol(1, 0));
    family.set(labels(&["b"]), sol(2, 0));
    family.reset();
    assert_eq!(family.get(&labels(&["a"])), None);
    assert_eq!(family.get(&labels(&["b"])), None);
    assert!(family.gauges().is_empty());
}

#[test]
fn gauge_family_shows_its_gauges() {
    let mut family = GaugeFamily::new();
    family.set(labels(&["a", "x"]), sol(1, 2));
    let gauges = family.gauges();
    assert_eq!(gauges.len(), 1);
    assert_eq!(gauges[0].labels, labels(&["a", "x"]));
    assert_eq!(gauges[0].value, sol(1, 2));
}

#[test]
fn update_balance_sets_the_gauge_of_name_and_address() {
    let mut store = MetricsStore::new();
    update_metric_balance_sol(&mut store, "alice", "addr1", sol(1, 0));
    update_metric_balance_sol(&mut store, "alice", "addr2", sol(2, 0));
    update_metric_balance_sol(&mut store, "bob", "addr1", sol(3, 0));
    assert_eq!(store.balance_of("alice", "addr1"), Some(sol(1, 0)));
    assert_eq!(store.balance_of("alice", "addr2"), Some(sol(2, 0)));
    assert_eq!(store.balance_of("bob", "addr1"), Some(sol(3, 0)));
    assert_eq!(store.balance_of("bob", "addr2"), None);
    assert_eq!(store.balance_of("addr1", "alice"), None);
    update_metric_balance_sol(&mut store, "alice", "addr1", sol(0, 7));
    assert_eq!(store.balance_of("alice", "addr1"), Some(sol(0, 7)));
    assert_eq!(store.balance_sol.gauges().len(), 3);
    assert!(store.total_balance_sol.gauges().is_empty());
}

#[test]
fn update_total_sets_the_gauge_of_the_name() {
    let mut store = MetricsStore::new();
    update_metric_total_balance_sol(&mut store, "treasury", sol(5, 0));
    update_metric_total_balance_sol(&mut store, "fees", sol(6, 0));
    update_metric_total_balance_sol(&mut store, "treasury", sol(7, 0));
    assert_eq!(store.total_of("treasury"), Some(sol(7, 0)));
    assert_eq!(store.total_of("fees"), Some(sol(6, 0)));
    assert_eq!(store.total_of("other"), None);
    assert!(store.balance_sol.gauges().is_empty());
}

#[test]
fn reset_clears_balances_and_keeps_totals() {
    let mut store = MetricsStore::new();
    update_metric_balance_sol(&mut store, "alice", "addr1", sol(1, 0));
    update_metric_balance_sol(&mut store, "bob", "addr2", sol(2, 0));
    update_metric_total_balance_sol(&mut store, "treasury", sol(5, 0));
    reset_metric_balance_sol(&mut store);
    assert_eq!(store.balance_of("alice", "addr1"), None);
    assert_eq!(store.balance_of("bob", "addr2"), None);
    assert!(store.balance_sol.gauges().is_empty());
    assert_eq!(store.total_of("treasury"), Some(sol(5, 0)));
    reset_metric_balance_sol(&mut store);
    assert!(store.balance_sol.gauges().is_empty());
}

#[test]
fn remove_total_takes_one_target_and_keeps_the_rest() {
    let mut store = MetricsStore::new();
    update_metric_balance_sol(&mut store, "treasury", "addr1", sol(1, 0));
    update_metric_total_balance_sol(&mut store, "treasury", sol(5, 0));
    update_metric_total_balance_sol(&mut store, "fees", sol(6, 0));
    remove_metric_total_balance_sol(&mut store, "treasury");
    assert_eq!(store.total_of("treasury"), None);
    assert_eq!(store.total_of("fees"), Some(sol(6, 0)));
    assert_eq!(store.balance_of("treasury", "addr1"), Some(sol(1, 0)));
    remove_metric_total_balance_sol(&mut store, "treasury");
    remove_metric_total_balance_sol(&mut store, "never there");
    assert_eq!(store.total_of("fees"), Some(sol(6, 0)));
    assert_eq!(store.total_balance_sol.gauges().len(), 1);
}
