use quota_ledger::identity::Identity;
use quota_ledger::pmid_manager::database::{PmidManagerAccount, PmidManagerDatabase};

fn node_name(seed: u8) -> Identity {
    let mut id = [0u8; 64];
    let mut i = 0;
    while i < 64 {
        id[i] = seed.wrapping_mul(17).wrapping_add((i as u8).wrapping_mul(3));
        i += 1;
    }
    Identity::new(id)
}

#[test]
fn database_exist() {
    let mut db = PmidManagerDatabase::new();
    let name = node_name(1);
    assert_eq!(db.exist(&name), false);
    db.put_data(&name, 1024);
    assert_eq!(db.exist(&name), true);
}

#[test]
fn database_put_data() {
    let mut db = PmidManagerDatabase::new();
    let name = node_name(2);
    assert_eq!(db.put_data(&name, 0), true);
    assert_eq!(db.exist(&name), true);
    assert_eq!(db.put_data(&name, 1), true);
    assert_eq!(db.put_data(&name, 1073741823), true);
    assert_eq!(db.put_data(&name, 1), false);
    assert_eq!(db.put_data(&name, 1), false);
    assert_eq!(db.put_data(&name, 0), true);
    assert_eq!(db.put_data(&name, 1), false);
    assert_eq!(db.exist(&name), true);
}

#[test]
fn node_account_starts_empty_with_the_default_offer() {
    let account = PmidManagerAccount::new();
    assert_eq!(account.get_stored_total_size(), 0);
    assert_eq!(account.get_lost_total_size(), 0);
    assert_eq!(account.get_offered_space(), 1073741824);
}

#[test]
fn node_put_adds_to_the_stored_total_and_never_spends_the_offer() {
    let mut account = PmidManagerAccount::new();
    assert!(account.put_data(400));
    assert!(account.put_data(600));
    assert_eq!(account.get_stored_total_size(), 1000);
    assert_eq!(account.get_offered_space(), 1073741824);
    assert_eq!(account.get_lost_total_size(), 0);
}

#[test]
fn node_put_beyond_the_offer_is_refused_whole() {
    let mut account = PmidManagerAccount::new();
    assert!(account.put_data(1073741824));
    let before = account.clone();
    assert!(!account.put_data(1));
    assert_eq!(account, before);
    assert!(account.put_data(0));
    assert_eq!(account, before);
}

#[test]
fn node_put_of_the_largest_size_is_refused() {
    let mut account = PmidManagerAccount::new();
    assert!(account.put_data(1));
    assert!(!account.put_data(u64::MAX));
    assert_eq!(account.get_stored_total_size(), 1);
    account.set_available_size(u64::MAX);
    assert!(!account.put_data(u64::MAX));
    assert!(account.put_data(u64::MAX - 1));
    assert_eq!(account.get_stored_total_size(), u64::MAX);
}

#[test]
fn node_delete_stops_at_zero() {
    let mut account = PmidManagerAccount::new();
    assert!(account.put_data(10));
    account.delete_data(4);
    assert_eq!(account.get_stored_total_size(), 6);
    account.delete_data(7);
    assert_eq!(account.get_stored_total_size(), 0);
    assert_eq!(account.get_offered_space(), 1073741824);
    assert_eq!(account.get_lost_total_size(), 0);
}

#[test]
fn node_lost_data_leaves_the_stored_total_and_is_recorded() {
    let mut account = PmidManagerAccount::new();
    assert!(account.put_data(100));
    account.handle_lost_data(30);
    assert_eq!(account.get_stored_total_size(), 70);
    assert_eq!(account.get_lost_total_size(), 30);
    account.handle_lost_data(80);
    assert_eq!(account.get_stored_total_size(), 0);
    assert_eq!(account.get_lost_total_size(), 110);
    assert_eq!(account.get_offered_space(), 1073741824);
}

#[test]
fn node_failure_and_update_do_what_lost_data_does() {
    let mut lost = PmidManagerAccount::new();
    let mut failed = PmidManagerAccount::new();
    let mut updated = PmidManagerAccount::new();
    assert!(lost.put_data(50));
    assert!(failed.put_data(50));
    assert!(updated.put_data(50));
    lost.handle_lost_data(20);
    failed.handle_falure(20);
    updated.update_account(20);
    assert_eq!(lost, failed);
    assert_eq!(lost, updated);
    lost.handle_lost_data(31);
    failed.handle_falure(31);
    updated.update_account(31);
    assert_eq!(lost, failed);
    assert_eq!(lost, updated);
    assert_eq!(updated.get_stored_total_size(), 0);
    assert_eq!(updated.get_lost_total_size(), 51);
}

#[test]
fn node_offer_can_be_lowered_below_the_stored_total() {
    let mut account = PmidManagerAccount::new();
    assert!(account.put_data(1000));
    account.set_available_size(10);
    assert_eq!(account.get_offered_space(), 10);
    assert_eq!(account.get_stored_total_size(), 1000);
    assert!(!account.put_data(0));
    assert!(!account.put_data(1));
    account.delete_data(995);
    assert!(account.put_data(5));
    assert!(!account.put_data(1));
    assert_eq!(account.get_stored_total_size(), 10);
}

#[test]
fn node_clone_is_equal_and_independent() {
    let mut account = PmidManagerAccount::new();
    assert!(account.put_data(9));
    let copy = account.clone();
    assert_eq!(copy, account);
    account.handle_lost_data(1);
    assert_ne!(copy, account);
    assert_eq!(copy.get_stored_total_size(), 9);
    assert_eq!(copy.get_lost_total_size(), 0);
}

#[test]
fn node_refused_first_write_still_opens_an_account() {
    let mut db = PmidManagerDatabase::new();
    let a = node_name(3);
    assert_eq!(db.put_data(&a, 1073741825), false);
    assert_eq!(db.exist(&a), true);
    let drained = db.retrieve_all_and_reset(&vec![a]);
    assert_eq!(drained.len(), 1);
    assert_eq!(drained[0].0, a);
    assert_eq!(drained[0].1, PmidManagerAccount::new());
}

#[test]
fn node_drain_hands_out_the_group_and_drops_the_rest() {
    let mut db = PmidManagerDatabase::new();
    let a = node_name(4);
    let b = node_name(5);
    let c = node_name(6);
    let stranger = node_name(7);
    assert_eq!(db.put_data(&a, 100), true);
    assert_eq!(db.put_data(&b, 200), true);
    assert_eq!(db.put_data(&c, 300), true);
    let drained = db.retrieve_all_and_reset(&vec![c, stranger, a]);
    assert_eq!(drained.len(), 2);
    for entry in drained.iter() {
        assert!(entry.0 == a || entry.0 == c);
        assert!(entry.0 != b);
    }
    let of_a: Vec<&(Identity, PmidManagerAccount)> =
        drained.iter().filter(|entry| entry.0 == a).collect();
    let of_c: Vec<&(Identity, PmidManagerAccount)> =
        drained.iter().filter(|entry| entry.0 == c).collect();
    assert_eq!(of_a.len(), 1);
    assert_eq!(of_c.len(), 1);
    assert_eq!(of_a[0].1.get_stored_total_size(), 100);
    assert_eq!(of_c[0].1.get_stored_total_size(), 300);
    assert_eq!(db.exist(&a), false);
    assert_eq!(db.exist(&b), false);
    assert_eq!(db.exist(&c), false);
    assert_eq!(db.retrieve_all_and_reset(&vec![a, b, c]).len(), 0);
}

#[test]
fn node_drain_for_an_empty_group_hands_out_nothing_and_still_empties() {
    let mut db = PmidManagerDatabase::new();
    let a = node_name(8);
    assert_eq!(db.put_data(&a, 1), true);
    let drained = db.retrieve_all_and_reset(&Vec::new());
    assert_eq!(drained.len(), 0);
    assert_eq!(db.exist(&a), false);
}

#[test]
fn node_drain_with_a_name_twice_in_the_group_hands_it_out_once() {
    let mut db = PmidManagerDatabase::new();
    let a = node_name(9);
    assert_eq!(db.put_data(&a, 42), true);
    let drained = db.retrieve_all_and_reset(&vec![a, a]);
    assert_eq!(drained.len(), 1);
    assert_eq!(drained[0].1.get_stored_total_size(), 42);
}

#[test]
fn node_account_is_opened_anew_after_a_drain() {
    let mut db = PmidManagerDatabase::new();
    let a = node_name(10);
    assert_eq!(db.put_data(&a, 1073741824), true);
    assert_eq!(db.put_data(&a, 1), false);
    assert_eq!(db.retrieve_all_and_reset(&Vec::new()).len(), 0);
    assert_eq!(db.put_data(&a, 1073741824), true);
}
