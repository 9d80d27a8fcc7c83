use solana_balance_watcher::account::AccountId;
use solana_balance_watcher::balance::{
    named_address_from, parse_named_address, NamedAddressError, NamedAddresses,
};
use solana_sdk::pubkey::Pubkey;
use std::str::FromStr;

const TOKEN_PROGRAM: &str = "TokenkegQfeZyiNwAJbNbGKPFXCWuBvf9Ss623VQ5DA";
const SYSTEM_PROGRAM: &str = "11111111111111111111111111111111";
const VOTE_PROGRAM: &str = "Vote111111111111111111111111111111111111111";

fn entries(list: &[&str]) -> Vec<String> {
    list.iter().map(|entry| entry.to_string()).collect()
}

#[test]
fn named_address_has_both_sides_of_the_separator() {
    let named = parse_named_address("treasury=TokenkegQfeZyiNwAJbNbGKPFXCWuBvf9Ss623VQ5DA").unwrap();
    assert_eq!(named.name, "treasury");
    assert_eq!(named.address.to_text(), TOKEN_PROGRAM);
    assert_eq!(named.address.to_bytes(), Pubkey::from_str(TOKEN_PROGRAM).unwrap().to_bytes());
}

#[test]
fn named_address_sides_round_trip_for_every_pair_tried() {
    for name in ["a", "fee payer", "", "ünïcode", "with:colon"] {
        for address in [TOKEN_PROGRAM, SYSTEM_PROGRAM, VOTE_PROGRAM] {
            let named = parse_named_address(&format!("{}={}", name, address)).unwrap();
            assert_eq!(named.name, name);
            assert_eq!(named.address.to_text(), address);
        }
    }
}

#[test]
fn named_address_without_separator_is_refused() {
    assert_eq!(
        parse_named_address("treasury").unwrap_err(),
        NamedAddressError::MissingSeparator
    );
    assert_eq!(parse_named_address("").unwrap_err(), NamedAddressError::MissingSeparator);
    assert_eq!(
        parse_named_address(TOKEN_PROGRAM).unwrap_err(),
        NamedAddressError::MissingSeparator
    );
}

#[test]
fn named_address_with_bad_address_is_refused() {
    assert_eq!(
        parse_named_address("treasury=ProgramXYZ").unwrap_err(),
        NamedAddressError::InvalidAddress
    );
    assert_eq!(parse_named_address("treasury=").unwrap_err(), NamedAddressError::InvalidAddress);
    assert_eq!(
        parse_named_address("a=b=TokenkegQfeZyiNwAJbNbGKPFXCWuBvf9Ss623VQ5DA").unwrap_err(),
        NamedAddressError::InvalidAddress
    );
}

#[test]
fn named_address_from_decides_by_what_was_read() {
    let named = named_address_from("n", AccountId::parse(SYSTEM_PROGRAM)).unwrap();
    assert_eq!(named.name, "n");
    assert_eq!(named.address.to_bytes(), [0u8; 32]);
    assert_eq!(named_address_from("n", None).unwrap_err(), NamedAddressError::InvalidAddress);
}

#[test]
fn same_address_under_two_names_is_a_duplicate() {
    let result = NamedAddresses::from_entries(&entries(&[
        "first=TokenkegQfeZyiNwAJbNbGKPFXCWuBvf9Ss623VQ5DA",
        "second=TokenkegQfeZyiNwAJbNbGKPFXCWuBvf9Ss623VQ5DA",
    ]));
    assert_eq!(result.unwrap_err(), NamedAddressError::DuplicateAddress);
}

#[test]
fn duplicate_is_found_wherever_the_two_entries_stand() {
    let result = NamedAddresses::from_entries(&entries(&[
        "first=TokenkegQfeZyiNwAJbNbGKPFXCWuBvf9Ss623VQ5DA",
        "system=11111111111111111111111111111111",
        "vote=Vote111111111111111111111111111111111111111",
        "second=TokenkegQfeZyiNwAJbNbGKPFXCWuBvf9Ss623VQ5DA",
    ]));
    assert_eq!(result.unwrap_err(), NamedAddressError::DuplicateAddress);
}

#[test]
fn same_address_under_the_same_name_is_accepted_once() {
    let list = NamedAddresses::from_entries(&entries(&[
        "token=TokenkegQfeZyiNwAJbNbGKPFXCWuBvf9Ss623VQ5DA",
        "system=11111111111111111111111111111111",
        "token=TokenkegQfeZyiNwAJbNbGKPFXCWuBvf9Ss623VQ5DA",
    ]))
    .unwrap();
    assert_eq!(list.len(), 2);
    assert_eq!(list.get(0).name, "token");
    assert_eq!(list.get(0).address.to_text(), TOKEN_PROGRAM);
    assert_eq!(list.get(1).name, "system");
    assert_eq!(list.get(1).address.to_text(), SYSTEM_PROGRAM);
}

#[test]
fn same_name_for_two_addresses_is_accepted() {
    let list = NamedAddresses::from_entries(&entries(&[
        "shared=TokenkegQfeZyiNwAJbNbGKPFXCWuBvf9Ss623VQ5DA",
        "shared=11111111111111111111111111111111",
    ]))
    .unwrap();
    assert_eq!(list.len(), 2);
}

#[test]
fn entries_keep_their_order() {
    let list = NamedAddresses::from_entries(&entries(&[
        "vote=Vote111111111111111111111111111111111111111",
        "token=TokenkegQfeZyiNwAJbNbGKPFXCWuBvf9Ss623VQ5DA",
        "system=11111111111111111111111111111111",
    ]))
    .unwrap();
    assert_eq!(list.len(), 3);
    assert_eq!(list.get(0).name, "vote");
    assert_eq!(list.get(1).name, "token");
    assert_eq!(list.get(2).name, "system");
}

#[test]
fn no_entries_make_an_empty_list() {
    let list = NamedAddresses::from_entries(&Vec::new()).unwrap();
    assert_eq!(list.len(), 0);
    assert_eq!(NamedAddresses::new().len(), 0);
}

#[test]
fn the_first_refused_entry_decides_the_error() {
    let malformed_first = NamedAddresses::from_entries(&entries(&[
        "nonsense",
        "a=TokenkegQfeZyiNwAJbNbGKPFXCWuBvf9Ss623VQ5DA",
        "b=TokenkegQfeZyiNwAJbNbGKPFXCWuBvf9Ss623VQ5DA",
    ]));
    assert_eq!(malformed_first.unwrap_err(), NamedAddressError::MissingSeparator);
    let duplicate_first = NamedAddresses::from_entries(&entries(&[
        "a=TokenkegQfeZyiNwAJbNbGKPFXCWuBvf9Ss623VQ5DA",
        "b=TokenkegQfeZyiNwAJbNbGKPFXCWuBvf9Ss623VQ5DA",
        "c=ProgramXYZ",
    ]));
    assert_eq!(duplicate_first.unwrap_err(), NamedAddressError::DuplicateAddress);
    let invalid_first = NamedAddresses::from_entries(&entries(&[
        "a=TokenkegQfeZyiNwAJbNbGKPFXCWuBvf9Ss623VQ5DA",
        "c=ProgramXYZ",
        "b=TokenkegQfeZyiNwAJbNbGKPFXCWuBvf9Ss623VQ5DA",
    ]));
    assert_eq!(invalid_first.unwrap_err(), NamedAddressError::InvalidAddress);
}

#[test]
fn insert_refuses_a_second_name_and_keeps_the_list() {
    let mut list = NamedAddresses::new();
    assert_eq!(list.insert(parse_named_address("a=11111111111111111111111111111111").unwrap()), Ok(()));
    assert_eq!(
        list.insert(parse_named_address("b=11111111111111111111111111111111").unwrap()),
        Err(NamedAddressError::DuplicateAddress)
    );
    assert_eq!(list.len(), 1);
    assert_eq!(list.get(0).name, "a");
    assert_eq!(list.insert(parse_named_address("a=11111111111111111111111111111111").unwrap()), Ok(()));
    assert_eq!(list.len(), 1);
}

#[test]
fn named_address_errors_have_messages() {
    assert_eq!(NamedAddressError::InvalidAddress.message(), "Cannot parse pubkey");
    assert_ne!(
        NamedAddressError::DuplicateAddress.message(),
        NamedAddressError::MissingSeparator.message()
    );
}
