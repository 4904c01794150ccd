use std::str::FromStr;

use valid8::account::{AccountSchema, Network};
use valid8::context::{NextStep, Valid8Context};
use valid8::error::ContextError;
use valid8::overrides::{EditField, Override};
use valid8::pubkey::{is_system_address, Pubkey};

fn key(n: u8) -> Pubkey {
    Pubkey::new([n; 32])
}

fn key_of(address: &str) -> Pubkey {
    Pubkey::new(solana_sdk::pubkey::Pubkey::from_str(address).unwrap().to_bytes())
}

fn record(id: Pubkey, owner: Pubkey, lamports: u64, data: Vec<u8>) -> AccountSchema {
    AccountSchema { pubkey: id, network: Network::Devnet, owner, lamports, executable: false, data }
}

fn empty() -> Valid8Context {
    Valid8Context::new(String::from("demo"))
}

#[test]
fn new_context_is_empty() {
    let c = empty();
    assert_eq!(c.project_name, "demo");
    assert!(c.networks.is_empty());
    assert!(c.programs.is_empty());
    assert!(c.accounts.is_empty());
    assert_eq!(c.overrides, None);
    assert!(c.idls.is_empty());
    assert_eq!(c.compose, None);
}

#[test]
fn address_is_base58_of_the_bytes() {
    assert_eq!(key(0).address(), "11111111111111111111111111111111");
    let token = key_of("TokenkegQfeZyiNwAJbNbGKPFXCWuBvf9Ss623VQ5DA");
    assert_eq!(token.address(), "TokenkegQfeZyiNwAJbNbGKPFXCWuBvf9Ss623VQ5DA");
    assert_eq!(token.bytes[0], 6);
    assert_eq!(token.bytes[31], 169);
}

#[test]
fn system_programs_are_recognised() {
    assert!(key(0).is_system_program());
    assert!(key_of("TokenkegQfeZyiNwAJbNbGKPFXCWuBvf9Ss623VQ5DA").is_system_program());
    assert!(key_of("BPFLoaderUpgradeab1e11111111111111111111111").is_system_program());
    assert!(!key(7).is_system_program());
    assert!(!key_of("BPFLoader2111111111111111111111111111111111").is_system_program());
    assert!(is_system_address("11111111111111111111111111111111"));
    assert!(!is_system_address("1111111111111111111111111111111"));
    assert!(!is_system_address(""));
}

#[test]
fn add_account_asks_for_a_fetch_once() {
    let mut c = empty();
    let k = key(1);
    assert_eq!(c.add_account(&Network::Devnet, &k), NextStep::FetchAccount(Network::Devnet, k));
    let step = c.add_account_unchecked(&Network::Devnet, Some(record(k, key(9), 5, vec![1, 2])));
    assert_eq!(step, Ok(NextStep::FetchProgram(Network::Devnet, key(9))));
    assert!(c.has_account(&k));
    assert!(!c.has_program(&k));
    let before = c.clone();
    assert_eq!(c.add_account(&Network::Devnet, &k), NextStep::Done);
    assert_eq!(c, before);
    assert_eq!(c.accounts.len(), 1);
    assert_eq!(c.networks, vec![Network::Devnet]);
}

#[test]
fn add_account_with_known_owner_is_done() {
    let mut c = empty();
    let program = record(key(9), key(3), 1, vec![]);
    let data = record(key(10), key(3), 1, vec![0; 50]);
    assert_eq!(c.add_program_unchecked(Some(program), Some(data), false), Ok(()));
    let step = c.add_account_unchecked(&Network::Mainnet, Some(record(key(1), key(9), 5, vec![])));
    assert_eq!(step, Ok(NextStep::Done));
    let step = c.add_account_unchecked(&Network::Mainnet, Some(record(key(2), key(9), 5, vec![])));
    assert_eq!(step, Ok(NextStep::Done));
    assert_eq!(c.networks, vec![Network::Mainnet]);
    let step = c.add_account_unchecked(&Network::Testnet, Some(record(key(4), key(9), 5, vec![])));
    assert_eq!(step, Ok(NextStep::Done));
    assert_eq!(c.networks, vec![Network::Mainnet, Network::Testnet]);
    assert_eq!(c.accounts.len(), 4);
}

#[test]
fn failed_account_fetch_changes_nothing() {
    let mut c = empty();
    assert_eq!(
        c.add_account_unchecked(&Network::Devnet, None),
        Err(ContextError::RemoteFetchFailed)
    );
    assert_eq!(c, empty());
}

#[test]
fn add_program_stores_program_and_data() {
    let mut c = empty();
    let p = key(9);
    assert_eq!(c.add_program(&Network::Devnet, &p), NextStep::FetchProgram(Network::Devnet, p));
    let program = record(p, key(3), 1, vec![7]);
    let data = record(key(10), key(3), 2, vec![0; 50]);
    assert_eq!(c.add_program_unchecked(Some(program.clone()), Some(data.clone()), true), Ok(()));
    assert_eq!(c.programs, vec![program]);
    assert_eq!(c.accounts, vec![data]);
    assert_eq!(c.idls, vec![p.address()]);
    assert!(c.networks.is_empty());
    assert_eq!(c.add_program(&Network::Devnet, &p), NextStep::Done);
}

#[test]
fn add_program_without_interface_description() {
    let mut c = empty();
    let program = record(key(9), key(3), 1, vec![7]);
    let data = record(key(10), key(3), 2, vec![0; 50]);
    assert_eq!(c.add_program_unchecked(Some(program), Some(data), false), Ok(()));
    assert!(c.idls.is_empty());
    assert_eq!(c.programs.len(), 1);
    assert_eq!(c.accounts.len(), 1);
}

#[test]
fn system_program_is_never_stored() {
    let mut c = empty();
    let system = record(key(0), key(0), 1, vec![]);
    assert_eq!(c.add_program_unchecked(Some(system.clone()), None, false), Ok(()));
    assert_eq!(c, empty());
    let data = record(key(10), key(3), 2, vec![0; 50]);
    assert_eq!(c.add_program_unchecked(Some(system), Some(data), true), Ok(()));
    assert_eq!(c, empty());
    assert_eq!(
        c.add_program(&Network::Devnet, &key(0)),
        NextStep::FetchProgram(Network::Devnet, key(0))
    );
}

#[test]
fn failed_program_fetch_changes_nothing() {
    let mut c = empty();
    let data = record(key(10), key(3), 2, vec![0; 50]);
    assert_eq!(
        c.add_program_unchecked(None, Some(data), true),
        Err(ContextError::RemoteFetchFailed)
    );
    assert_eq!(c, empty());
    let program = record(key(9), key(3), 1, vec![7]);
    assert_eq!(
        c.add_program_unchecked(Some(program), None, true),
        Err(ContextError::RemoteFetchFailed)
    );
    assert_eq!(c, empty());
}

#[test]
fn add_idl_appends_the_address() {
    let mut c = empty();
    assert_eq!(c.add_idl(&key(0)), Ok(()));
    assert_eq!(c.idls, vec![String::from("11111111111111111111111111111111")]);
    let other = key_of("TokenkegQfeZyiNwAJbNbGKPFXCWuBvf9Ss623VQ5DA");
    assert_eq!(c.add_idl(&other), Ok(()));
    assert_eq!(c.idls[1], "TokenkegQfeZyiNwAJbNbGKPFXCWuBvf9Ss623VQ5DA");
}

#[test]
fn get_account_takes_the_first_match() {
    let mut c = empty();
    c.accounts.push(record(key(1), key(9), 5, vec![]));
    c.accounts.push(record(key(2), key(9), 6, vec![]));
    c.accounts.push(record(key(1), key(9), 7, vec![]));
    let taken = c.get_account(&key(1)).unwrap();
    assert_eq!(taken.lamports, 5);
    assert_eq!(c.accounts.len(), 2);
    assert_eq!(c.accounts[0].lamports, 6);
    assert_eq!(c.accounts[1].lamports, 7);
    assert_eq!(c.get_account(&key(3)), Err(ContextError::NotFound));
    assert_eq!(c.accounts.len(), 2);
}

#[test]
fn add_override_starts_and_extends_the_journal() {
    let mut c = empty();
    let first = Override::new(key(1), EditField::Lamports(3));
    assert_eq!(first.pubkey, key(1));
    assert_eq!(first.edit_fields, vec![EditField::Lamports(3)]);
    c.add_override(first.clone());
    assert_eq!(c.overrides, Some(vec![first.clone()]));
    let second = Override::new(key(2), EditField::Owner(key(5)));
    c.add_override(second.clone());
    assert_eq!(c.overrides, Some(vec![first, second]));
}

#[test]
fn edit_account_replaces_one_field() {
    let mut c = empty();
    c.accounts.push(record(key(1), key(9), 5, vec![1, 2, 3]));
    c.accounts.push(record(key(2), key(9), 6, vec![]));
    assert_eq!(c.edit_account(&key(1), EditField::Lamports(77)), Ok(()));
    assert!(c.has_account(&key(1)));
    assert_eq!(c.accounts.len(), 2);
    assert_eq!(c.accounts[0], record(key(2), key(9), 6, vec![]));
    assert_eq!(c.accounts[1], record(key(1), key(9), 77, vec![1, 2, 3]));
    assert_eq!(c.edit_account(&key(1), EditField::Owner(key(4))), Ok(()));
    assert_eq!(c.accounts[1], record(key(1), key(4), 77, vec![1, 2, 3]));
    assert_eq!(
        c.overrides,
        Some(vec![
            Override::new(key(1), EditField::Lamports(77)),
            Override::new(key(1), EditField::Owner(key(4))),
        ])
    );
}

#[test]
fn edit_account_refuses_what_an_account_lacks() {
    let mut c = empty();
    c.accounts.push(record(key(1), key(9), 5, vec![0; 60]));
    let before = c.clone();
    assert_eq!(
        c.edit_account(&key(1), EditField::UpgradeAuthority(key(4))),
        Err(ContextError::UnsupportedEdit)
    );
    assert_eq!(c, before);
    assert_eq!(
        c.edit_account(&key(1), EditField::Data(String::from("{}"))),
        Err(ContextError::Unimplemented)
    );
    assert_eq!(c, before);
    assert_eq!(c.edit_account(&key(3), EditField::Lamports(1)), Err(ContextError::NotFound));
    assert_eq!(c, before);
}

#[test]
fn edit_program_sets_the_upgrade_authority() {
    let mut c = empty();
    let mut data = vec![0xAAu8; 45];
    data.extend_from_slice(&[1, 2, 3, 4, 5]);
    c.accounts.push(record(key(10), key(3), 2, data));
    assert_eq!(c.edit_program(&key(10), EditField::UpgradeAuthority(key(8))), Ok(()));
    let edited = &c.accounts[0];
    assert_eq!(edited.pubkey, key(10));
    assert_eq!(edited.owner, key(3));
    assert_eq!(edited.lamports, 2);
    assert_eq!(edited.data.len(), 50);
    let mut expected = vec![3u8, 0, 0, 0, 0, 0, 0, 0, 0, 0, 0, 0, 1];
    expected.extend_from_slice(&[8u8; 32]);
    expected.extend_from_slice(&[1, 2, 3, 4, 5]);
    assert_eq!(edited.data, expected);
    assert_eq!(c.overrides, Some(vec![Override::new(key(10), EditField::UpgradeAuthority(key(8)))]));
}

#[test]
fn edit_program_needs_room_for_the_header() {
    let mut c = empty();
    c.accounts.push(record(key(10), key(3), 2, vec![0; 44]));
    let before = c.clone();
    assert_eq!(
        c.edit_program(&key(10), EditField::UpgradeAuthority(key(8))),
        Err(ContextError::SerializationFailed)
    );
    assert_eq!(c, before);
}

#[test]
fn edit_program_other_fields() {
    let mut c = empty();
    c.accounts.push(record(key(10), key(3), 2, vec![9; 3]));
    assert_eq!(c.edit_program(&key(10), EditField::Lamports(11)), Ok(()));
    assert_eq!(c.edit_program(&key(10), EditField::Owner(key(6))), Ok(()));
    assert_eq!(c.edit_program(&key(10), EditField::Data(String::from("[1]"))), Ok(()));
    assert_eq!(c.accounts, vec![record(key(10), key(6), 11, vec![9; 3])]);
    assert_eq!(c.overrides.as_ref().unwrap().len(), 3);
    assert_eq!(c.edit_program(&key(1), EditField::Lamports(11)), Err(ContextError::NotFound));
}

#[test]
fn apply_overrides_replays_the_journal() {
    let mut c = empty();
    c.accounts.push(record(key(1), key(9), 5, vec![]));
    c.accounts.push(record(key(2), key(9), 6, vec![]));
    c.overrides = Some(vec![
        Override { pubkey: key(2), edit_fields: vec![EditField::Lamports(1), EditField::Lamports(40)] },
        Override::new(key(7), EditField::Lamports(3)),
        Override::new(key(1), EditField::Owner(key(4))),
    ]);
    assert_eq!(c.apply_overrides(), Ok(()));
    assert_eq!(
        c.accounts,
        vec![record(key(2), key(9), 40, vec![]), record(key(1), key(4), 5, vec![])]
    );
    assert_eq!(c.overrides.as_ref().unwrap().len(), 6);
    assert_eq!(c.overrides.as_ref().unwrap()[3], Override::new(key(2), EditField::Lamports(1)));
    assert_eq!(c.overrides.as_ref().unwrap()[5], Override::new(key(1), EditField::Owner(key(4))));
    let records = c.accounts.clone();
    assert_eq!(c.apply_overrides(), Ok(()));
    assert_eq!(c.accounts.len(), 2);
    assert!(c.accounts.contains(&records[0]));
    assert!(c.accounts.contains(&records[1]));
    assert_eq!(c.overrides.as_ref().unwrap().len(), 12);
}

#[test]
fn apply_overrides_without_journal() {
    let mut c = empty();
    c.accounts.push(record(key(1), key(9), 5, vec![]));
    let before = c.clone();
    assert_eq!(c.apply_overrides(), Ok(()));
    assert_eq!(c, before);
}

#[test]
fn apply_overrides_stops_at_a_refused_edit() {
    let mut c = empty();
    c.accounts.push(record(key(1), key(9), 5, vec![]));
    c.overrides = Some(vec![
        Override {
            pubkey: key(1),
            edit_fields: vec![
                EditField::Lamports(8),
                EditField::UpgradeAuthority(key(2)),
                EditField::Lamports(9),
            ],
        },
        Override::new(key(1), EditField::Lamports(10)),
    ]);
    assert_eq!(c.apply_overrides(), Err(ContextError::UnsupportedEdit));
    assert_eq!(c.accounts, vec![record(key(1), key(9), 8, vec![])]);
    assert_eq!(c.overrides.as_ref().unwrap().len(), 3);
}

#[test]
fn apply_entry_on_a_program_identifier() {
    let mut c = empty();
    c.programs.push(record(key(9), key(3), 1, vec![]));
    let before = c.clone();
    assert_eq!(
        c.apply_entry(&Override::new(key(9), EditField::Lamports(3))),
        Err(ContextError::NotFound)
    );
    assert_eq!(c, before);
    assert_eq!(c.apply_entry(&Override { pubkey: key(9), edit_fields: vec![] }), Ok(()));
    assert_eq!(c.apply_entry(&Override::new(key(5), EditField::Lamports(3))), Ok(()));
    assert_eq!(c, before);
}

#[test]
fn apply_edits_twice_gives_the_same_record() {
    let mut data = vec![0u8; 45];
    data.extend_from_slice(&[1, 2, 3]);
    let fresh = record(key(10), key(3), 2, data);
    let edits = vec![
        EditField::Lamports(1),
        EditField::UpgradeAuthority(key(5)),
        EditField::Owner(key(6)),
        EditField::UpgradeAuthority(key(7)),
        EditField::Lamports(4),
    ];
    let once = fresh.apply_edits(&edits, true).unwrap();
    let twice = once.clone().apply_edits(&edits, true).unwrap();
    assert_eq!(once, twice);
    assert_eq!(once.lamports, 4);
    assert_eq!(once.owner, key(6));
    assert_eq!(&once.data[13..45], &[7u8; 32]);
    assert_eq!(&once.data[45..], &[1, 2, 3]);
    let plain = record(key(1), key(3), 2, vec![]);
    assert_eq!(plain.clone().apply_edits(&edits, false), Err(ContextError::UnsupportedEdit));
    assert_eq!(plain.clone().apply_edits(&vec![], false), Ok(plain));
}

#[test]
fn error_messages() {
    assert_eq!(ContextError::NotFound.message(), "No account found in context");
    assert_eq!(ContextError::UnsupportedEdit.message(), "No upgrade authority on account");
    assert_eq!(
        ContextError::ComposeDepthExceeded.message(),
        "More than 20 composed configurations"
    );
}

#[test]
fn loaded_records_are_all_or_none() {
    let a = record(key(1), key(9), 5, vec![1]);
    let b = record(key(2), key(9), 6, vec![2]);
    let full = vec![Some(a.clone()), Some(b.clone())];
    let partial = vec![Some(a.clone()), None, Some(b.clone())];
    assert!(Valid8Context::is_installed(&full, &full));
    assert!(!Valid8Context::is_installed(&full, &partial));
    assert!(Valid8Context::is_installed(&vec![], &vec![]));
    let c = Valid8Context::from_loaded(
        String::from("demo"),
        vec![Network::Devnet],
        &partial,
        &full,
        None,
        vec![String::from("x")],
        Some(String::from("base.json")),
    );
    assert!(c.programs.is_empty());
    assert_eq!(c.accounts, vec![a, b]);
    assert_eq!(c.networks, vec![Network::Devnet]);
    assert_eq!(c.idls, vec![String::from("x")]);
    assert_eq!(c.compose, Some(String::from("base.json")));
    assert_eq!(c.project_name, "demo");
}

#[test]
fn ledger_accounts_hold_each_identifier_once() {
    let mut c = empty();
    c.programs.push(record(key(9), key(3), 1, vec![]));
    c.programs.push(record(key(8), key(3), 1, vec![]));
    c.accounts.push(record(key(1), key(9), 5, vec![]));
    c.accounts.push(record(key(9), key(3), 70, vec![1]));
    c.accounts.push(record(key(1), key(9), 6, vec![]));
    c.accounts.push(record(key(2), key(9), 7, vec![]));
    assert_eq!(
        c.ledger_accounts(),
        vec![
            record(key(9), key(3), 70, vec![1]),
            record(key(8), key(3), 1, vec![]),
            record(key(1), key(9), 6, vec![]),
            record(key(2), key(9), 7, vec![]),
        ]
    );
    assert!(empty().ledger_accounts().is_empty());
}

#[test]
fn duplicate_context_is_equal() {
    let mut c = empty();
    c.accounts.push(record(key(1), key(9), 5, vec![4, 5]));
    c.programs.push(record(key(9), key(3), 1, vec![]));
    c.networks.push(Network::Testnet);
    c.idls.push(String::from("x"));
    c.compose = Some(String::from("base"));
    c.add_override(Override::new(key(1), EditField::Data(String::from("{\"a\":1}"))));
    assert_eq!(c.duplicate(), c);
}

#[test]
fn single_edits_on_records() {
    let plain = record(key(1), key(9), 5, vec![1]);
    assert_eq!(
        plain.clone().apply_account_edit(&EditField::Lamports(u64::MAX)),
        Ok(record(key(1), key(9), u64::MAX, vec![1]))
    );
    assert_eq!(
        plain.clone().apply_account_edit(&EditField::Owner(key(2))),
        Ok(record(key(1), key(2), 5, vec![1]))
    );
    assert_eq!(
        plain.clone().apply_program_edit(&EditField::UpgradeAuthority(key(2))),
        Err(ContextError::SerializationFailed)
    );
    let exact = record(key(1), key(9), 5, vec![0xFF; 45]);
    let edited = exact.apply_program_edit(&EditField::UpgradeAuthority(key(2))).unwrap();
    assert_eq!(edited.data.len(), 45);
    assert_eq!(&edited.data[..13], &[3, 0, 0, 0, 0, 0, 0, 0, 0, 0, 0, 0, 1]);
    assert_eq!(&edited.data[13..], &[2u8; 32]);
}
