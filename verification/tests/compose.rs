use solana_sdk::account_utils::StateMut;
use solana_sdk::bpf_loader_upgradeable::UpgradeableLoaderState;
use valid8::account::{AccountSchema, Network};
use valid8::compose::find_config;
use valid8::context::Valid8Context;
use valid8::error::ContextError;
use valid8::item::{contains_item, duplicate_list, merge_unique, Item};
use valid8::overrides::{same_list, EditField, Override};
use valid8::pubkey::Pubkey;

fn id(n: u8) -> Pubkey {
    Pubkey::new([n; 32])
}

fn account(n: u8, lamports: u64) -> AccountSchema {
    AccountSchema {
        pubkey: id(n),
        network: Network::Devnet,
        owner: id(200),
        lamports,
        executable: false,
        data: vec![n],
    }
}

fn named(name: &str, parent: Option<&str>) -> Valid8Context {
    let mut c = Valid8Context::new(String::from(name));
    c.compose = parent.map(String::from);
    c
}

fn chain(length: usize) -> Vec<Valid8Context> {
    let mut configs = Vec::new();
    for i in 1..=length {
        let parent = if i < length { Some(format!("layer{}.json", i + 1)) } else { None };
        let mut c = Valid8Context::new(format!("layer{}", i));
        c.compose = parent;
        c.accounts.push(account(i as u8, 1));
        configs.push(c);
    }
    configs
}

#[test]
fn compose_without_parent() {
    let mut c = named("root", None);
    c.accounts.push(account(1, 1));
    let (flat, count) = c.try_compose(&vec![]).unwrap();
    assert_eq!(count, 0);
    assert_eq!(flat, c);
}

#[test]
fn compose_chain_of_twenty_succeeds() {
    let root = named("root", Some("layer1.json"));
    let (flat, count) = root.try_compose(&chain(20)).unwrap();
    assert_eq!(count, 20);
    assert_eq!(flat.accounts.len(), 20);
    assert_eq!(flat.accounts[0], account(1, 1));
    assert_eq!(flat.accounts[19], account(20, 1));
    assert_eq!(flat.project_name, "root");
    assert_eq!(flat.compose, Some(String::from("layer1.json")));
}

#[test]
fn compose_chain_of_twenty_one_fails() {
    let root = named("root", Some("layer1.json"));
    assert_eq!(root.try_compose(&chain(21)), Err(ContextError::ComposeDepthExceeded));
}

#[test]
fn compose_chain_that_names_itself_is_cut() {
    let root = named("root", Some("root.json"));
    let configs = vec![root.clone()];
    assert_eq!(root.try_compose(&configs), Err(ContextError::ComposeDepthExceeded));
    let a = named("a", Some("b"));
    let b = named("b", Some("a"));
    assert_eq!(a.try_compose(&vec![a.clone(), b]), Err(ContextError::ComposeDepthExceeded));
}

#[test]
fn compose_with_unknown_parent() {
    let root = named("root", Some("missing.json"));
    assert_eq!(root.try_compose(&chain(3)), Err(ContextError::NotFound));
}

#[test]
fn compose_skips_equal_records_and_appends_distinct_ones() {
    let mut child = named("child", Some("base.json"));
    child.accounts.push(account(1, 1));
    child.accounts.push(account(2, 1));
    child.idls.push(String::from("one"));
    child.networks.push(Network::Devnet);
    let mut base = named("base", None);
    base.accounts.push(account(2, 1));
    base.accounts.push(account(3, 1));
    base.accounts.push(account(1, 99));
    base.programs.push(account(50, 1));
    base.idls.push(String::from("one"));
    base.idls.push(String::from("two"));
    base.networks.push(Network::Mainnet);
    base.networks.push(Network::Devnet);
    let (flat, count) = child.try_compose(&vec![base]).unwrap();
    assert_eq!(count, 1);
    assert_eq!(flat.accounts, vec![account(1, 1), account(2, 1), account(3, 1), account(1, 99)]);
    assert_eq!(flat.programs, vec![account(50, 1)]);
    assert_eq!(flat.idls, vec![String::from("one"), String::from("two")]);
    assert_eq!(flat.networks, vec![Network::Devnet, Network::Mainnet]);
    assert_eq!(flat.overrides, None);
}

#[test]
fn compose_merges_journals_only_into_a_journal() {
    let shared = Override::new(id(1), EditField::Lamports(5));
    let other = Override::new(id(1), EditField::Lamports(6));
    let mut base = named("base", None);
    base.overrides = Some(vec![shared.clone(), other.clone()]);
    let without = named("child", Some("base"));
    let (flat, _) = without.try_compose(&vec![base.clone()]).unwrap();
    assert_eq!(flat.overrides, None);
    let mut with = named("child", Some("base"));
    with.overrides = Some(vec![shared.clone()]);
    let (flat, _) = with.try_compose(&vec![base.clone()]).unwrap();
    assert_eq!(flat.overrides, Some(vec![shared.clone(), other]));
    let mut plain = named("plain", None);
    plain.overrides = Some(vec![shared.clone()]);
    plain.merge_parent(&named("nothing", None));
    assert_eq!(plain.overrides, Some(vec![shared]));
}

#[test]
fn compose_takes_the_first_configuration_of_a_name() {
    let mut first = named("base", None);
    first.accounts.push(account(1, 1));
    let mut second = named("base", None);
    second.accounts.push(account(2, 1));
    let configs = vec![named("other", None), first, second];
    assert_eq!(find_config(&configs, &String::from("base")), Some(1));
    assert_eq!(find_config(&configs, &String::from("none")), None);
    let (flat, _) = named("root", Some("base.json")).try_compose(&configs).unwrap();
    assert_eq!(flat.accounts, vec![account(1, 1)]);
}

#[test]
fn merge_unique_keeps_order_and_drops_repeats() {
    let mut into = vec![String::from("a"), String::from("b")];
    let from = vec![String::from("c"), String::from("a"), String::from("c"), String::from("d")];
    merge_unique(&mut into, &from);
    assert_eq!(into, vec!["a", "b", "c", "d"]);
    assert!(contains_item(&into, &String::from("d")));
    assert!(!contains_item(&into, &String::from("e")));
    assert_eq!(duplicate_list(&into), into);
    assert!(same_list(&into, &duplicate_list(&into)));
    assert!(!same_list(&into, &from));
}

#[test]
fn records_are_compared_field_by_field() {
    let a = account(1, 1);
    assert!(a.same(&a.duplicate()));
    assert!(!a.same(&account(1, 2)));
    let mut b = a.clone();
    b.data.push(0);
    assert!(!a.same(&b));
    let mut c = a.clone();
    c.network = Network::Testnet;
    assert!(!a.same(&c));
    assert!(id(1).same(&id(1)));
    assert!(!id(1).same(&id(2)));
    let mut bytes = [1u8; 32];
    bytes[31] = 2;
    assert!(!id(1).same(&Pubkey::new(bytes)));
    let e = EditField::Data(String::from("{}"));
    assert!(e.same(&e.duplicate()));
    assert!(!e.same(&EditField::Lamports(1)));
    assert!(!EditField::Owner(id(1)).same(&EditField::UpgradeAuthority(id(1))));
    let o = Override::new(id(1), e);
    assert!(o.same(&o.duplicate()));
    assert!(!o.same(&Override::new(id(2), EditField::Lamports(1))));
}

#[test]
fn program_then_override_then_compose() {
    let mut c = Valid8Context::new(String::from("demo"));
    let p = id(9);
    let p_data = id(10);
    let program = AccountSchema {
        pubkey: p,
        network: Network::Devnet,
        owner: id(3),
        lamports: 1,
        executable: true,
        data: vec![2, 0, 0, 0],
    };
    let mut bytes = vec![0u8; 45];
    bytes.extend_from_slice(&[0x7f, 0x45, 0x4c, 0x46]);
    let data = AccountSchema {
        pubkey: p_data,
        network: Network::Devnet,
        owner: id(3),
        lamports: 2,
        executable: false,
        data: bytes,
    };
    assert_eq!(c.add_program_unchecked(Some(program.clone()), Some(data), false), Ok(()));
    assert_eq!(c.programs, vec![program]);
    assert_eq!(c.accounts.len(), 1);
    assert_eq!(c.accounts[0].pubkey, p_data);

    let x = id(77);
    assert_eq!(c.edit_program(&p_data, EditField::UpgradeAuthority(x)), Ok(()));
    assert_eq!(
        c.overrides,
        Some(vec![Override::new(p_data, EditField::UpgradeAuthority(x))])
    );
    let stored = &c.accounts[0];
    let decoded: UpgradeableLoaderState = solana_sdk::account::Account {
        lamports: stored.lamports,
        data: stored.data.clone(),
        owner: solana_sdk::pubkey::Pubkey::new_from_array(stored.owner.bytes),
        executable: stored.executable,
        rent_epoch: 0,
    }
    .state()
    .unwrap();
    assert_eq!(
        decoded,
        UpgradeableLoaderState::ProgramData {
            slot: 0,
            upgrade_authority_address: Some(solana_sdk::pubkey::Pubkey::new_from_array(x.bytes)),
        }
    );
    assert_eq!(&stored.data[45..], &[0x7f, 0x45, 0x4c, 0x46]);

    c.compose = Some(String::from("sibling.json"));
    let mut sibling = Valid8Context::new(String::from("sibling"));
    sibling.accounts.push(account(50, 3));
    let (flat, count) = c.try_compose(&vec![sibling]).unwrap();
    assert_eq!(count, 1);
    assert_eq!(flat.accounts.len(), 2);
    assert_eq!(flat.accounts[0].pubkey, p_data);
    assert_eq!(flat.accounts[1], account(50, 3));
}
