use alloy_primitives::keccak256;
use debank_trace::primitives::{Address, H256, U256};
use debank_trace::rlp::RlpEncode;
use debank_trace::state_diff::{
    accounts_with_code, get_storage_contracts_from_bundle, get_storage_contracts_from_genesis,
    get_storage_diffs_from_bundle, AccountInfo, AccountStorageDiff, BlockStorageDiff,
    BundleAccount, BundleState, Genesis, GenesisAccount, IndexValuePair, NewAccount, NewCode,
    PreState,
};

fn address(b: u8) -> Address {
    Address { bytes: [b; 20] }
}

fn hash(b: u8) -> H256 {
    H256 { bytes: [b; 32] }
}

fn word(n: u64) -> U256 {
    U256 { limbs: [n, 0, 0, 0] }
}

fn keccak(bytes: &[u8]) -> H256 {
    H256 { bytes: keccak256(bytes).0 }
}

fn hex_bytes(text: &str) -> Vec<u8> {
    alloy_primitives::hex::decode(text).unwrap()
}

fn genesis() -> Genesis {
    Genesis {
        alloc: vec![
            (
                address(1),
                GenesisAccount {
                    nonce: Some(3),
                    balance: word(10),
                    code: Some(vec![0x60]),
                    storage: Some(vec![(hash(1), hash(2)), (hash(3), hash(0))]),
                },
            ),
            (
                address(2),
                GenesisAccount {
                    nonce: None,
                    balance: word(0),
                    code: None,
                    storage: Some(vec![]),
                },
            ),
            (
                address(3),
                GenesisAccount { nonce: None, balance: word(5), code: Some(vec![]), storage: None },
            ),
        ],
    }
}

fn info(code: Option<Vec<u8>>) -> AccountInfo {
    AccountInfo { balance: word(8), nonce: 2, code_hash: hash(0xcc), code }
}

fn bundle() -> BundleState {
    BundleState {
        state: vec![
            (
                address(1),
                BundleAccount { info: Some(info(Some(vec![1, 2]))), storage: vec![(word(7), word(9))] },
            ),
            (address(2), BundleAccount { info: None, storage: vec![(word(1), word(0))] }),
            (address(3), BundleAccount { info: Some(info(None)), storage: vec![] }),
            (address(4), BundleAccount { info: Some(info(Some(vec![3]))), storage: vec![] }),
        ],
    }
}

#[test]
fn genesis_accounts_with_storage() {
    assert_eq!(get_storage_contracts_from_genesis(&genesis()), vec![address(1), address(2)]);
}

#[test]
fn genesis_as_a_difference() {
    let diff = BlockStorageDiff::from(&genesis());
    assert_eq!(diff.hash, hash(0));
    assert_eq!(diff.parent_hash.bytes, alloy_consensus::constants::EMPTY_ROOT_HASH.0);
    assert_eq!(
        diff.parent_hash.bytes.to_vec(),
        hex_bytes("56e81f171bcc55a6ff8345e692c0f86e5b48e01b996cadc001622fb5e363b421")
    );
    assert!(diff.deleted_accounts.is_empty());
    assert_eq!(
        diff.new_accounts,
        vec![
            NewAccount {
                address: keccak(&[1; 20]),
                balance: word(10),
                nonce: 3,
                code_hash: keccak(&[0x60]),
            },
            NewAccount {
                address: keccak(&[2; 20]),
                balance: word(0),
                nonce: 0,
                code_hash: keccak(&[]),
            },
            NewAccount {
                address: keccak(&[3; 20]),
                balance: word(5),
                nonce: 0,
                code_hash: keccak(&[]),
            },
        ]
    );
    assert_eq!(
        diff.new_codes,
        vec![
            NewCode { code_hash: keccak(&[0x60]), code: vec![0x60] },
            NewCode { code_hash: keccak(&[]), code: vec![] },
        ]
    );
    let two = U256 { limbs: [0x0202_0202_0202_0202; 4] };
    assert_eq!(
        diff.storage_diffs,
        vec![AccountStorageDiff {
            address: keccak(&[1; 20]),
            diffs: vec![
                IndexValuePair { index: keccak(&[1; 32]), value: two },
                IndexValuePair { index: keccak(&[3; 32]), value: word(0) },
            ],
        }]
    );
}

#[test]
fn digest_of_nothing() {
    let diff = BlockStorageDiff::from(&genesis());
    assert_eq!(
        diff.new_accounts[1].code_hash.bytes.to_vec(),
        hex_bytes("c5d2460186f7233c927e7db2dcc703c0e500b653ca82273b7bfad8045d85a470")
    );
}

#[test]
fn storage_values_are_big_endian() {
    let mut genesis = genesis();
    let mut value = hash(0);
    value.bytes[31] = 5;
    value.bytes[0] = 1;
    genesis.alloc[0].1.storage = Some(vec![(hash(1), value)]);
    let diff = BlockStorageDiff::from(&genesis);
    assert_eq!(diff.storage_diffs[0].diffs[0].value, U256 { limbs: [5, 0, 0, 1 << 56] });
}

#[test]
fn touched_storage() {
    assert_eq!(get_storage_contracts_from_bundle(&bundle()), vec![address(1), address(2)]);
}

#[test]
fn accounts_whose_code_is_looked_up() {
    assert_eq!(accounts_with_code(&bundle()), vec![address(1), address(4)]);
}

#[test]
fn other_lookups_do_not_matter() {
    let known = vec![(address(4), hash(0xcc))];
    let mut more = known.clone();
    more.push((address(2), hash(0xcc)));
    more.push((address(3), hash(0xcc)));
    assert_eq!(
        get_storage_diffs_from_bundle(bundle(), &PreState { code_hashes: known }),
        get_storage_diffs_from_bundle(bundle(), &PreState { code_hashes: more })
    );
}

#[test]
fn changes_of_a_block() {
    let diff = get_storage_diffs_from_bundle(bundle(), &PreState { code_hashes: vec![] });
    assert_eq!(diff.hash, hash(0));
    assert_eq!(diff.parent_hash, hash(0));
    let account = |b: u8| NewAccount {
        address: keccak(&[b; 20]),
        balance: word(8),
        nonce: 2,
        code_hash: hash(0xcc),
    };
    assert_eq!(diff.new_accounts, vec![account(1), account(3), account(4)]);
    assert_eq!(diff.deleted_accounts, vec![keccak(&[2; 20])]);
    let mut slot = [0; 32];
    slot[31] = 7;
    assert_eq!(
        diff.storage_diffs,
        vec![AccountStorageDiff {
            address: keccak(&[1; 20]),
            diffs: vec![IndexValuePair { index: keccak(&slot), value: word(9) }],
        }]
    );
    assert_eq!(
        diff.new_codes,
        vec![
            NewCode { code_hash: hash(0xcc), code: vec![1, 2] },
            NewCode { code_hash: hash(0xcc), code: vec![3] },
        ]
    );
}

#[test]
fn known_code_is_not_new() {
    let pre_state = PreState {
        code_hashes: vec![(address(1), hash(0xcc)), (address(4), hash(0xdd))],
    };
    let diff = get_storage_diffs_from_bundle(bundle(), &pre_state);
    assert_eq!(diff.new_codes, vec![NewCode { code_hash: hash(0xcc), code: vec![3] }]);
    assert_eq!(diff.new_accounts.len(), 3);
}

#[test]
fn walk_order_changes_only_the_order() {
    let pre_state = PreState { code_hashes: vec![] };
    let mut reversed = bundle();
    reversed.state.reverse();
    let diff = get_storage_diffs_from_bundle(bundle(), &pre_state);
    let mut other = get_storage_diffs_from_bundle(reversed, &pre_state);
    other.new_accounts.reverse();
    other.new_codes.reverse();
    assert_eq!(diff, other);
    assert_eq!(diff.new_accounts.len() + diff.deleted_accounts.len(), 4);
}

#[test]
fn large_slot_numbers() {
    let bundle = BundleState {
        state: vec![(
            address(1),
            BundleAccount {
                info: Some(info(None)),
                storage: vec![(U256 { limbs: [1, 2, 3, 4] }, word(0))],
            },
        )],
    };
    let diff = get_storage_diffs_from_bundle(bundle, &PreState { code_hashes: vec![] });
    let number = alloy_primitives::U256::from_limbs([1, 2, 3, 4]).to_be_bytes::<32>();
    assert_eq!(diff.storage_diffs[0].diffs[0].index, keccak(&number));
}

#[test]
fn empty_difference_as_bytes() {
    let bytes = BlockStorageDiff::default().encode();
    let zeroes = "00".repeat(32);
    assert_eq!(bytes, hex_bytes(&format!("f846a0{zeroes}a0{zeroes}c0c0c0c0")));
}

#[test]
fn account_as_bytes() {
    let account = NewAccount { address: hash(1), balance: word(0), nonce: 0, code_hash: hash(2) };
    let (one, two) = ("01".repeat(32), "02".repeat(32));
    assert_eq!(account.encode(), hex_bytes(&format!("f844a0{one}8080a0{two}")));
    let account =
        NewAccount { address: hash(1), balance: word(127), nonce: 128, code_hash: hash(2) };
    assert_eq!(account.encode(), hex_bytes(&format!("f845a0{one}7f8180a0{two}")));
    let account = NewAccount {
        address: hash(1),
        balance: U256 { limbs: [u64::MAX; 4] },
        nonce: 1024,
        code_hash: hash(2),
    };
    let ones = "ff".repeat(32);
    assert_eq!(account.encode(), hex_bytes(&format!("f866a0{one}a0{ones}820400a0{two}")));
}

#[test]
fn code_as_bytes() {
    let zeroes = "00".repeat(32);
    let code = NewCode { code_hash: hash(0), code: vec![] };
    assert_eq!(code.encode(), hex_bytes(&format!("e2a0{zeroes}80")));
    let code = NewCode { code_hash: hash(0), code: vec![0x7f] };
    assert_eq!(code.encode(), hex_bytes(&format!("e2a0{zeroes}7f")));
    let code = NewCode { code_hash: hash(0), code: vec![0x80] };
    assert_eq!(code.encode(), hex_bytes(&format!("e3a0{zeroes}8180")));
    let code = NewCode { code_hash: hash(0), code: vec![5; 300] };
    let fives = "05".repeat(300);
    assert_eq!(code.encode(), hex_bytes(&format!("f90150a0{zeroes}b9012c{fives}")));
}

#[test]
fn difference_as_bytes() {
    let diff = BlockStorageDiff {
        hash: hash(1),
        parent_hash: hash(2),
        new_accounts: vec![],
        deleted_accounts: vec![hash(3), hash(4)],
        storage_diffs: vec![AccountStorageDiff {
            address: hash(5),
            diffs: vec![IndexValuePair { index: hash(6), value: word(256) }],
        }],
        new_codes: vec![NewCode { code_hash: hash(7), code: vec![1] }],
    };
    let b = |n: u8| format!("a0{}", format!("{n:02x}").repeat(32));
    let slots = format!("e5e4{}820100", b(6));
    let storage = format!("f849f847{}", b(5));
    let text = format!(
        "{}{}c0f842{}{}{storage}{slots}e3e2{}01",
        b(1),
        b(2),
        b(3),
        b(4),
        b(7)
    );
    let payload = hex_bytes(&text);
    let mut bytes = vec![0xf8, payload.len() as u8];
    bytes.extend(&payload);
    assert_eq!(diff.encode(), bytes);
}

#[test]
fn lists_of_hashes_as_the_outside_crate_encodes_them() {
    let mut diff = BlockStorageDiff::default();
    diff.deleted_accounts = vec![hash(3), hash(4)];
    let outside: Vec<alloy_primitives::B256> = vec![[3; 32].into(), [4; 32].into()];
    let inner = alloy_rlp::encode(&outside);
    let bytes = diff.encode();
    let at = 2 + 33 + 33 + 1;
    assert_eq!(&bytes[at..at + inner.len()], inner.as_slice());
}

#[test]
fn different_differences_have_different_bytes() {
    let diff = get_storage_diffs_from_bundle(bundle(), &PreState { code_hashes: vec![] });
    let mut other = diff.clone();
    other.storage_diffs[0].diffs[0].value = word(10);
    assert_ne!(diff.encode(), other.encode());
    let mut other = diff.clone();
    other.deleted_accounts.clear();
    assert_ne!(diff.encode(), other.encode());
    assert_eq!(diff.encode(), diff.clone().encode());
}
