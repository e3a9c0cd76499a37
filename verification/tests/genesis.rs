use debank_trace::genesis::build_genesis_txs_and_traces;
use debank_trace::primitives::{Address, U256};
use debank_trace::records::DebankID;
use debank_trace::state_diff::{Genesis, GenesisAccount};

fn address(b: u8) -> Address {
    Address { bytes: [b; 20] }
}

fn word(n: u64) -> U256 {
    U256 { limbs: [n, 0, 0, 0] }
}

fn account(balance: U256, code: Option<Vec<u8>>) -> GenesisAccount {
    GenesisAccount { nonce: None, balance, code, storage: None }
}

fn id(kind: &str, b: u8) -> String {
    format!("0xgenesis{kind}00000000000000x{}", format!("{b:02x}").repeat(20))
}

#[test]
fn empty_genesis_has_the_native_token() {
    let (txs, traces) = build_genesis_txs_and_traces(&Genesis { alloc: vec![] });
    assert_eq!(txs.len(), 1);
    assert_eq!(txs[0].id, "0xgenesis0300000000000000xeeeeeeeeeeeeeeeeeeeeeeeeeeeeeeeeeeeeeeee");
    assert_eq!(txs[0].from, address(0));
    assert_eq!(txs[0].to, address(0xee));
    assert_eq!(txs[0].value, word(0));
    assert_eq!(txs[0].transaction_index, 0);
    assert!(txs[0].status);
    assert!(txs[0].input.is_empty());
    assert_eq!(traces.len(), 1);
    assert_eq!(traces[0].id, "e808ddb67f53e1080a1ab969353e4f1d");
    assert_eq!(traces[0].tx_id, txs[0].id);
    assert_eq!(traces[0].from_addr, address(0));
    assert_eq!(traces[0].to_addr, address(0xee));
    assert_eq!(traces[0].call_create_type, "create");
    assert_eq!(traces[0].call_type, "");
    assert!(traces[0].input.is_empty() && traces[0].output.is_empty());
}

#[test]
fn balance_is_transferred() {
    let genesis = Genesis { alloc: vec![(address(1), account(word(77), None))] };
    let (txs, traces) = build_genesis_txs_and_traces(&genesis);
    assert_eq!(txs.len(), 2);
    assert_eq!(txs[0].id, id("01", 1));
    assert_eq!(txs[0].to, address(1));
    assert_eq!(txs[0].value, word(77));
    assert_eq!(txs[0].gas_limit, 0);
    assert_eq!(txs[0].gas_price, 0);
    assert_eq!(txs[0].nonce, 0);
    assert_eq!(traces[0].id, "70cfe405c7edb7eceeb7e24a9852465f");
    assert_eq!(traces[0].call_create_type, "call");
    assert_eq!(traces[0].call_type, "call");
    assert_eq!(traces[0].value, word(77));
    assert_eq!(txs[1].transaction_index, 1);
}

#[test]
fn code_is_created() {
    let genesis = Genesis { alloc: vec![(address(1), account(word(0), Some(vec![0x60, 0x00])))] };
    let (txs, traces) = build_genesis_txs_and_traces(&genesis);
    assert_eq!(txs.len(), 2);
    assert_eq!(txs[0].id, id("02", 1));
    assert_eq!(txs[0].input, vec![0x60, 0x00]);
    assert_eq!(txs[0].value, word(0));
    assert_eq!(traces[0].id, "767df476be0c3f51729f425a3b3d9140");
    assert_eq!(traces[0].input, vec![0x60, 0x00]);
    assert_eq!(traces[0].output, vec![0x60, 0x00]);
    assert_eq!(traces[0].call_create_type, "create");
    assert_eq!(traces[0].call_type, "");
}

#[test]
fn empty_accounts_leave_no_records() {
    let genesis = Genesis {
        alloc: vec![
            (address(1), account(word(0), None)),
            (address(2), account(word(0), Some(vec![]))),
        ],
    };
    let (txs, traces) = build_genesis_txs_and_traces(&genesis);
    assert_eq!(txs.len(), 1);
    assert_eq!(traces.len(), 1);
}

#[test]
fn accounts_are_ordered_by_their_texts() {
    let genesis = Genesis {
        alloc: vec![
            (address(0xb2), account(word(1), Some(vec![1]))),
            (address(0x0a), account(word(2), None)),
            (address(0xaf), account(U256 { limbs: [0, 0, 0, 3] }, None)),
            (address(0x9c), account(word(0), Some(vec![2]))),
        ],
    };
    let (txs, traces) = build_genesis_txs_and_traces(&genesis);
    let ids: Vec<String> = txs.iter().map(|tx| tx.id.clone()).collect();
    assert_eq!(
        ids,
        vec![
            id("01", 0x0a),
            id("02", 0x9c),
            id("01", 0xaf),
            id("01", 0xb2),
            id("02", 0xb2),
            id("03", 0xee),
        ]
    );
    let indices: Vec<u64> = txs.iter().map(|tx| tx.transaction_index).collect();
    assert_eq!(indices, vec![0, 1, 2, 3, 4, 5]);
    assert_eq!(txs[2].value, U256 { limbs: [0, 0, 0, 3] });
    assert_eq!(txs[4].input, vec![1]);
    for (tx, trace) in txs.iter().zip(&traces) {
        assert_eq!(trace.tx_id, tx.id);
        assert_eq!(trace.to_addr, tx.to);
        assert_eq!(trace.value, tx.value);
        assert_eq!(trace.id, trace.debank_id());
    }
}

#[test]
fn stored_order_does_not_matter() {
    let mut genesis = Genesis {
        alloc: (0..20u8)
            .map(|i| (address(i.wrapping_mul(37)), account(word(1 + i as u64), Some(vec![i]))))
            .collect(),
    };
    let (txs, _) = build_genesis_txs_and_traces(&genesis);
    genesis.alloc.reverse();
    let (others, _) = build_genesis_txs_and_traces(&genesis);
    assert_eq!(txs.len(), 41);
    for (a, b) in txs.iter().zip(&others) {
        assert_eq!(a.id, b.id);
        assert_eq!(a.value, b.value);
        assert_eq!(a.input, b.input);
    }
    genesis.alloc.sort_by(|a, b| a.0.bytes.cmp(&b.0.bytes));
    let order: Vec<Address> = genesis.alloc.iter().map(|entry| entry.0).collect();
    let mut seen: Vec<Address> = txs.iter().map(|tx| tx.to).collect();
    seen.pop();
    seen.dedup();
    assert_eq!(seen, order);
}

#[test]
fn identifiers_are_distinct() {
    let genesis = Genesis {
        alloc: vec![
            (address(0xee), account(word(1), Some(vec![1]))),
            (address(0x11), account(word(1), Some(vec![1]))),
        ],
    };
    let (txs, _) = build_genesis_txs_and_traces(&genesis);
    let mut ids: Vec<String> = txs.iter().map(|tx| tx.id.clone()).collect();
    assert_eq!(ids.len(), 5);
    ids.sort();
    ids.dedup();
    assert_eq!(ids.len(), 5);
}
