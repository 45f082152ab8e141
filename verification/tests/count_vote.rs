use std::collections::BTreeMap;

use ckb_hash::blake2b_256;
use proposal_script::chain::{
    Block, BlockProvider, CellDataProvider, CellDep, CellInput, CellOutput, Header, OutPoint,
    Script, Transaction,
};
use proposal_script::encoding::{Proposal, Vote};
use proposal_script::proposal::count_vote::count_vote;

struct MockBlockProvider {
    blocks: BTreeMap<u64, Block>,
}

impl MockBlockProvider {
    fn new(blocks: Vec<Block>) -> Self {
        let map: BTreeMap<u64, Block> = blocks.into_iter().map(|b| (b.header.number, b)).collect();
        Self { blocks: map }
    }
}

impl BlockProvider for MockBlockProvider {
    fn block_with_hash(&self, hash: [u8; 32]) -> Option<Block> {
        self.get_block(&hash)
    }

    fn header_at(&self, hash: [u8; 32]) -> Option<Header> {
        self.get_block_header(&hash)
    }

    fn block_at(&self, number: u64) -> Option<Block> {
        self.get_block_by_number(number)
    }

    fn get_block(&self, hash: &[u8; 32]) -> Option<Block> {
        self.blocks.values().find(|b| &b.header.hash == hash).cloned()
    }

    fn get_block_header(&self, hash: &[u8; 32]) -> Option<Header> {
        self.blocks.values().find(|b| &b.header.hash == hash).map(|b| b.header)
    }

    fn get_block_by_number(&self, number: u64) -> Option<Block> {
        self.blocks.get(&number).cloned()
    }
}

impl CellDataProvider for MockBlockProvider {
    fn cell_data_at(&self, out_point: OutPoint) -> Option<Vec<u8>> {
        self.get_cell_data(&out_point)
    }

    fn get_cell_data(&self, _out_point: &OutPoint) -> Option<Vec<u8>> {
        None
    }
}

fn default_script() -> Script {
    Script { code_hash: [0u8; 32], hash_type: 0, args: Vec::new() }
}

fn make_proposal_script() -> Script {
    Script {
        code_hash: blake2b_256(b"proposal_type_script"),
        hash_type: 1,
        args: Vec::new(),
    }
}

fn make_vote_type_script(vote_code_hash: &[u8; 32], proposal_blake160: &[u8; 20]) -> Script {
    Script { code_hash: *vote_code_hash, hash_type: 0, args: proposal_blake160.to_vec() }
}

fn empty_tx() -> Transaction {
    Transaction {
        inputs: Vec::new(),
        outputs: Vec::new(),
        outputs_data: Vec::new(),
        cell_deps: Vec::new(),
        header_deps: Vec::new(),
    }
}

fn make_proposal_tx(proposal: &Proposal, proposal_script: &Script) -> Transaction {
    let mut tx = empty_tx();
    tx.outputs.push(CellOutput {
        capacity: 0,
        lock: default_script(),
        type_: Some(proposal_script.clone()),
    });
    tx.outputs_data.push(proposal.as_bytes());
    tx
}

fn make_vote_tx(vote_type_script: &Script, voter_index: usize, direction: u8, amount: u64) -> Transaction {
    let lock = Script { code_hash: [0u8; 32], hash_type: 0, args: voter_index.to_le_bytes().to_vec() };
    let vote = Vote { vote: direction, amount, dao_index: Vec::new() };
    let mut tx = empty_tx();
    tx.outputs.push(CellOutput { capacity: 0, lock, type_: Some(vote_type_script.clone()) });
    tx.outputs_data.push(vote.as_bytes());
    tx
}

fn build_block(number: u64, parent_hash: [u8; 32], txs: Vec<Transaction>) -> Block {
    let mut preimage = parent_hash.to_vec();
    preimage.extend_from_slice(&number.to_le_bytes());
    let size = 208 + txs.iter().map(|tx| 200 + tx.outputs_data.iter().map(|d| d.len()).sum::<usize>()).sum::<usize>();
    Block {
        header: Header { hash: blake2b_256(&preimage), number },
        serialized_size: size as u32,
        transactions: txs,
    }
}

fn make_proposal(duration: u32, vote_code_hash: [u8; 32], vote_hash_type: u8, minimal_requirement: u64) -> Proposal {
    Proposal {
        duration,
        vote_cell_code_hash: vote_code_hash,
        vote_cell_hash_type: vote_hash_type,
        description: Vec::new(),
        receiver: default_script(),
        amount: 0,
        minimal_requirement,
    }
}

fn blake160_of(script: &Script) -> [u8; 20] {
    let hash = blake2b_256(script.as_bytes());
    let mut b = [0u8; 20];
    b.copy_from_slice(&hash[..20]);
    b
}

fn build_voting_chain(
    duration: u32,
    vote_code_hash: Vec<u8>,
    vote_hash_type: u8,
    minimal_requirement: u64,
    num_yes_voters: usize,
    num_no_voters: usize,
) -> (Vec<Block>, Script, Proposal) {
    let vote_code_hash_arr: [u8; 32] = vote_code_hash.try_into().unwrap();
    let proposal = make_proposal(duration, vote_code_hash_arr, vote_hash_type, minimal_requirement);
    let proposal_script = make_proposal_script();
    let proposal_blake160 = blake160_of(&proposal_script);
    let vote_type_script = make_vote_type_script(&vote_code_hash_arr, &proposal_blake160);

    let num_blocks = duration as usize + 1;
    let mut blocks = Vec::with_capacity(num_blocks);
    let mut parent_hash = [0u8; 32];

    for i in 0..num_blocks {
        let txs: Vec<Transaction> = if i == 0 {
            vec![make_proposal_tx(&proposal, &proposal_script)]
        } else {
            let mut txs = Vec::new();
            let voter_base = i - 1;
            for j in 0..num_yes_voters {
                let voter_index = voter_base * 1000 + j;
                txs.push(make_vote_tx(&vote_type_script, voter_index, 1, 100));
            }
            for j in 0..num_no_voters {
                let voter_index = voter_base * 1000 + num_yes_voters + j;
                txs.push(make_vote_tx(&vote_type_script, voter_index, 0, 50));
            }
            txs
        };
        let block = build_block(i as u64, parent_hash, txs);
        parent_hash = block.header.hash;
        blocks.push(block);
    }

    (blocks, proposal_script, proposal)
}

fn count(blocks: Vec<Block>, proposal: &Proposal, proposal_script: &Script) -> proposal_script::proposal::count_vote::VoteResult {
    let provider = MockBlockProvider::new(blocks);
    count_vote(&provider, proposal, proposal_script, 0).unwrap().0
}

#[test]
fn test_count_vote_all_yes() {
    let (blocks, proposal_script, proposal) = build_voting_chain(5, vec![1u8; 32], 0, 0, 3, 0);
    let result = count(blocks, &proposal, &proposal_script);
    assert_eq!(result.proposal.as_bytes(), proposal.as_bytes());
    assert_eq!(result.yes_vote, 5 * 3 * 100);
    assert_eq!(result.no_vote, 0);
    assert!(result.passed);
}

#[test]
fn test_count_vote_all_no() {
    let (blocks, proposal_script, proposal) = build_voting_chain(5, vec![1u8; 32], 0, 0, 0, 3);
    let result = count(blocks, &proposal, &proposal_script);
    assert_eq!(result.yes_vote, 0);
    assert_eq!(result.no_vote, 5 * 3 * 50);
    assert!(!result.passed);
}

#[test]
fn test_count_vote_mixed() {
    let (blocks, proposal_script, proposal) = build_voting_chain(5, vec![1u8; 32], 0, 0, 4, 2);
    let result = count(blocks, &proposal, &proposal_script);
    assert_eq!(result.yes_vote, 5 * 4 * 100);
    assert_eq!(result.no_vote, 5 * 2 * 50);
    assert!(result.passed);
}

#[test]
fn test_count_vote_yes_beats_no() {
    let (blocks, proposal_script, proposal) = build_voting_chain(5, vec![1u8; 32], 0, 0, 1, 2);
    let result = count(blocks, &proposal, &proposal_script);
    let expected_yes = 5 * 100;
    let expected_no = 5 * 2 * 50;
    assert_eq!(result.yes_vote, expected_yes);
    assert_eq!(result.no_vote, expected_no);
    assert!(!result.passed);
}

#[test]
fn test_count_vote_minimal_requirement_not_met() {
    let minimal_req = 100_000;
    let (blocks, proposal_script, proposal) =
        build_voting_chain(5, vec![1u8; 32], 0, minimal_req, 1, 0);
    let result = count(blocks, &proposal, &proposal_script);
    assert_eq!(result.yes_vote, 5 * 100);
    assert_eq!(result.no_vote, 0);
    let min_shannon = minimal_req * 100_000_000;
    assert!(result.yes_vote + result.no_vote <= min_shannon);
    assert!(!result.passed);
}

#[test]
fn test_count_vote_minimal_requirement_met() {
    let (blocks, proposal_script, proposal) = build_voting_chain(5, vec![1u8; 32], 0, 0, 1, 0);
    let result = count(blocks, &proposal, &proposal_script);
    assert_eq!(result.yes_vote, 5 * 100);
    assert_eq!(result.no_vote, 0);
    assert!(result.passed);
}

#[test]
fn test_count_vote_no_blocks() {
    let blocks: Vec<Block> = vec![];
    let proposal_script = make_proposal_script();
    let proposal = make_proposal(0, [0u8; 32], 0, 0);
    let result = count(blocks, &proposal, &proposal_script);
    assert!(!result.passed);
    assert_eq!(result.yes_vote, 0);
    assert_eq!(result.no_vote, 0);
}

#[test]
fn test_vote_retraction_same_voter_overwrites() {
    let (blocks, proposal_script, proposal) = build_voting_chain(2, vec![1u8; 32], 0, 0, 1, 0);
    let result = count(blocks, &proposal, &proposal_script);
    assert_eq!(result.yes_vote, 2 * 100);
}

#[test]
fn test_dao_double_vote_prevention() {
    let vote_code_hash: [u8; 32] = [1u8; 32];
    let duration = 2u32;

    let proposal = make_proposal(duration, vote_code_hash, 0, 0);
    let proposal_script = make_proposal_script();
    let proposal_blake160 = blake160_of(&proposal_script);
    let vote_type_script = make_vote_type_script(&vote_code_hash, &proposal_blake160);

    let dao_out_point = OutPoint { tx_hash: [0x11u8; 32], index: 0 };

    let make_vote_with_dao = |voter_index: usize| -> Transaction {
        let lock = Script { code_hash: [0u8; 32], hash_type: 0, args: voter_index.to_le_bytes().to_vec() };
        let cell_dep = CellDep { out_point: dao_out_point, dep_type: 0 };
        let vote = Vote { vote: 1, amount: 100, dao_index: vec![0u16] };
        let mut tx = empty_tx();
        tx.cell_deps.push(cell_dep);
        tx.outputs.push(CellOutput { capacity: 0, lock, type_: Some(vote_type_script.clone()) });
        tx.outputs_data.push(vote.as_bytes());
        tx
    };

    let make_spend_tx = || -> Transaction {
        let mut tx = empty_tx();
        tx.inputs.push(CellInput { since: 0, previous_output: dao_out_point });
        tx
    };

    let mut blocks = Vec::with_capacity(3);
    let mut parent_hash = [0u8; 32];

    let block0 = build_block(0, parent_hash, vec![make_proposal_tx(&proposal, &proposal_script)]);
    parent_hash = block0.header.hash;
    blocks.push(block0);

    let block1 = build_block(1, parent_hash, vec![make_vote_with_dao(1)]);
    parent_hash = block1.header.hash;
    blocks.push(block1);

    let block2 = build_block(2, parent_hash, vec![make_spend_tx()]);
    blocks.push(block2);

    let result = count(blocks, &proposal, &proposal_script);
    assert_eq!(result.yes_vote, 0);
}
