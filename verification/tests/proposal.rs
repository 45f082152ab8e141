use std::collections::BTreeMap;

use ckb_hash::blake2b_256;
use proposal_script::chain::{
    Block, BlockProvider, CellDataProvider, CellInput, CellMeta, CellOutput, Header, OutPoint,
    ResolvedTransaction, Script, ScriptGroup, Transaction, TransactionInfo,
};
use proposal_script::encoding::{Proposal, Vote};
use proposal_script::error::ScriptError;
use proposal_script::proposal::count_vote::count_vote;
use proposal_script::proposal::{
    check_block_range, proposal_from_cell_data, ProposalTypeSystemScript, ERROR_ARGS,
    ERROR_BLOCK_COUNT_MISMATCH, ERROR_BLOCK_RANGE_INVALID, ERROR_INSUFFICIENT_CAPACITY,
    ERROR_INVALID_INPUT_HASH, ERROR_INVALID_START_BLOCK, ERROR_MISSING_HEADER_DEPS,
    ERROR_OVERFLOW, ERROR_PARSE_CELL_DATA, ERROR_PROPOSAL_BOTH_SIDES, ERROR_PROPOSAL_FAILED,
    ERROR_TOO_MANY_CELLS, MIN_PROPOSAL_CAPACITY, PROPOSAL_CYCLES,
};

struct Chain {
    blocks: BTreeMap<u64, Block>,
    headers: Vec<Header>,
    cells: Vec<(OutPoint, Vec<u8>)>,
}

impl BlockProvider for Chain {
    fn block_with_hash(&self, hash: [u8; 32]) -> Option<Block> {
        self.get_block(&hash)
    }

    fn header_at(&self, hash: [u8; 32]) -> Option<Header> {
        self.get_block_header(&hash)
    }

    fn block_at(&self, number: u64) -> Option<Block> {
        self.get_block_by_number(number)
    }

    fn get_block(&self, hash: &[u8; 32]) -> Option<Block> {
        self.blocks.values().find(|b| &b.header.hash == hash).cloned()
    }

    fn get_block_header(&self, hash: &[u8; 32]) -> Option<Header> {
        self.headers.iter().find(|h| &h.hash == hash).copied()
    }

    fn get_block_by_number(&self, number: u64) -> Option<Block> {
        self.blocks.get(&number).cloned()
    }
}

impl CellDataProvider for Chain {
    fn cell_data_at(&self, out_point: OutPoint) -> Option<Vec<u8>> {
        self.get_cell_data(&out_point)
    }

    fn get_cell_data(&self, out_point: &OutPoint) -> Option<Vec<u8>> {
        self.cells.iter().find(|(o, _)| o == out_point).map(|(_, d)| d.clone())
    }
}

fn plain_script(args: Vec<u8>) -> Script {
    Script { code_hash: [0u8; 32], hash_type: 0, args }
}

fn empty_tx() -> Transaction {
    Transaction {
        inputs: Vec::new(),
        outputs: Vec::new(),
        outputs_data: Vec::new(),
        cell_deps: Vec::new(),
        header_deps: Vec::new(),
    }
}

fn proposal_type_script() -> Script {
    Script { code_hash: blake2b_256(b"proposal_type_script"), hash_type: 1, args: vec![7u8; 20] }
}

fn blake160(data: &[u8]) -> [u8; 20] {
    let mut out = [0u8; 20];
    out.copy_from_slice(&blake2b_256(data)[..20]);
    out
}

fn make_proposal(duration: u32, minimal_requirement: u64) -> Proposal {
    Proposal {
        duration,
        vote_cell_code_hash: [1u8; 32],
        vote_cell_hash_type: 0,
        description: b"fund the faucet".to_vec(),
        receiver: plain_script(vec![9u8; 20]),
        amount: 5_000,
        minimal_requirement,
    }
}

fn vote_tx(script: &Script, voter: u8, direction: u8, amount: u64) -> Transaction {
    let vote_type = Script { code_hash: [1u8; 32], hash_type: 0, args: blake160(&script.as_bytes()).to_vec() };
    let mut tx = empty_tx();
    tx.outputs.push(CellOutput { capacity: 0, lock: plain_script(vec![voter]), type_: Some(vote_type) });
    tx.outputs_data.push(Vote { vote: direction, amount, dao_index: Vec::new() }.as_bytes());
    tx
}

fn block(number: u64, size: u32, txs: Vec<Transaction>) -> Block {
    Block { header: Header { hash: blake2b_256(number.to_le_bytes()), number }, serialized_size: size, transactions: txs }
}

/// A chain whose block 10 holds the proposal cell and whose blocks 11..=10+duration hold `votes`.
fn chain(duration: u32, script: &Script, votes: &[(u8, u8, u64)]) -> Chain {
    let mut blocks = BTreeMap::new();
    let mut headers = Vec::new();
    for n in 10..=(10 + duration as u64) {
        let txs = if n == 11 {
            votes.iter().map(|(v, d, a)| vote_tx(script, *v, *d, *a)).collect()
        } else {
            Vec::new()
        };
        let b = block(n, 1000, txs);
        headers.push(b.header);
        blocks.insert(n, b);
    }
    Chain { blocks, headers, cells: Vec::new() }
}

fn proposal_out_point() -> OutPoint {
    OutPoint { tx_hash: [0x22u8; 32], index: 0 }
}

fn consuming_rtx(proposal: &Proposal, start_hash: [u8; 32], end_hash: [u8; 32], in_memory: bool) -> ResolvedTransaction {
    let mut tx = empty_tx();
    tx.inputs.push(CellInput { since: 0, previous_output: proposal_out_point() });
    tx.header_deps.push(start_hash);
    tx.header_deps.push(end_hash);
    ResolvedTransaction {
        transaction: tx,
        resolved_inputs: vec![CellMeta {
            out_point: proposal_out_point(),
            transaction_info: Some(TransactionInfo { block_hash: start_hash, block_number: 10, index: 1 }),
            mem_cell_data: if in_memory { Some(proposal.as_bytes()) } else { None },
        }],
    }
}

fn refused(code: i8) -> ScriptError {
    ScriptError::validation_failure(&proposal_type_script(), code)
}

fn creation_refused(code: i8) -> ScriptError {
    ScriptError::validation_failure(&Script { code_hash: [4u8; 32], hash_type: 1, args: Vec::new() }, code)
}

fn consume_group(script: &Script) -> ScriptGroup {
    ScriptGroup { script: script.clone(), input_indices: vec![0], output_indices: Vec::new() }
}

fn run(rtx: &ResolvedTransaction, group: &ScriptGroup, provider: &Chain) -> Result<u64, ScriptError> {
    ProposalTypeSystemScript { rtx, script_group: group, max_cycles: PROPOSAL_CYCLES, block_provider: provider }.verify()
}

fn hash_of(n: u64) -> [u8; 32] {
    blake2b_256(n.to_le_bytes())
}

#[test]
fn consumption_passes_with_a_yes_majority() {
    let script = proposal_type_script();
    let proposal = make_proposal(3, 0);
    let provider = chain(3, &script, &[(1, 1, 700), (2, 0, 300)]);
    let rtx = consuming_rtx(&proposal, hash_of(10), hash_of(13), true);
    let r = run(&rtx, &consume_group(&script), &provider);
    // 1_000_000 to start, 4 cycles per byte of three 1000-byte blocks, 1000 per vote.
    assert_eq!(r, Ok(1_000_000 + 3 * 4000 + 2 * 1000));
}

#[test]
fn consumption_loads_the_cell_data_when_not_in_memory() {
    let script = proposal_type_script();
    let proposal = make_proposal(3, 0);
    let mut provider = chain(3, &script, &[(1, 1, 700)]);
    provider.cells.push((proposal_out_point(), proposal.as_bytes()));
    let rtx = consuming_rtx(&proposal, hash_of(10), hash_of(13), false);
    assert_eq!(run(&rtx, &consume_group(&script), &provider), Ok(1_000_000 + 3 * 4000 + 1000));
}

#[test]
fn consumption_without_cell_data_is_refused() {
    let script = proposal_type_script();
    let proposal = make_proposal(3, 0);
    let provider = chain(3, &script, &[(1, 1, 700)]);
    let rtx = consuming_rtx(&proposal, hash_of(10), hash_of(13), false);
    assert_eq!(run(&rtx, &consume_group(&script), &provider), Err(refused(ERROR_PARSE_CELL_DATA)));
}

#[test]
fn consumption_fails_without_a_majority() {
    let script = proposal_type_script();
    let proposal = make_proposal(3, 0);
    let provider = chain(3, &script, &[(1, 1, 300), (2, 0, 300)]);
    let rtx = consuming_rtx(&proposal, hash_of(10), hash_of(13), true);
    assert_eq!(run(&rtx, &consume_group(&script), &provider), Err(refused(ERROR_PROPOSAL_FAILED)));
}

#[test]
fn consumption_fails_below_the_minimal_requirement() {
    let script = proposal_type_script();
    let proposal = make_proposal(3, 1);
    let provider = chain(3, &script, &[(1, 1, 100_000_000)]);
    let rtx = consuming_rtx(&proposal, hash_of(10), hash_of(13), true);
    assert_eq!(run(&rtx, &consume_group(&script), &provider), Err(refused(ERROR_PROPOSAL_FAILED)));
    let provider = chain(3, &script, &[(1, 1, 100_000_001)]);
    assert!(run(&rtx, &consume_group(&script), &provider).is_ok());
}

#[test]
fn votes_for_another_proposal_do_not_count() {
    let script = proposal_type_script();
    let other = Script { code_hash: [3u8; 32], hash_type: 1, args: vec![8u8; 20] };
    let proposal = make_proposal(3, 0);
    let mut provider = chain(3, &script, &[]);
    provider.blocks.get_mut(&11).unwrap().transactions.push(vote_tx(&other, 1, 1, 700));
    let rtx = consuming_rtx(&proposal, hash_of(10), hash_of(13), true);
    assert_eq!(run(&rtx, &consume_group(&script), &provider), Err(refused(ERROR_PROPOSAL_FAILED)));
}

#[test]
fn consumption_checks_the_header_range() {
    let script = proposal_type_script();
    let proposal = make_proposal(3, 0);
    let provider = chain(3, &script, &[(1, 1, 700)]);
    let rtx = consuming_rtx(&proposal, hash_of(10), hash_of(12), true);
    assert_eq!(run(&rtx, &consume_group(&script), &provider), Err(refused(ERROR_BLOCK_RANGE_INVALID)));
    let rtx = consuming_rtx(&proposal, hash_of(10), [0xeeu8; 32], true);
    assert_eq!(run(&rtx, &consume_group(&script), &provider), Err(refused(ERROR_BLOCK_RANGE_INVALID)));
    let rtx = consuming_rtx(&proposal, [0xeeu8; 32], hash_of(13), true);
    assert_eq!(run(&rtx, &consume_group(&script), &provider), Err(refused(ERROR_INVALID_START_BLOCK)));
}

#[test]
fn consumption_needs_the_start_block_to_hold_the_proposal() {
    let script = proposal_type_script();
    let proposal = make_proposal(3, 0);
    let provider = chain(3, &script, &[(1, 1, 700)]);
    let mut rtx = consuming_rtx(&proposal, hash_of(10), hash_of(13), true);
    rtx.resolved_inputs[0].transaction_info.as_mut().unwrap().block_hash = hash_of(11);
    assert_eq!(run(&rtx, &consume_group(&script), &provider), Err(refused(ERROR_INVALID_START_BLOCK)));
    rtx.resolved_inputs[0].transaction_info = None;
    assert_eq!(run(&rtx, &consume_group(&script), &provider), Err(refused(ERROR_ARGS)));
}

#[test]
fn consumption_needs_two_header_deps() {
    let script = proposal_type_script();
    let proposal = make_proposal(3, 0);
    let provider = chain(3, &script, &[(1, 1, 700)]);
    let mut rtx = consuming_rtx(&proposal, hash_of(10), hash_of(13), true);
    rtx.transaction.header_deps.pop();
    assert_eq!(run(&rtx, &consume_group(&script), &provider), Err(refused(ERROR_MISSING_HEADER_DEPS)));
}

#[test]
fn consumption_rejects_bad_proposal_data() {
    let script = proposal_type_script();
    let provider = chain(3, &script, &[(1, 1, 700)]);
    let mut rtx = consuming_rtx(&make_proposal(3, 0), hash_of(10), hash_of(13), true);
    rtx.resolved_inputs[0].mem_cell_data = Some(vec![1, 2, 3]);
    assert_eq!(run(&rtx, &consume_group(&script), &provider), Err(refused(ERROR_PARSE_CELL_DATA)));
    let rtx = consuming_rtx(&make_proposal(0, 0), hash_of(10), hash_of(10), true);
    assert_eq!(run(&rtx, &consume_group(&script), &provider), Err(refused(ERROR_PARSE_CELL_DATA)));
    let rtx = consuming_rtx(&make_proposal(60_001, 0), hash_of(10), hash_of(13), true);
    assert_eq!(run(&rtx, &consume_group(&script), &provider), Err(refused(ERROR_PARSE_CELL_DATA)));
}

#[test]
fn consumption_refuses_a_minimal_requirement_that_overflows() {
    let script = proposal_type_script();
    let proposal = make_proposal(3, u64::MAX / 100_000_000 + 1);
    let provider = chain(3, &script, &[(1, 1, 700)]);
    let rtx = consuming_rtx(&proposal, hash_of(10), hash_of(13), true);
    assert_eq!(run(&rtx, &consume_group(&script), &provider), Err(refused(ERROR_OVERFLOW)));
    // The count comes first: a missing block is reported before the overflow.
    let mut short = chain(3, &script, &[(1, 1, 700)]);
    short.blocks.remove(&12);
    assert_eq!(run(&rtx, &consume_group(&script), &short), Err(refused(ERROR_BLOCK_COUNT_MISMATCH)));
}

#[test]
fn consumption_needs_every_block_of_the_period() {
    let script = proposal_type_script();
    let proposal = make_proposal(3, 0);
    let mut provider = chain(3, &script, &[(1, 1, 700)]);
    provider.blocks.remove(&12);
    let rtx = consuming_rtx(&proposal, hash_of(10), hash_of(13), true);
    assert_eq!(run(&rtx, &consume_group(&script), &provider), Err(refused(ERROR_BLOCK_COUNT_MISMATCH)));
}

#[test]
fn consumption_stops_when_cycles_run_out() {
    let script = proposal_type_script();
    let proposal = make_proposal(3, 0);
    let mut provider = chain(3, &script, &[(1, 1, 700)]);
    provider.blocks.get_mut(&12).unwrap().serialized_size = 20_000_000;
    let rtx = consuming_rtx(&proposal, hash_of(10), hash_of(13), true);
    // 1_000_000 + 4000 + 1000 for block 11 and its vote, then 80_000_000 for block 12.
    assert_eq!(run(&rtx, &consume_group(&script), &provider), Err(ScriptError::ExceededMaximumCycles(81_005_000)));
}

#[test]
fn consumption_takes_one_proposal_cell() {
    let script = proposal_type_script();
    let proposal = make_proposal(3, 0);
    let provider = chain(3, &script, &[(1, 1, 700)]);
    let rtx = consuming_rtx(&proposal, hash_of(10), hash_of(13), true);
    let group = ScriptGroup { script: script.clone(), input_indices: vec![0, 1], output_indices: Vec::new() };
    assert_eq!(run(&rtx, &group, &provider), Err(refused(ERROR_TOO_MANY_CELLS)));
    let group = ScriptGroup { script: script.clone(), input_indices: vec![4], output_indices: Vec::new() };
    assert_eq!(run(&rtx, &group, &provider), Err(refused(ERROR_ARGS)));
}

#[test]
fn a_proposal_cell_is_never_on_both_sides() {
    let script = proposal_type_script();
    let proposal = make_proposal(3, 0);
    let provider = chain(3, &script, &[(1, 1, 700)]);
    let rtx = consuming_rtx(&proposal, hash_of(10), hash_of(13), true);
    let group = ScriptGroup { script, input_indices: vec![0], output_indices: vec![0] };
    assert_eq!(run(&rtx, &group, &provider), Err(refused(ERROR_PROPOSAL_BOTH_SIDES)));
}

#[test]
fn verification_needs_enough_cycles() {
    let script = proposal_type_script();
    let proposal = make_proposal(3, 0);
    let provider = chain(3, &script, &[(1, 1, 700)]);
    let rtx = consuming_rtx(&proposal, hash_of(10), hash_of(13), true);
    let group = consume_group(&script);
    let r = ProposalTypeSystemScript { rtx: &rtx, script_group: &group, max_cycles: 1000, block_provider: &provider }.verify();
    assert_eq!(r, Err(ScriptError::ExceededMaximumCycles(1000)));
}

fn creating_rtx(capacity: u64) -> ResolvedTransaction {
    let mut tx = empty_tx();
    tx.inputs.push(CellInput { since: 5, previous_output: OutPoint { tx_hash: [0x33u8; 32], index: 2 } });
    tx.outputs.push(CellOutput { capacity: 0, lock: plain_script(Vec::new()), type_: None });
    tx.outputs.push(CellOutput { capacity, lock: plain_script(Vec::new()), type_: None });
    ResolvedTransaction { transaction: tx, resolved_inputs: Vec::new() }
}

/// The id of a proposal made by `creating_rtx` at output 1: the first 20
/// bytes of the hash of the first input (since, tx hash, index) and the
/// output index, all little-endian.
fn expected_creation_id() -> Vec<u8> {
    let mut preimage = Vec::new();
    preimage.extend_from_slice(&5u64.to_le_bytes());
    preimage.extend_from_slice(&[0x33u8; 32]);
    preimage.extend_from_slice(&2u32.to_le_bytes());
    preimage.extend_from_slice(&1u64.to_le_bytes());
    blake160(&preimage).to_vec()
}

fn create(rtx: &ResolvedTransaction, args: Vec<u8>, outputs: Vec<usize>) -> Result<u64, ScriptError> {
    let group = ScriptGroup {
        script: Script { code_hash: [4u8; 32], hash_type: 1, args },
        input_indices: Vec::new(),
        output_indices: outputs,
    };
    let provider = Chain { blocks: BTreeMap::new(), headers: Vec::new(), cells: Vec::new() };
    run(rtx, &group, &provider)
}

#[test]
fn creation_with_the_derived_id_and_deposit_passes() {
    let rtx = creating_rtx(MIN_PROPOSAL_CAPACITY);
    assert_eq!(create(&rtx, expected_creation_id(), vec![1]), Ok(1_000_000));
}

#[test]
fn creation_with_a_wrong_id_is_refused() {
    let rtx = creating_rtx(MIN_PROPOSAL_CAPACITY);
    assert_eq!(create(&rtx, vec![0u8; 20], vec![1]), Err(creation_refused(ERROR_INVALID_INPUT_HASH)));
    // The id names the output: the same input with output 0 gives another id.
    assert_eq!(create(&rtx, expected_creation_id(), vec![0]), Err(creation_refused(ERROR_INVALID_INPUT_HASH)));
}

#[test]
fn creation_needs_the_minimum_deposit() {
    let rtx = creating_rtx(MIN_PROPOSAL_CAPACITY - 1);
    assert_eq!(create(&rtx, expected_creation_id(), vec![1]), Err(creation_refused(ERROR_INSUFFICIENT_CAPACITY)));
}

#[test]
fn creation_makes_one_cell_from_an_input() {
    let rtx = creating_rtx(MIN_PROPOSAL_CAPACITY);
    assert_eq!(create(&rtx, expected_creation_id(), vec![1, 0]), Err(creation_refused(ERROR_TOO_MANY_CELLS)));
    let mut no_inputs = creating_rtx(MIN_PROPOSAL_CAPACITY);
    no_inputs.transaction.inputs.clear();
    assert_eq!(create(&no_inputs, expected_creation_id(), vec![1]), Err(creation_refused(ERROR_ARGS)));
}

#[test]
fn creation_needs_its_output() {
    let rtx = creating_rtx(MIN_PROPOSAL_CAPACITY);
    let mut preimage = Vec::new();
    preimage.extend_from_slice(&5u64.to_le_bytes());
    preimage.extend_from_slice(&[0x33u8; 32]);
    preimage.extend_from_slice(&2u32.to_le_bytes());
    preimage.extend_from_slice(&7u64.to_le_bytes());
    assert_eq!(create(&rtx, blake160(&preimage).to_vec(), vec![7]), Err(creation_refused(ERROR_ARGS)));
}

#[test]
fn block_range_errors() {
    let start = Header { hash: [1u8; 32], number: 100 };
    let end = Header { hash: [2u8; 32], number: 110 };
    assert_eq!(check_block_range(&proposal_type_script(), Some(start), Some(end), 10), Ok(100));
    assert_eq!(check_block_range(&proposal_type_script(), None, Some(end), 10), Err(refused(ERROR_INVALID_START_BLOCK)));
    assert_eq!(check_block_range(&proposal_type_script(), Some(start), None, 10), Err(refused(ERROR_BLOCK_RANGE_INVALID)));
    assert_eq!(check_block_range(&proposal_type_script(), Some(start), Some(end), 9), Err(refused(ERROR_BLOCK_RANGE_INVALID)));
    let late = Header { hash: [3u8; 32], number: u64::MAX - 1 };
    assert_eq!(check_block_range(&proposal_type_script(), Some(late), Some(end), 2), Err(refused(ERROR_OVERFLOW)));
}

#[test]
fn proposal_cell_data_reads_back() {
    let proposal = make_proposal(42, 3);
    assert_eq!(proposal_from_cell_data(&proposal_type_script(), &proposal.as_bytes()), Ok(proposal));
}

#[test]
fn counting_over_the_provider_blocks() {
    let script = proposal_type_script();
    let proposal = make_proposal(2, 0);
    let provider = chain(2, &script, &[(1, 1, 10), (2, 1, 20)]);
    let mut provider = provider;
    provider.blocks.get_mut(&12).unwrap().transactions.push(vote_tx(&script, 1, 0, 5));
    let (result, cycles) = count_vote(&provider, &proposal, &script, 10).unwrap();
    // Voter 1 voted yes, then no: the later vote counts.
    assert_eq!(result.yes_vote, 20);
    assert_eq!(result.no_vote, 5);
    assert!(result.passed);
    assert_eq!(cycles, 1_000_000 + 2 * 4000 + 3 * 1000);
    // Counting from block 11 needs block 13, which the chain lacks.
    assert_eq!(count_vote(&provider, &proposal, &script, 11).err(), Some(refused(ERROR_BLOCK_COUNT_MISMATCH)));
    assert_eq!(count_vote(&provider, &proposal, &script, u64::MAX).err(), Some(refused(ERROR_OVERFLOW)));
    let greedy = make_proposal(2, u64::MAX);
    assert_eq!(count_vote(&provider, &greedy, &script, 10).err(), Some(refused(ERROR_OVERFLOW)));
}

#[test]
fn consumption_reads_the_consumed_cell() {
    let script = proposal_type_script();
    let proposal = make_proposal(3, 0);
    let provider = chain(3, &script, &[(1, 1, 700)]);
    let mut rtx = consuming_rtx(&proposal, hash_of(10), hash_of(13), true);
    let consumed = rtx.resolved_inputs[0].clone();
    rtx.resolved_inputs[0].mem_cell_data = Some(vec![0u8; 3]);
    rtx.resolved_inputs.push(consumed);
    let group = ScriptGroup { script: script.clone(), input_indices: vec![1], output_indices: Vec::new() };
    assert_eq!(run(&rtx, &group, &provider), Ok(1_000_000 + 3 * 4000 + 1000));
}
