//! Counting the votes cast on a proposal over its voting period.
//!
//! A vote cell carries the proposal's id in its type script's arguments and
//! names its voter by the hash of its lock. A voter's latest vote replaces
//! earlier ones. A vote may name deposit cells among its transaction's cell
//! dependencies; spending such a cell later withdraws the vote. Each block,
//! each withdrawal, each deposit link and each vote costs cycles, and the
//! count stops once the cycles exceed the limit.
use vstd::prelude::*;

use super::{ERROR_BLOCK_COUNT_MISMATCH, ERROR_OVERFLOW, PROPOSAL_CYCLES};
use crate::byte_map::ByteMap;
use crate::bytes::bytes_eq;
use crate::chain::{Block, BlockProvider, CellDep, CellInput, Script, Transaction};
use crate::encoding::{
    out_point_bytes, same_proposal, script_bytes, vote_amount, vote_dao_index, vote_direction,
    vote_ok, Proposal, Vote,
};
use crate::error::{failure, ScriptError};
use crate::hash::{blake160, blake2b_256, ckb_blake2b_256, spec_blake160};

verus! {

/// The cycles charged before the first block.
pub const INITIAL_CYCLES: u64 = 1_000_000;

/// The cycles charged per withdrawal, per deposit link and per vote.
pub const ENTRY_CYCLES: u64 = 1000;

/// The state of a count: each voter's latest vote (direction and amount),
/// the voter that each deposit cell is linked to, and the cycles spent.
#[verifier::ext_equal]
pub struct Tally {
    pub votes: Map<Seq<u8>, (u8, u64)>,
    pub deposits: Map<Seq<u8>, Seq<u8>>,
    pub cycles: int,
}

/// Which vote cells count: the type script's code hash and hash type, and
/// the proposal's id in its arguments.
#[verifier::ext_equal]
pub struct VoteTarget {
    pub code_hash: Seq<u8>,
    pub hash_type: Seq<u8>,
    pub proposal_id: Seq<u8>,
}

/// The state before the first block.
pub open spec fn initial_tally() -> Tally {
    Tally { votes: Map::empty(), deposits: Map::empty(), cycles: INITIAL_CYCLES as int }
}

/// What a count reads of a proposal: the length of its voting period, the
/// code hash and hash type of its vote cells, and its minimal requirement.
#[verifier::ext_equal]
pub struct ProposalTerms {
    pub duration: int,
    pub vote_cell_code_hash: Seq<u8>,
    pub vote_cell_hash_type: u8,
    pub minimal_requirement: int,
}

/// The terms of `proposal`.
pub open spec fn terms_of(proposal: Proposal) -> ProposalTerms {
    ProposalTerms {
        duration: proposal.duration as int,
        vote_cell_code_hash: proposal.vote_cell_code_hash@,
        vote_cell_hash_type: proposal.vote_cell_hash_type,
        minimal_requirement: proposal.minimal_requirement as int,
    }
}

/// The vote cells that count for a proposal with the terms `terms`, whose
/// cell has the type script `script`.
pub open spec fn vote_target(terms: ProposalTerms, script: Script) -> VoteTarget {
    VoteTarget {
        code_hash: terms.vote_cell_code_hash,
        hash_type: seq![terms.vote_cell_hash_type],
        proposal_id: spec_blake160(script_bytes(script)),
    }
}

/// Spends `n` cycles; once the total exceeds the limit, the count stops in
/// the state with that total.
pub open spec fn charge(t: Tally, n: int) -> Result<Tally, Tally> {
    if t.cycles + n > PROPOSAL_CYCLES {
        Err(Tally { votes: t.votes, deposits: t.deposits, cycles: t.cycles + n })
    } else {
        Ok(Tally { votes: t.votes, deposits: t.deposits, cycles: t.cycles + n })
    }
}

/// Spending the cell `out_point`: if it is a linked deposit, its voter's vote is withdrawn.
pub open spec fn spend_cell(t: Tally, out_point: Seq<u8>) -> Result<Tally, Tally> {
    if t.deposits.contains_key(out_point) {
        charge(
            Tally {
                votes: t.votes.remove(t.deposits[out_point]),
                deposits: t.deposits.remove(out_point),
                cycles: t.cycles,
            },
            ENTRY_CYCLES as int,
        )
    } else {
        Ok(t)
    }
}

/// Spending the cells of `inputs`, in order.
pub open spec fn spend_inputs(t: Tally, inputs: Seq<CellInput>) -> Result<Tally, Tally>
    decreases inputs.len(),
{
    if inputs.len() == 0 {
        Ok(t)
    } else {
        match spend_inputs(t, inputs.drop_last()) {
            Ok(u) => spend_cell(u, out_point_bytes(inputs.last().previous_output)),
            Err(c) => Err(c),
        }
    }
}

/// Linking to `voter` the deposit cells that `indices` pick among `deps`; an
/// index past the end picks nothing.
pub open spec fn link_deposits(t: Tally, deps: Seq<CellDep>, voter: Seq<u8>, indices: Seq<u16>) -> Result<Tally, Tally>
    decreases indices.len(),
{
    if indices.len() == 0 {
        Ok(t)
    } else {
        match link_deposits(t, deps, voter, indices.drop_last()) {
            Ok(u) => {
                let i = indices.last() as int;
                if i < deps.len() {
                    charge(
                        Tally {
                            votes: u.votes,
                            deposits: u.deposits.insert(out_point_bytes(deps[i].out_point), voter),
                            cycles: u.cycles,
                        },
                        ENTRY_CYCLES as int,
                    )
                } else {
                    Ok(u)
                }
            },
            Err(c) => Err(c),
        }
    }
}

/// The data of output `j` of `tx`, if that output is a well-formed vote cell for `target`.
pub open spec fn vote_cell_data(tx: Transaction, j: int, target: VoteTarget) -> Option<Seq<u8>> {
    match tx.outputs@[j].type_ {
        Some(ts) => {
            if ts.code_hash@ == target.code_hash && seq![ts.hash_type] == target.hash_type
                && ts.args@ == target.proposal_id && j < tx.outputs_data@.len() && vote_ok(
                tx.outputs_data@[j]@,
            ) {
                Some(tx.outputs_data@[j]@)
            } else {
                None
            }
        },
        None => None,
    }
}

/// The voter of output `j` of `tx`: the hash of its lock script.
pub open spec fn voter_of(tx: Transaction, j: int) -> Seq<u8> {
    ckb_blake2b_256(script_bytes(tx.outputs@[j].lock))
}

/// Recording output `j` of `tx`: a vote cell links its deposits, then sets its voter's vote.
pub open spec fn record_output(t: Tally, tx: Transaction, j: int, target: VoteTarget) -> Result<Tally, Tally> {
    match vote_cell_data(tx, j, target) {
        None => Ok(t),
        Some(d) => {
            let voter = voter_of(tx, j);
            match link_deposits(t, tx.cell_deps@, voter, vote_dao_index(d)) {
                Ok(u) => charge(
                    Tally {
                        votes: u.votes.insert(voter, (vote_direction(d), vote_amount(d) as u64)),
                        deposits: u.deposits,
                        cycles: u.cycles,
                    },
                    ENTRY_CYCLES as int,
                ),
                Err(c) => Err(c),
            }
        },
    }
}

/// Recording the first `n` outputs of `tx`, in order.
pub open spec fn record_outputs(t: Tally, tx: Transaction, n: int, target: VoteTarget) -> Result<Tally, Tally>
    decreases n,
{
    if n <= 0 {
        Ok(t)
    } else {
        match record_outputs(t, tx, n - 1, target) {
            Ok(u) => record_output(u, tx, n - 1, target),
            Err(c) => Err(c),
        }
    }
}

/// A transaction: its inputs are spent, then its outputs recorded.
pub open spec fn process_transaction(t: Tally, tx: Transaction, target: VoteTarget) -> Result<Tally, Tally> {
    match spend_inputs(t, tx.inputs@) {
        Ok(u) => record_outputs(u, tx, tx.outputs@.len() as int, target),
        Err(c) => Err(c),
    }
}

/// The transactions of `txs`, in order.
pub open spec fn process_transactions(t: Tally, txs: Seq<Transaction>, target: VoteTarget) -> Result<Tally, Tally>
    decreases txs.len(),
{
    if txs.len() == 0 {
        Ok(t)
    } else {
        match process_transactions(t, txs.drop_last(), target) {
            Ok(u) => process_transaction(u, txs.last(), target),
            Err(c) => Err(c),
        }
    }
}

/// A block: four cycles per byte of its serialized form, then its transactions.
pub open spec fn process_block_spec(t: Tally, block: Block, target: VoteTarget) -> Result<Tally, Tally> {
    match charge(t, block.serialized_size * 4) {
        Ok(u) => process_transactions(u, block.transactions@, target),
        Err(c) => Err(c),
    }
}

/// The blocks of `blocks`, in order.
pub open spec fn process_blocks(t: Tally, blocks: Seq<Block>, target: VoteTarget) -> Result<Tally, Tally>
    decreases blocks.len(),
{
    if blocks.len() == 0 {
        Ok(t)
    } else {
        match process_blocks(t, blocks.drop_last(), target) {
            Ok(u) => process_block_spec(u, blocks.last(), target),
            Err(c) => Err(c),
        }
    }
}

/// Once spending a prefix of the inputs fails, spending them all fails the same way.
proof fn lemma_spend_inputs_stops(t: Tally, inputs: Seq<CellInput>, k: int)
    requires
        0 <= k <= inputs.len(),
        spend_inputs(t, inputs.take(k)) is Err,
    ensures
        spend_inputs(t, inputs) == spend_inputs(t, inputs.take(k)),
    decreases inputs.len(),
{
    if k == inputs.len() {
        assert(inputs.take(k) =~= inputs);
    } else {
        assert(inputs.drop_last().take(k) =~= inputs.take(k));
        lemma_spend_inputs_stops(t, inputs.drop_last(), k);
    }
}

/// Once linking a prefix of the indices fails, linking them all fails the same way.
proof fn lemma_link_deposits_stops(t: Tally, deps: Seq<CellDep>, voter: Seq<u8>, indices: Seq<u16>, k: int)
    requires
        0 <= k <= indices.len(),
        link_deposits(t, deps, voter, indices.take(k)) is Err,
    ensures
        link_deposits(t, deps, voter, indices) == link_deposits(t, deps, voter, indices.take(k)),
    decreases indices.len(),
{
    if k == indices.len() {
        assert(indices.take(k) =~= indices);
    } else {
        assert(indices.drop_last().take(k) =~= indices.take(k));
        lemma_link_deposits_stops(t, deps, voter, indices.drop_last(), k);
    }
}

/// Once recording the first `k` outputs fails, recording the first `n` fails the same way.
proof fn lemma_record_outputs_stops(t: Tally, tx: Transaction, n: int, k: int, target: VoteTarget)
    requires
        0 <= k <= n,
        record_outputs(t, tx, k, target) is Err,
    ensures
        record_outputs(t, tx, n, target) == record_outputs(t, tx, k, target),
    decreases n,
{
    if k < n {
        lemma_record_outputs_stops(t, tx, n - 1, k, target);
    }
}

/// Once a prefix of the transactions fails, all of them fail the same way.
proof fn lemma_process_transactions_stops(t: Tally, txs: Seq<Transaction>, k: int, target: VoteTarget)
    requires
        0 <= k <= txs.len(),
        process_transactions(t, txs.take(k), target) is Err,
    ensures
        process_transactions(t, txs, target) == process_transactions(t, txs.take(k), target),
    decreases txs.len(),
{
    if k == txs.len() {
        assert(txs.take(k) =~= txs);
    } else {
        assert(txs.drop_last().take(k) =~= txs.take(k));
        lemma_process_transactions_stops(t, txs.drop_last(), k, target);
    }
}

/// Once a prefix of the blocks fails, all of them fail the same way.
pub proof fn lemma_process_blocks_stops(t: Tally, blocks: Seq<Block>, k: int, target: VoteTarget)
    requires
        0 <= k <= blocks.len(),
        process_blocks(t, blocks.take(k), target) is Err,
    ensures
        process_blocks(t, blocks, target) == process_blocks(t, blocks.take(k), target),
    decreases blocks.len(),
{
    if k == blocks.len() {
        assert(blocks.take(k) =~= blocks);
    } else {
        assert(blocks.drop_last().take(k) =~= blocks.take(k));
        lemma_process_blocks_stops(t, blocks.drop_last(), k, target);
    }
}

/// The working state of a count.
pub struct VoteTally {
    pub votes: ByteMap<(u8, u64)>,
    pub deposits: ByteMap<[u8; 32]>,
    pub cycles: u64,
}

impl VoteTally {
    /// Both maps are well formed.
    pub open spec fn maps_wf(&self) -> bool {
        &&& self.votes.wf()
        &&& self.deposits.wf()
    }

    /// Both maps are well formed and the cycles are within the limit.
    pub open spec fn wf(&self) -> bool {
        &&& self.maps_wf()
        &&& self.cycles <= PROPOSAL_CYCLES
    }

    /// The state that the working state holds.
    pub open spec fn tally(&self) -> Tally {
        Tally { votes: self.votes.map(), deposits: self.deposits.map(), cycles: self.cycles as int }
    }

    /// The state before the first block.
    pub fn new() -> (r: VoteTally)
        ensures
            r.wf(),
            r.tally() == initial_tally(),
    {
        VoteTally { votes: ByteMap::new(), deposits: ByteMap::new(), cycles: INITIAL_CYCLES }
    }
}

/// Whether the working state `after` and the result `r` of a step agree with
/// the step's outcome: the state it went on in, or the state it stopped in
/// with the cycles total that it reports.
pub open spec fn step_agrees(r: Result<(), u64>, after: VoteTally, outcome: Result<Tally, Tally>) -> bool {
    match r {
        Ok(_) => after.wf() && outcome == Ok::<Tally, Tally>(after.tally()),
        Err(c) => after.maps_wf() && c == after.cycles && outcome == Err::<Tally, Tally>(
            after.tally(),
        ),
    }
}

/// Spends `n` cycles.
fn charge_cycles(tally: &mut VoteTally, n: u64) -> (r: Result<(), u64>)
    requires
        old(tally).wf(),
        n <= 0x4_0000_0000,
    ensures
        step_agrees(r, *final(tally), charge(old(tally).tally(), n as int)),
        final(tally).votes == old(tally).votes,
        final(tally).deposits == old(tally).deposits,
{
    tally.cycles = tally.cycles + n;
    if tally.cycles > PROPOSAL_CYCLES {
        Err(tally.cycles)
    } else {
        Ok(())
    }
}

/// Spends the cells of `inputs`, withdrawing the votes whose deposits they are.
fn spend_inputs_exec(tally: &mut VoteTally, inputs: &Vec<CellInput>) -> (r: Result<(), u64>)
    requires
        old(tally).wf(),
    ensures
        step_agrees(r, *final(tally), spend_inputs(old(tally).tally(), inputs@)),
{
    let mut i: usize = 0;
    while i < inputs.len()
        invariant
            i <= inputs@.len(),
            tally.wf(),
            spend_inputs(old(tally).tally(), inputs@.take(i as int)) == Ok::<Tally, Tally>(tally.tally()),
        decreases inputs@.len() - i,
    {
        assert(inputs@.take(i + 1).drop_last() =~= inputs@.take(i as int));
        let op = inputs[i].previous_output.as_bytes();
        let ghost before = tally.tally();
        match tally.deposits.remove(op.as_slice()) {
            Some(voter) => {
                tally.votes.remove(voter.as_slice());
                assert(tally.tally() =~= Tally {
                    votes: before.votes.remove(before.deposits[op@]),
                    deposits: before.deposits.remove(op@),
                    cycles: before.cycles,
                });
                let c = charge_cycles(tally, ENTRY_CYCLES);
                if c.is_err() {
                    proof {
                        lemma_spend_inputs_stops(old(tally).tally(), inputs@, i + 1);
                    }
                    return c;
                }
            },
            None => {
                assert(tally.tally() =~= before);
            },
        }
        i = i + 1;
    }
    assert(inputs@.take(i as int) =~= inputs@);
    Ok(())
}

/// Links to `voter` the deposit cells that `indices` pick among `deps`.
fn link_deposits_exec(
    tally: &mut VoteTally,
    deps: &Vec<CellDep>,
    voter: &[u8; 32],
    indices: &Vec<u16>,
) -> (r: Result<(), u64>)
    requires
        old(tally).wf(),
    ensures
        step_agrees(r, *final(tally), link_deposits(old(tally).tally(), deps@, voter@, indices@)),
{
    let mut k: usize = 0;
    while k < indices.len()
        invariant
            k <= indices@.len(),
            tally.wf(),
            link_deposits(old(tally).tally(), deps@, voter@, indices@.take(k as int)) == Ok::<Tally, Tally>(tally.tally()),
        decreases indices@.len() - k,
    {
        assert(indices@.take(k + 1).drop_last() =~= indices@.take(k as int));
        let idx = indices[k] as usize;
        if idx < deps.len() {
            let op = deps[idx].out_point.as_bytes();
            let ghost before = tally.tally();
            tally.deposits.insert(op, *voter);
            assert(tally.tally() =~= Tally {
                votes: before.votes,
                deposits: before.deposits.insert(op@, voter@),
                cycles: before.cycles,
            });
            let c = charge_cycles(tally, ENTRY_CYCLES);
            if c.is_err() {
                proof {
                    lemma_link_deposits_stops(old(tally).tally(), deps@, voter@, indices@, k + 1);
                }
                return c;
            }
        }
        k = k + 1;
    }
    assert(indices@.take(k as int) =~= indices@);
    Ok(())
}

/// The target given by a vote code hash, hash type and proposal id.
pub open spec fn target_of(vote_code_hash: Seq<u8>, vote_hash_type: Seq<u8>, proposal_id: Seq<u8>) -> VoteTarget {
    VoteTarget { code_hash: vote_code_hash, hash_type: vote_hash_type, proposal_id }
}

/// Records output `j` of `tx`: if it is a vote cell for the target, links its
/// deposits and sets its voter's vote.
fn record_output_exec(
    tally: &mut VoteTally,
    tx: &Transaction,
    j: usize,
    vote_code_hash: &[u8],
    vote_hash_type: &[u8],
    proposal_id: &[u8; 20],
) -> (r: Result<(), u64>)
    requires
        old(tally).wf(),
        j < tx.outputs@.len(),
    ensures
        step_agrees(
            r,
            *final(tally),
            record_output(
                old(tally).tally(),
                *tx,
                j as int,
                target_of(vote_code_hash@, vote_hash_type@, proposal_id@),
            ),
        ),
{
    let output = &tx.outputs[j];
    let type_script = match &output.type_ {
        Some(t) => t,
        None => {
            return Ok(());
        },
    };
    if !bytes_eq(type_script.code_hash.as_slice(), vote_code_hash) {
        return Ok(());
    }
    let mut hash_type: Vec<u8> = Vec::new();
    hash_type.push(type_script.hash_type);
    assert(hash_type@ =~= seq![type_script.hash_type]);
    if !bytes_eq(hash_type.as_slice(), vote_hash_type) {
        return Ok(());
    }
    if !bytes_eq(type_script.args.as_slice(), proposal_id.as_slice()) {
        return Ok(());
    }
    if j >= tx.outputs_data.len() {
        return Ok(());
    }
    let vote = match Vote::from_compatible_slice(tx.outputs_data[j].as_slice()) {
        Some(v) => v,
        None => {
            return Ok(());
        },
    };
    let lock_bytes = output.lock.as_bytes();
    let voter = blake2b_256(lock_bytes.as_slice());
    let direction = vote.vote;
    let amount = vote.amount;
    let linked = link_deposits_exec(tally, &tx.cell_deps, &voter, &vote.dao_index);
    if linked.is_err() {
        return linked;
    }
    let ghost before = tally.tally();
    let key = crate::bytes::copy_range(voter.as_slice(), 0, 32);
    assert(voter@.subrange(0, 32) =~= voter@);
    tally.votes.insert(key, (direction, amount));
    assert(tally.tally() =~= Tally {
        votes: before.votes.insert(voter@, (direction, amount)),
        deposits: before.deposits,
        cycles: before.cycles,
    });
    charge_cycles(tally, ENTRY_CYCLES)
}

/// Records the outputs of `tx`, in order.
fn record_outputs_exec(
    tally: &mut VoteTally,
    tx: &Transaction,
    vote_code_hash: &[u8],
    vote_hash_type: &[u8],
    proposal_id: &[u8; 20],
) -> (r: Result<(), u64>)
    requires
        old(tally).wf(),
    ensures
        step_agrees(
            r,
            *final(tally),
            record_outputs(
                old(tally).tally(),
                *tx,
                tx.outputs@.len() as int,
                target_of(vote_code_hash@, vote_hash_type@, proposal_id@),
            ),
        ),
{
    let ghost target = target_of(vote_code_hash@, vote_hash_type@, proposal_id@);
    let mut j: usize = 0;
    while j < tx.outputs.len()
        invariant
            j <= tx.outputs@.len(),
            tally.wf(),
            target == target_of(vote_code_hash@, vote_hash_type@, proposal_id@),
            record_outputs(old(tally).tally(), *tx, j as int, target) == Ok::<Tally, Tally>(
                tally.tally(),
            ),
        decreases tx.outputs@.len() - j,
    {
        let c = record_output_exec(tally, tx, j, vote_code_hash, vote_hash_type, proposal_id);
        if c.is_err() {
            proof {
                lemma_record_outputs_stops(
                    old(tally).tally(),
                    *tx,
                    tx.outputs@.len() as int,
                    j + 1,
                    target,
                );
            }
            return c;
        }
        j = j + 1;
    }
    Ok(())
}

/// Processes the transactions of `txs`, in order.
fn process_transactions_exec(
    tally: &mut VoteTally,
    txs: &Vec<Transaction>,
    vote_code_hash: &[u8],
    vote_hash_type: &[u8],
    proposal_id: &[u8; 20],
) -> (r: Result<(), u64>)
    requires
        old(tally).wf(),
    ensures
        step_agrees(
            r,
            *final(tally),
            process_transactions(
                old(tally).tally(),
                txs@,
                target_of(vote_code_hash@, vote_hash_type@, proposal_id@),
            ),
        ),
{
    let ghost target = target_of(vote_code_hash@, vote_hash_type@, proposal_id@);
    let mut i: usize = 0;
    while i < txs.len()
        invariant
            i <= txs@.len(),
            tally.wf(),
            target == target_of(vote_code_hash@, vote_hash_type@, proposal_id@),
            process_transactions(old(tally).tally(), txs@.take(i as int), target) == Ok::<Tally, Tally>(tally.tally()),
        decreases txs@.len() - i,
    {
        assert(txs@.take(i + 1).drop_last() =~= txs@.take(i as int));
        let tx = &txs[i];
        let spent = spend_inputs_exec(tally, &tx.inputs);
        if spent.is_err() {
            proof {
                lemma_process_transactions_stops(old(tally).tally(), txs@, i + 1, target);
            }
            return spent;
        }
        let recorded = record_outputs_exec(tally, tx, vote_code_hash, vote_hash_type, proposal_id);
        if recorded.is_err() {
            proof {
                lemma_process_transactions_stops(old(tally).tally(), txs@, i + 1, target);
            }
            return recorded;
        }
        i = i + 1;
    }
    assert(txs@.take(i as int) =~= txs@);
    Ok(())
}

/// Whether the working state `after` and the result `r` of processing a block
/// agree with the block's outcome: the state it went on in, or the state it
/// stopped in, whose cycles total the error reports.
pub open spec fn block_agrees(r: Result<(), ScriptError>, after: VoteTally, outcome: Result<Tally, Tally>) -> bool {
    match r {
        Ok(_) => after.wf() && outcome == Ok::<Tally, Tally>(after.tally()),
        Err(ScriptError::ExceededMaximumCycles(c)) => after.maps_wf() && c == after.cycles
            && outcome == Err::<Tally, Tally>(after.tally()),
        Err(ScriptError::ValidationFailure { .. }) => false,
    }
}

/// Processes one block of the voting period: charges four cycles per byte of
/// the block, withdraws the votes whose deposits its transactions spend, and
/// records the votes its transactions cast.
pub fn process_block(
    block: &Block,
    vote_code_hash: &[u8],
    vote_hash_type: &[u8],
    proposal_blake160: &[u8; 20],
    tally: &mut VoteTally,
) -> (r: Result<(), ScriptError>)
    requires
        old(tally).wf(),
    ensures
        block_agrees(
            r,
            *final(tally),
            process_block_spec(
                old(tally).tally(),
                *block,
                target_of(vote_code_hash@, vote_hash_type@, proposal_blake160@),
            ),
        ),
{
    let size_cycles = (block.serialized_size as u64) * 4;
    match charge_cycles(tally, size_cycles) {
        Ok(_) => {},
        Err(c) => {
            return Err(ScriptError::ExceededMaximumCycles(c));
        },
    }
    match process_transactions_exec(
        tally,
        &block.transactions,
        vote_code_hash,
        vote_hash_type,
        proposal_blake160,
    ) {
        Ok(_) => Ok(()),
        Err(c) => Err(ScriptError::ExceededMaximumCycles(c)),
    }
}

/// What a vote adds to the yes side.
pub open spec fn yes_weight(v: (u8, u64)) -> int {
    if v.0 == 1 {
        v.1 as int
    } else {
        0
    }
}

/// What a vote adds to the no side.
pub open spec fn no_weight(v: (u8, u64)) -> int {
    if v.0 == 1 {
        0
    } else {
        v.1 as int
    }
}

/// The amounts of all voters' votes for the proposal.
pub open spec fn yes_total(votes: Map<Seq<u8>, (u8, u64)>) -> int {
    votes.dom().fold(0int, |acc: int, k: Seq<u8>| acc + yes_weight(votes[k]))
}

/// The amounts of all voters' votes against the proposal.
pub open spec fn no_total(votes: Map<Seq<u8>, (u8, u64)>) -> int {
    votes.dom().fold(0int, |acc: int, k: Seq<u8>| acc + no_weight(votes[k]))
}

/// `x`, or the largest `u64` where `x` is larger.
pub open spec fn saturate(x: int) -> int {
    if x > u64::MAX {
        u64::MAX as int
    } else {
        x
    }
}

/// The yes side as the count reports it.
pub open spec fn yes_count(votes: Map<Seq<u8>, (u8, u64)>) -> int {
    saturate(yes_total(votes))
}

/// The no side as the count reports it.
pub open spec fn no_count(votes: Map<Seq<u8>, (u8, u64)>) -> int {
    saturate(no_total(votes))
}

/// A proposal passes when more is voted for it than against it, and more is
/// voted in all than its minimal requirement in CKBytes (10^8 shannon each).
pub open spec fn passes(terms: ProposalTerms, votes: Map<Seq<u8>, (u8, u64)>) -> bool {
    &&& yes_count(votes) > no_count(votes)
    &&& saturate(yes_count(votes) + no_count(votes)) > terms.minimal_requirement * 100_000_000
}

/// The sums of the yes and the no votes, each saturating at the largest `u64`.
fn vote_totals(votes: &ByteMap<(u8, u64)>) -> (r: (u64, u64))
    requires
        votes.wf(),
    ensures
        r.0 == yes_count(votes.map()),
        r.1 == no_count(votes.map()),
{
    let ghost m = votes.map();
    let ghost fy = |acc: int, k: Seq<u8>| acc + yes_weight(m[k]);
    let ghost fno = |acc: int, k: Seq<u8>| acc + no_weight(m[k]);
    assert(vstd::set::fold::is_fun_commutative(fy));
    assert(vstd::set::fold::is_fun_commutative(fno));
    let ghost mut seen: Set<Seq<u8>> = Set::empty();
    proof {
        vstd::set::fold::lemma_fold_empty(0int, fy);
        vstd::set::fold::lemma_fold_empty(0int, fno);
    }
    let mut yes: u64 = 0;
    let mut no: u64 = 0;
    let mut i: usize = 0;
    while i < votes.vals.len()
        invariant
            votes.wf(),
            m == votes.map(),
            fy == (|acc: int, k: Seq<u8>| acc + yes_weight(m[k])),
            fno == (|acc: int, k: Seq<u8>| acc + no_weight(m[k])),
            vstd::set::fold::is_fun_commutative(fy),
            vstd::set::fold::is_fun_commutative(fno),
            i <= votes.vals@.len(),
            seen.finite(),
            forall|k: Seq<u8>|
                #[trigger] seen.contains(k) <==> exists|j: int|
                    0 <= j < i && #[trigger] votes.keys@[j]@ == k,
            seen.fold(0int, fy) >= 0,
            seen.fold(0int, fno) >= 0,
            yes == saturate(seen.fold(0int, fy)),
            no == saturate(seen.fold(0int, fno)),
        decreases votes.vals@.len() - i,
    {
        let ghost k = votes.keys@[i as int]@;
        proof {
            votes.lemma_entry(i as int);
            assert(!seen.contains(k)) by {
                if seen.contains(k) {
                    let j = choose|j: int| 0 <= j < i && #[trigger] votes.keys@[j]@ == k;
                    assert(votes.keys@[j]@ != votes.keys@[i as int]@);
                }
            }
            vstd::set::fold::lemma_fold_insert(seen, 0int, fy, k);
            vstd::set::fold::lemma_fold_insert(seen, 0int, fno, k);
        }
        let (direction, amount) = votes.vals[i];
        if direction == 1 {
            yes = yes.saturating_add(amount);
        } else {
            no = no.saturating_add(amount);
        }
        proof {
            seen = seen.insert(k);
            assert forall|kk: Seq<u8>|
                #[trigger] seen.contains(kk) <==> exists|j: int|
                    0 <= j < i + 1 && #[trigger] votes.keys@[j]@ == kk by {
                if kk == k {
                    assert(votes.keys@[i as int]@ == kk);
                }
            }
        }
        i = i + 1;
    }
    assert(seen =~= m.dom()) by {
        assert forall|k: Seq<u8>| m.dom().contains(k) implies seen.contains(k) by {
            let j = votes.key_index(k);
            assert(votes.keys@[j]@ == k);
        }
    }
    (yes, no)
}

/// The outcome of a count.
#[derive(Debug, Clone)]
pub struct VoteResult {
    pub proposal: Proposal,
    pub yes_vote: u64,
    pub no_vote: u64,
    pub passed: bool,
}

/// What counting over the fetched `blocks` gives: the cycles error where the
/// cycles went over the limit, the block count mismatch where fewer blocks
/// than the voting period came, an overflow where the minimal requirement in
/// shannon does not fit in a `u64`, and the final state otherwise.
pub open spec fn count_outcome(terms: ProposalTerms, script: Script, blocks: Seq<Block>) -> Result<Tally, ScriptError> {
    match process_blocks(initial_tally(), blocks, vote_target(terms, script)) {
        Err(t) => Err(ScriptError::ExceededMaximumCycles(t.cycles as u64)),
        Ok(t) => {
            if blocks.len() < terms.duration {
                Err(failure(script, ERROR_BLOCK_COUNT_MISMATCH))
            } else if terms.minimal_requirement * 100_000_000 > u64::MAX {
                Err(failure(script, ERROR_OVERFLOW))
            } else {
                Ok(t)
            }
        },
    }
}

/// The blocks that `provider` holds for the first `n` numbers after `start`,
/// up to the first number it has no block for.
pub open spec fn provider_window<B: BlockProvider>(provider: &B, start: int, n: nat) -> Seq<Block>
    decreases n,
{
    if n == 0 {
        Seq::empty()
    } else {
        let w = provider_window(provider, start, (n - 1) as nat);
        if w.len() == n - 1 && provider.block_at((start + n) as u64) is Some {
            w.push(provider.block_at((start + n) as u64)->Some_0)
        } else {
            w
        }
    }
}

/// A window has at most `n` blocks and never shrinks as `n` grows.
pub proof fn lemma_window_grows<B: BlockProvider>(provider: &B, start: int, m: nat, n: nat)
    requires
        m <= n,
    ensures
        provider_window(provider, start, n).len() <= n,
        provider_window(provider, start, m).len() <= provider_window(provider, start, n).len(),
        provider_window(provider, start, n).take(provider_window(provider, start, m).len() as int)
            == provider_window(provider, start, m),
        provider_window(provider, start, m).len() < m ==> provider_window(provider, start, n)
            == provider_window(provider, start, m),
    decreases n,
{
    let wm = provider_window(provider, start, m);
    if n == m {
        assert(wm.take(wm.len() as int) =~= wm);
        if n > 0 {
            lemma_window_grows(provider, start, (n - 1) as nat, (n - 1) as nat);
        }
    } else {
        lemma_window_grows(provider, start, m, (n - 1) as nat);
        let wp = provider_window(provider, start, (n - 1) as nat);
        let wn = provider_window(provider, start, n);
        if wn != wp {
            assert(wn == wp.push(provider.block_at((start + n) as u64)->Some_0));
            assert(wn.take(wm.len() as int) =~= wp.take(wm.len() as int));
        }
    }
}

/// What counting the votes for a proposal with the terms `terms`, whose cell
/// has the type script `script`, over the blocks that `provider` holds after
/// block `start` gives. Where the numbers of the voting period do not fit in
/// a `u64`, the count is refused with an overflow.
pub open spec fn provider_count<B: BlockProvider>(provider: &B, terms: ProposalTerms, script: Script, start: u64) -> Result<Tally, ScriptError> {
    if start == u64::MAX || start + terms.duration > u64::MAX {
        Err(failure(script, ERROR_OVERFLOW))
    } else {
        count_outcome(terms, script, provider_window(provider, start as int, terms.duration as nat))
    }
}

/// Whether a count's result reports the outcome `outcome` for `proposal`.
pub open spec fn reports(r: Result<(VoteResult, u64), ScriptError>, proposal: Proposal, outcome: Result<Tally, ScriptError>) -> bool {
    match outcome {
        Ok(t) => r matches Ok((vr, cycles)) && {
            &&& same_proposal(vr.proposal, proposal)
            &&& vr.yes_vote == yes_count(t.votes)
            &&& vr.no_vote == no_count(t.votes)
            &&& vr.passed == passes(terms_of(proposal), t.votes)
            &&& cycles == t.cycles
        },
        Err(e) => r == Err::<(VoteResult, u64), ScriptError>(e),
    }
}

/// The result of a count that ended with the state `tally`.
fn finish(proposal: &Proposal, proposal_script: &Script, tally: &VoteTally) -> (r: Result<(VoteResult, u64), ScriptError>)
    requires
        tally.wf(),
    ensures
        proposal.minimal_requirement * 100_000_000 > u64::MAX ==> r == Err::<
            (VoteResult, u64),
            ScriptError,
        >(failure(*proposal_script, ERROR_OVERFLOW)),
        proposal.minimal_requirement * 100_000_000 <= u64::MAX ==> reports(
            r,
            *proposal,
            Ok(tally.tally()),
        ),
{
    let (yes_vote, no_vote) = vote_totals(&tally.votes);
    let total_vote = yes_vote.saturating_add(no_vote);
    let min_shannon = match proposal.minimal_requirement.checked_mul(100_000_000) {
        Some(m) => m,
        None => {
            return Err(ScriptError::validation_failure(proposal_script, ERROR_OVERFLOW));
        },
    };
    let passed = yes_vote > no_vote && total_vote > min_shannon;
    Ok((VoteResult { proposal: proposal.copy(), yes_vote, no_vote, passed }, tally.cycles))
}

/// The code hash, hash type and proposal id that vote cells for `proposal` carry.
fn vote_target_exec(proposal: &Proposal, proposal_script: &Script) -> (r: (Vec<u8>, Vec<u8>, [u8; 20]))
    ensures
        target_of(r.0@, r.1@, r.2@) == vote_target(terms_of(*proposal), *proposal_script),
{
    let mut code_hash: Vec<u8> = Vec::new();
    crate::bytes::push_bytes(&mut code_hash, proposal.vote_cell_code_hash.as_slice());
    let mut hash_type: Vec<u8> = Vec::new();
    hash_type.push(proposal.vote_cell_hash_type);
    let script_bytes = proposal_script.as_bytes();
    let id = blake160(script_bytes.as_slice());
    assert(code_hash@ =~= proposal.vote_cell_code_hash@);
    assert(hash_type@ =~= seq![proposal.vote_cell_hash_type]);
    assert(target_of(code_hash@, hash_type@, id@) =~= vote_target(terms_of(*proposal), *proposal_script));
    (code_hash, hash_type, id)
}

/// Counts the votes for `proposal`, whose cell has the type script
/// `proposal_script`, over the `duration` blocks that follow block
/// `start_number`, loading each block by its number from `block_provider`.
/// The count stops at the first number the provider has no block for, with
/// a block count mismatch, and once the cycles exceed the limit.
pub fn count_vote<B: BlockProvider>(
    block_provider: &B,
    proposal: &Proposal,
    proposal_script: &Script,
    start_number: u64,
) -> (r: Result<(VoteResult, u64), ScriptError>)
    ensures
        reports(
            r,
            *proposal,
            provider_count(block_provider, terms_of(*proposal), *proposal_script, start_number),
        ),
{
    let duration = proposal.duration as u64;
    if start_number == u64::MAX || start_number > u64::MAX - duration {
        return Err(ScriptError::validation_failure(proposal_script, ERROR_OVERFLOW));
    }
    let (code_hash, hash_type, id) = vote_target_exec(proposal, proposal_script);
    let ghost target = vote_target(terms_of(*proposal), *proposal_script);
    let ghost terms = terms_of(*proposal);
    let ghost start = start_number as int;
    let mut tally = VoteTally::new();
    let ghost mut fetched: Seq<Block> = Seq::empty();
    assert(process_blocks(initial_tally(), fetched, target) == Ok::<Tally, Tally>(tally.tally()));
    assert(fetched == provider_window(block_provider, start, 0));
    let mut k: u64 = 0;
    while k < duration
        invariant
            duration == proposal.duration,
            start_number < u64::MAX,
            start_number + duration <= u64::MAX,
            start == start_number as int,
            k <= duration,
            fetched.len() == k,
            fetched == provider_window(block_provider, start, k as nat),
            tally.wf(),
            terms == terms_of(*proposal),
            target == target_of(code_hash@, hash_type@, id@),
            target == vote_target(terms, *proposal_script),
            process_blocks(initial_tally(), fetched, target) == Ok::<Tally, Tally>(tally.tally()),
        decreases duration - k,
    {
        let block = match block_provider.get_block_by_number(start_number + 1 + k) {
            Some(b) => b,
            None => {
                proof {
                    assert(provider_window(block_provider, start, (k + 1) as nat) == fetched);
                    lemma_window_grows(block_provider, start, (k + 1) as nat, duration as nat);
                }
                let r = Err(ScriptError::validation_failure(proposal_script, ERROR_BLOCK_COUNT_MISMATCH));
                assert(reports(r, *proposal, provider_count(block_provider, terms, *proposal_script, start_number)));
                return r;
            },
        };
        let step = process_block(&block, code_hash.as_slice(), hash_type.as_slice(), &id, &mut tally);
        proof {
            assert(fetched.push(block).drop_last() =~= fetched);
            fetched = fetched.push(block);
            assert(fetched == provider_window(block_provider, start, (k + 1) as nat));
        }
        match step {
            Ok(_) => {},
            Err(ScriptError::ExceededMaximumCycles(c)) => {
                proof {
                    lemma_window_grows(block_provider, start, (k + 1) as nat, duration as nat);
                    let w = provider_window(block_provider, start, duration as nat);
                    assert(w.take(k + 1) == fetched);
                    lemma_process_blocks_stops(initial_tally(), w, k + 1, target);
                }
                let r = Err(ScriptError::ExceededMaximumCycles(c));
                assert(reports(r, *proposal, provider_count(block_provider, terms, *proposal_script, start_number)));
                return r;
            },
            Err(e) => {
                assert(false);
                return Err(e);
            },
        }
        k = k + 1;
    }
    finish(proposal, proposal_script, &tally)
}

/// An output that is not a well-formed vote cell for the target changes nothing.
pub proof fn lemma_other_cells_ignored(t: Tally, tx: Transaction, j: int, target: VoteTarget)
    requires
        vote_cell_data(tx, j, target) is None,
    ensures
        record_output(t, tx, j, target) == Ok::<Tally, Tally>(t),
{
}

/// Spending a deposit cell that a vote linked withdraws that voter's vote
/// and unlinks the cell.
pub proof fn lemma_spent_deposit_withdraws_vote(t: Tally, out_point: Seq<u8>)
    requires
        t.deposits.contains_key(out_point),
        spend_cell(t, out_point) is Ok,
    ensures
        !spend_cell(t, out_point)->Ok_0.votes.contains_key(t.deposits[out_point]),
        !spend_cell(t, out_point)->Ok_0.deposits.contains_key(out_point),
{
}

/// Linking deposits leaves the votes as they were and spends no fewer cycles.
proof fn lemma_link_deposits_keeps_votes(t: Tally, deps: Seq<CellDep>, voter: Seq<u8>, indices: Seq<u16>)
    requires
        link_deposits(t, deps, voter, indices) is Ok,
    ensures
        link_deposits(t, deps, voter, indices)->Ok_0.votes == t.votes,
    decreases indices.len(),
{
    if indices.len() > 0 {
        lemma_link_deposits_keeps_votes(t, deps, voter, indices.drop_last());
    }
}

/// A vote cell sets its voter's vote to its direction and amount, in place of
/// any earlier vote of the same voter; no other voter's vote changes.
pub proof fn lemma_latest_vote_replaces(t: Tally, tx: Transaction, j: int, target: VoteTarget)
    requires
        vote_cell_data(tx, j, target) is Some,
        record_output(t, tx, j, target) is Ok,
    ensures
        ({
            let d = vote_cell_data(tx, j, target)->Some_0;
            let after = record_output(t, tx, j, target)->Ok_0;
            &&& after.votes == t.votes.insert(
                voter_of(tx, j),
                (vote_direction(d), vote_amount(d) as u64),
            )
            &&& after.votes[voter_of(tx, j)] == (vote_direction(d), vote_amount(d) as u64)
        }),
{
    let d = vote_cell_data(tx, j, target)->Some_0;
    lemma_link_deposits_keeps_votes(t, tx.cell_deps@, voter_of(tx, j), vote_dao_index(d));
}

/// Whether a step from `t` that spends no fewer cycles than it starts with,
/// and stays within the limit when it succeeds, gave `r`.
pub open spec fn cycles_bounded(t: Tally, r: Result<Tally, Tally>) -> bool {
    match r {
        Ok(u) => t.cycles <= u.cycles <= PROPOSAL_CYCLES,
        Err(u) => PROPOSAL_CYCLES < u.cycles <= PROPOSAL_CYCLES + 4 * 0xffff_ffff,
    }
}

proof fn lemma_spend_inputs_bounded(t: Tally, inputs: Seq<CellInput>)
    requires
        t.cycles <= PROPOSAL_CYCLES,
    ensures
        cycles_bounded(t, spend_inputs(t, inputs)),
    decreases inputs.len(),
{
    if inputs.len() > 0 {
        lemma_spend_inputs_bounded(t, inputs.drop_last());
    }
}

proof fn lemma_link_deposits_bounded(t: Tally, deps: Seq<CellDep>, voter: Seq<u8>, indices: Seq<u16>)
    requires
        t.cycles <= PROPOSAL_CYCLES,
    ensures
        cycles_bounded(t, link_deposits(t, deps, voter, indices)),
    decreases indices.len(),
{
    if indices.len() > 0 {
        lemma_link_deposits_bounded(t, deps, voter, indices.drop_last());
    }
}

proof fn lemma_record_outputs_bounded(t: Tally, tx: Transaction, n: int, target: VoteTarget)
    requires
        t.cycles <= PROPOSAL_CYCLES,
    ensures
        cycles_bounded(t, record_outputs(t, tx, n, target)),
    decreases n,
{
    if n > 0 {
        lemma_record_outputs_bounded(t, tx, n - 1, target);
        if let Ok(u) = record_outputs(t, tx, n - 1, target) {
            if let Some(d) = vote_cell_data(tx, n - 1, target) {
                lemma_link_deposits_bounded(u, tx.cell_deps@, voter_of(tx, n - 1), vote_dao_index(d));
            }
        }
    }
}

proof fn lemma_process_transactions_bounded(t: Tally, txs: Seq<Transaction>, target: VoteTarget)
    requires
        t.cycles <= PROPOSAL_CYCLES,
    ensures
        cycles_bounded(t, process_transactions(t, txs, target)),
    decreases txs.len(),
{
    if txs.len() > 0 {
        lemma_process_transactions_bounded(t, txs.drop_last(), target);
        if let Ok(u) = process_transactions(t, txs.drop_last(), target) {
            lemma_spend_inputs_bounded(u, txs.last().inputs@);
            if let Ok(w) = spend_inputs(u, txs.last().inputs@) {
                lemma_record_outputs_bounded(w, txs.last(), txs.last().outputs@.len() as int, target);
            }
        }
    }
}

/// Counting over blocks never lowers the cycles spent; a count that goes on
/// stays within the limit, and one that stops reports cycles over it.
pub proof fn lemma_process_blocks_bounded(t: Tally, blocks: Seq<Block>, target: VoteTarget)
    requires
        t.cycles <= PROPOSAL_CYCLES,
    ensures
        cycles_bounded(t, process_blocks(t, blocks, target)),
    decreases blocks.len(),
{
    if blocks.len() > 0 {
        lemma_process_blocks_bounded(t, blocks.drop_last(), target);
        if let Ok(u) = process_blocks(t, blocks.drop_last(), target) {
            if let Ok(w) = charge(u, blocks.last().serialized_size * 4) {
                lemma_process_transactions_bounded(w, blocks.last().transactions@, target);
            }
        }
    }
}

/// A count that succeeds spent at least the initial cycles and at most the
/// limit; a count that ran out of cycles reports a total over the limit.
pub proof fn lemma_count_cycles(terms: ProposalTerms, script: Script, blocks: Seq<Block>)
    ensures
        count_outcome(terms, script, blocks) matches Ok(t) ==> INITIAL_CYCLES <= t.cycles
            <= PROPOSAL_CYCLES,
        count_outcome(terms, script, blocks) matches Err(ScriptError::ExceededMaximumCycles(c))
            ==> c > PROPOSAL_CYCLES,
{
    let r = process_blocks(initial_tally(), blocks, vote_target(terms, script));
    lemma_process_blocks_bounded(initial_tally(), blocks, vote_target(terms, script));
    assert(cycles_bounded(initial_tally(), r));
}

/// A proposal passes exactly when more is voted for it than against it and
/// the votes on both sides together exceed the minimal requirement in
/// shannon: a yes majority that reaches the requirement only with the no
/// votes added passes, and one that does not reach it even so fails.
pub proof fn lemma_pass_rule(terms: ProposalTerms, votes: Map<Seq<u8>, (u8, u64)>)
    ensures
        passes(terms, votes) ==> yes_count(votes) > no_count(votes),
        passes(terms, votes) ==> yes_count(votes) + no_count(votes) > terms.minimal_requirement
            * 100_000_000,
        yes_count(votes) > no_count(votes) && yes_count(votes) + no_count(votes)
            > terms.minimal_requirement * 100_000_000 && terms.minimal_requirement * 100_000_000
            < u64::MAX ==> passes(terms, votes),
{
}

/// The sums over a vote map of two voters, one voting for with `x` and one
/// against with `y`, are `x` and `y`; the proposal passes exactly when
/// `x > y` and `x + y` (capped at the largest `u64`) exceeds the minimal
/// requirement in shannon.
pub proof fn lemma_two_voters(terms: ProposalTerms, a: Seq<u8>, b: Seq<u8>, x: u64, y: u64)
    requires
        a != b,
    ensures
        ({
            let votes = Map::<Seq<u8>, (u8, u64)>::empty().insert(a, (1u8, x)).insert(b, (0u8, y));
            &&& yes_count(votes) == x
            &&& no_count(votes) == y
            &&& passes(terms, votes) <==> (x > y && saturate(x + y) > terms.minimal_requirement
                * 100_000_000)
        }),
{
    let votes = Map::<Seq<u8>, (u8, u64)>::empty().insert(a, (1u8, x)).insert(b, (0u8, y));
    let fy = |acc: int, k: Seq<u8>| acc + yes_weight(votes[k]);
    let fno = |acc: int, k: Seq<u8>| acc + no_weight(votes[k]);
    assert(vstd::set::fold::is_fun_commutative(fy));
    assert(vstd::set::fold::is_fun_commutative(fno));
    let s0 = Set::<Seq<u8>>::empty();
    let s1 = s0.insert(a);
    let s2 = s1.insert(b);
    assert(votes.dom() =~= s2);
    vstd::set::fold::lemma_fold_empty(0int, fy);
    vstd::set::fold::lemma_fold_empty(0int, fno);
    vstd::set::fold::lemma_fold_insert(s0, 0int, fy, a);
    vstd::set::fold::lemma_fold_insert(s0, 0int, fno, a);
    assert(!s1.contains(b));
    vstd::set::fold::lemma_fold_insert(s1, 0int, fy, b);
    vstd::set::fold::lemma_fold_insert(s1, 0int, fno, b);
    assert(votes[a] == (1u8, x));
    assert(votes[b] == (0u8, y));
    assert(yes_total(votes) == x);
    assert(no_total(votes) == y);
}

/// Linking deposits links every deposit cell that an index picks: each
/// index within the cell dependencies maps that dependency's out point to
/// the voter; deposits the indices do not pick keep their voters.
pub proof fn lemma_every_deposit_links(t: Tally, deps: Seq<CellDep>, voter: Seq<u8>, indices: Seq<u16>)
    requires
        link_deposits(t, deps, voter, indices) is Ok,
    ensures
        ({
            let u = link_deposits(t, deps, voter, indices)->Ok_0;
            &&& forall|k: int|
                0 <= k < indices.len() && (#[trigger] indices[k] as int) < deps.len() ==> {
                    &&& u.deposits.contains_key(out_point_bytes(deps[indices[k] as int].out_point))
                    &&& u.deposits[out_point_bytes(deps[indices[k] as int].out_point)] == voter
                }
            &&& forall|key: Seq<u8>|
                #[trigger] t.deposits.contains_key(key) ==> u.deposits.contains_key(key) && (
                u.deposits[key] == t.deposits[key] || u.deposits[key] == voter)
            &&& u.votes == t.votes
        }),
    decreases indices.len(),
{
    if indices.len() > 0 {
        let prefix = indices.drop_last();
        lemma_every_deposit_links(t, deps, voter, prefix);
        let u = link_deposits(t, deps, voter, indices)->Ok_0;
        let w = link_deposits(t, deps, voter, prefix)->Ok_0;
        assert forall|k: int|
            0 <= k < indices.len() && (#[trigger] indices[k] as int) < deps.len() implies {
            &&& u.deposits.contains_key(out_point_bytes(deps[indices[k] as int].out_point))
            &&& u.deposits[out_point_bytes(deps[indices[k] as int].out_point)] == voter
        } by {
            if k < indices.len() - 1 {
                assert(prefix[k] == indices[k]);
            }
        }
    }
}

/// Recording a vote cell links every deposit cell that its indices pick to
/// the cell's voter, so spending any one of them later withdraws the vote.
pub proof fn lemma_vote_links_all_deposits(t: Tally, tx: Transaction, j: int, target: VoteTarget)
    requires
        vote_cell_data(tx, j, target) is Some,
        record_output(t, tx, j, target) is Ok,
    ensures
        ({
            let d = vote_cell_data(tx, j, target)->Some_0;
            let indices = vote_dao_index(d);
            let deps = tx.cell_deps@;
            let u = record_output(t, tx, j, target)->Ok_0;
            forall|k: int|
                0 <= k < indices.len() && (#[trigger] indices[k] as int) < deps.len() ==> {
                    &&& u.deposits.contains_key(out_point_bytes(deps[indices[k] as int].out_point))
                    &&& u.deposits[out_point_bytes(deps[indices[k] as int].out_point)]
                        == voter_of(tx, j)
                }
        }),
{
    let d = vote_cell_data(tx, j, target)->Some_0;
    lemma_every_deposit_links(t, tx.cell_deps@, voter_of(tx, j), vote_dao_index(d));
}

/// Spending the inputs of a transaction unlinks every input's out point, and
/// no voter linked to a deposit that the inputs unlinked keeps a vote; votes
/// are only withdrawn, deposits only unlinked.
pub proof fn lemma_every_input_spent(t: Tally, inputs: Seq<CellInput>)
    requires
        spend_inputs(t, inputs) is Ok,
    ensures
        ({
            let u = spend_inputs(t, inputs)->Ok_0;
            &&& forall|k: int|
                0 <= k < inputs.len() ==> !u.deposits.contains_key(
                    out_point_bytes(#[trigger] inputs[k].previous_output),
                )
            &&& forall|k: int|
                0 <= k < inputs.len() && t.deposits.contains_key(
                    out_point_bytes(#[trigger] inputs[k].previous_output),
                ) ==> !u.votes.contains_key(t.deposits[out_point_bytes(inputs[k].previous_output)])
            &&& forall|key: Seq<u8>|
                #[trigger] u.deposits.contains_key(key) ==> t.deposits.contains_key(key)
                    && u.deposits[key] == t.deposits[key]
            &&& forall|key: Seq<u8>|
                #[trigger] t.deposits.contains_key(key) && !u.deposits.contains_key(key)
                    ==> !u.votes.contains_key(t.deposits[key])
            &&& forall|v: Seq<u8>| #[trigger] u.votes.contains_key(v) ==> t.votes.contains_key(v)
        }),
    decreases inputs.len(),
{
    if inputs.len() > 0 {
        let prefix = inputs.drop_last();
        lemma_every_input_spent(t, prefix);
        let w = spend_inputs(t, prefix)->Ok_0;
        let u = spend_inputs(t, inputs)->Ok_0;
        let op = out_point_bytes(inputs.last().previous_output);
        assert forall|k: int| 0 <= k < inputs.len() implies !u.deposits.contains_key(
            out_point_bytes(#[trigger] inputs[k].previous_output),
        ) by {
            if k < inputs.len() - 1 {
                assert(prefix[k] == inputs[k]);
            }
        }
        assert forall|key: Seq<u8>|
            #[trigger] t.deposits.contains_key(key) && !u.deposits.contains_key(key)
                implies !u.votes.contains_key(t.deposits[key]) by {
            if w.deposits.contains_key(key) {
                assert(key == op);
            }
        }
        assert forall|k: int|
            0 <= k < inputs.len() && t.deposits.contains_key(
                out_point_bytes(#[trigger] inputs[k].previous_output),
            ) implies !u.votes.contains_key(t.deposits[out_point_bytes(inputs[k].previous_output)]) by {
            let key = out_point_bytes(inputs[k].previous_output);
            assert(!u.deposits.contains_key(key));
        }
    }
}

/// Recording outputs adds votes only for the voters of the vote cells among
/// them: any voter with a vote afterwards had one before or cast one there.
pub proof fn lemma_outputs_add_only_their_voters(t: Tally, tx: Transaction, n: int, target: VoteTarget)
    requires
        record_outputs(t, tx, n, target) is Ok,
    ensures
        forall|v: Seq<u8>|
            #[trigger] record_outputs(t, tx, n, target)->Ok_0.votes.contains_key(v) ==> t.votes.contains_key(v)
                || exists|j: int|
                0 <= j < n && vote_cell_data(tx, j, target) is Some && #[trigger] voter_of(tx, j)
                    == v,
    decreases n,
{
    if n > 0 {
        lemma_outputs_add_only_their_voters(t, tx, n - 1, target);
        let w = record_outputs(t, tx, n - 1, target)->Ok_0;
        let u = record_outputs(t, tx, n, target)->Ok_0;
        if let Some(d) = vote_cell_data(tx, n - 1, target) {
            lemma_link_deposits_keeps_votes(w, tx.cell_deps@, voter_of(tx, n - 1), vote_dao_index(d));
        }
        assert forall|v: Seq<u8>| #[trigger] u.votes.contains_key(v) implies t.votes.contains_key(v)
            || exists|j: int|
            0 <= j < n && vote_cell_data(tx, j, target) is Some && #[trigger] voter_of(tx, j)
                == v by {
            if !w.votes.contains_key(v) {
                assert(vote_cell_data(tx, n - 1, target) is Some && voter_of(tx, n - 1) == v);
            } else if !t.votes.contains_key(v) {
                let j = choose|j: int|
                    0 <= j < n - 1 && vote_cell_data(tx, j, target) is Some && #[trigger] voter_of(
                        tx,
                        j,
                    ) == v;
                assert(0 <= j < n && vote_cell_data(tx, j, target) is Some && voter_of(tx, j) == v);
            }
        }
    }
}

/// After a transaction, a voter linked to a deposit that any of its inputs
/// spends has no vote, unless one of the transaction's own vote cells casts
/// it again.
pub proof fn lemma_transaction_withdraws_spent_deposits(t: Tally, tx: Transaction, target: VoteTarget)
    requires
        process_transaction(t, tx, target) is Ok,
    ensures
        forall|k: int|
            0 <= k < tx.inputs@.len() && t.deposits.contains_key(
                out_point_bytes(#[trigger] tx.inputs@[k].previous_output),
            ) && process_transaction(t, tx, target)->Ok_0.votes.contains_key(
                t.deposits[out_point_bytes(tx.inputs@[k].previous_output)],
            ) ==> exists|j: int|
                0 <= j < tx.outputs@.len() && vote_cell_data(tx, j, target) is Some && #[trigger] voter_of(
                    tx,
                    j,
                ) == t.deposits[out_point_bytes(tx.inputs@[k].previous_output)],
{
    let w = spend_inputs(t, tx.inputs@)->Ok_0;
    lemma_every_input_spent(t, tx.inputs@);
    lemma_outputs_add_only_their_voters(w, tx, tx.outputs@.len() as int, target);
    let u = process_transaction(t, tx, target)->Ok_0;
    assert forall|k: int|
        0 <= k < tx.inputs@.len() && t.deposits.contains_key(
            out_point_bytes(#[trigger] tx.inputs@[k].previous_output),
        ) && u.votes.contains_key(
            t.deposits[out_point_bytes(tx.inputs@[k].previous_output)],
        ) implies exists|j: int|
        0 <= j < tx.outputs@.len() && vote_cell_data(tx, j, target) is Some && #[trigger] voter_of(
            tx,
            j,
        ) == t.deposits[out_point_bytes(tx.inputs@[k].previous_output)] by {
        let v = t.deposits[out_point_bytes(tx.inputs@[k].previous_output)];
        assert(!w.votes.contains_key(v));
        assert(u.votes.contains_key(v));
    }
}

} // verus!
