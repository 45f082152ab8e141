//! The proposal type script: a proposal cell is created with a deposit and
//! consumed only once the votes counted over its voting period let it pass.
use vstd::prelude::*;

pub mod count_vote;

use crate::bytes::{copy_range, le_u32, le_u64, push_u64_le, u64_le};
use crate::chain::{
    bytes_view, Block, BlockProvider, CellDataProvider, CellInput, Header, ResolvedTransaction, Script,
    ScriptGroup,
};
use crate::encoding::{
    cell_input_bytes, field, lemma_proposal_bytes_read_back, proposal_bytes, proposal_decodes,
    proposal_ok, Proposal,
};
use crate::error::{failure, ScriptError};
use crate::hash::{blake160, spec_blake160};
use count_vote::{
    count_outcome, count_vote, lemma_window_grows, passes, provider_count, provider_window,
    reports, terms_of, ProposalTerms,
};

verus! {

/// The cycles that verifying a consumed proposal may spend at most.
pub const PROPOSAL_CYCLES: u64 = 50_000_000;

/// Minimum capacity (in shannon) that a proposal cell must lock at creation
/// time as an anti-spam deposit: 1000 CKBytes.
pub const MIN_PROPOSAL_CAPACITY: u64 = 100_000_000_000;

pub const ERROR_ARGS: i8 = -1;
pub const ERROR_TOO_MANY_CELLS: i8 = -2;
pub const ERROR_INVALID_INPUT_HASH: i8 = -3;
pub const ERROR_REQUIRED_FIELD: i8 = -4;
pub const ERROR_PROPOSAL_BOTH_SIDES: i8 = -5;
pub const ERROR_PROPOSAL_NOT_FOUND: i8 = -6;
pub const ERROR_BLOCK_COUNT_MISMATCH: i8 = -7;
pub const ERROR_BLOCK_RANGE_INVALID: i8 = -8;
pub const ERROR_PROPOSAL_FAILED: i8 = -9;
pub const ERROR_INVALID_START_BLOCK: i8 = -10;
pub const ERROR_MISSING_HEADER_DEPS: i8 = -11;
pub const ERROR_PARSE_CELL_DATA: i8 = -12;
pub const ERROR_OVERFLOW: i8 = -13;
pub const ERROR_UNEXPECTED: i8 = -14;
pub const ERROR_INSUFFICIENT_CAPACITY: i8 = -15;


/// The longest voting period that a consumed proposal may have, in blocks.
pub const MAX_DURATION: u32 = 60_000;

/// The cycles that verifying a created proposal costs.
pub const CREATION_CYCLES: u64 = 1_000_000;

/// The id that a proposal created by a transaction whose first input is
/// `input` must carry in its script's arguments, when its cell is output `index`.
pub open spec fn creation_id(input: CellInput, index: u64) -> Seq<u8> {
    spec_blake160(cell_input_bytes(input) + u64_le(index as int))
}

/// What verifying the creation of a proposal cell gives: the group has at
/// most one output, the transaction has an input, the script's arguments are
/// the id derived from the first input and the output's index, and the
/// output locks at least the minimum capacity.
pub open spec fn creation_outcome(rtx: ResolvedTransaction, group: ScriptGroup) -> Result<u64, ScriptError> {
    let tx = rtx.transaction;
    let script = group.script;
    if group.output_indices@.len() > 1 {
        Err(failure(script, ERROR_TOO_MANY_CELLS))
    } else if tx.inputs@.len() == 0 {
        Err(failure(script, ERROR_ARGS))
    } else if group.output_indices@.len() == 0 {
        Err(failure(script, ERROR_ARGS))
    } else {
        let index = group.output_indices@[0];
        if creation_id(tx.inputs@[0], index as u64) != script.args@ {
            Err(failure(script, ERROR_INVALID_INPUT_HASH))
        } else if index >= tx.outputs@.len() {
            Err(failure(script, ERROR_ARGS))
        } else if tx.outputs@[index as int].capacity < MIN_PROPOSAL_CAPACITY {
            Err(failure(script, ERROR_INSUFFICIENT_CAPACITY))
        } else {
            Ok(CREATION_CYCLES)
        }
    }
}

/// What consumption reads first: the position of the proposal cell among
/// the resolved inputs and the two header dependencies, which must start
/// with the block that holds the proposal cell.
pub open spec fn consumption_refs_spec(rtx: ResolvedTransaction, group: ScriptGroup) -> Result<(usize, [u8; 32], [u8; 32]), ScriptError> {
    let script = group.script;
    if group.input_indices@.len() > 1 {
        Err(failure(script, ERROR_TOO_MANY_CELLS))
    } else {
        let index = group.input_indices@[0];
        if index >= rtx.resolved_inputs@.len() {
            Err(failure(script, ERROR_ARGS))
        } else {
            match rtx.resolved_inputs@[index as int].transaction_info {
                None => Err(failure(script, ERROR_ARGS)),
                Some(info) => {
                    let deps = rtx.transaction.header_deps@;
                    if deps.len() < 2 {
                        Err(failure(script, ERROR_MISSING_HEADER_DEPS))
                    } else if deps[0] != info.block_hash {
                        Err(failure(script, ERROR_INVALID_START_BLOCK))
                    } else {
                        Ok((index, deps[0], deps[1]))
                    }
                },
            }
        }
    }
}

/// The terms that proposal bytes `b` state.
pub open spec fn proposal_terms(b: Seq<u8>) -> ProposalTerms {
    ProposalTerms {
        duration: le_u32(field(b, 0)),
        vote_cell_code_hash: field(b, 1),
        vote_cell_hash_type: field(b, 2)[0],
        minimal_requirement: le_u64(field(b, 6)),
    }
}

/// Whether `b` is a proposal whose voting period is between 1 and `MAX_DURATION` blocks.
pub open spec fn proposal_cell_ok(b: Seq<u8>) -> bool {
    proposal_ok(b) && 1 <= le_u32(field(b, 0)) <= MAX_DURATION
}

/// What the two header dependencies give: the start block must be known, the
/// end block too, and the end must be `duration` blocks after the start.
pub open spec fn block_range_spec(script: Script, start: Option<Header>, end: Option<Header>, duration: int) -> Result<u64, ScriptError> {
    match start {
        None => Err(failure(script, ERROR_INVALID_START_BLOCK)),
        Some(s) => match end {
            None => Err(failure(script, ERROR_BLOCK_RANGE_INVALID)),
            Some(e) => {
                if s.number + duration > u64::MAX {
                    Err(failure(script, ERROR_OVERFLOW))
                } else if e.number != s.number + duration {
                    Err(failure(script, ERROR_BLOCK_RANGE_INVALID))
                } else {
                    Ok(s.number)
                }
            },
        },
    }
}

/// What verifying the consumption of a proposal cell gives, given the data
/// of the proposal cell, the headers and the blocks of the voting period as
/// they were loaded. A proposal that lets the count pass is consumed at the
/// count's cycles; one that does not is refused.
pub open spec fn consumption_outcome(
    rtx: ResolvedTransaction,
    group: ScriptGroup,
    cell_data: Option<Seq<u8>>,
    start: Option<Header>,
    end: Option<Header>,
    blocks: Seq<Block>,
) -> Result<u64, ScriptError> {
    let script = group.script;
    match consumption_refs_spec(rtx, group) {
        Err(e) => Err(e),
        Ok(_) => match cell_data {
            None => Err(failure(script, ERROR_PARSE_CELL_DATA)),
            Some(d) => {
                if !proposal_cell_ok(d) {
                    Err(failure(script, ERROR_PARSE_CELL_DATA))
                } else {
                    let terms = proposal_terms(d);
                    match block_range_spec(script, start, end, terms.duration) {
                        Err(e) => Err(e),
                        Ok(_) => match count_outcome(terms, script, blocks) {
                            Err(e) => Err(e),
                            Ok(t) => {
                                if passes(terms, t.votes) {
                                    Ok(t.cycles as u64)
                                } else {
                                    Err(failure(script, ERROR_PROPOSAL_FAILED))
                                }
                            },
                        },
                    }
                }
            },
        },
    }
}

/// The data of the consumed proposal cell: the data held in memory, or else
/// what `provider` holds for the cell's out point.
pub open spec fn proposal_cell_data<B: CellDataProvider>(provider: &B, rtx: ResolvedTransaction, index: usize) -> Option<Seq<u8>> {
    let meta = rtx.resolved_inputs@[index as int];
    match meta.mem_cell_data {
        Some(m) => Some(m@),
        None => bytes_view(provider.cell_data_at(meta.out_point)),
    }
}

/// What verifying the consumption of a proposal cell gives over what
/// `provider` holds: the consumed cell's data, the headers of the two header
/// dependencies, and the blocks of the voting period after the start header.
pub open spec fn provider_consumption<B: BlockProvider + CellDataProvider>(provider: &B, rtx: ResolvedTransaction, group: ScriptGroup) -> Result<u64, ScriptError> {
    match consumption_refs_spec(rtx, group) {
        Err(e) => Err(e),
        Ok((index, start_hash, end_hash)) => {
            let data = proposal_cell_data(provider, rtx, index);
            let start = provider.header_at(start_hash);
            let end = provider.header_at(end_hash);
            let blocks = match (data, start) {
                (Some(d), Some(s)) => provider_window(
                    provider,
                    s.number as int,
                    proposal_terms(d).duration as nat,
                ),
                _ => Seq::empty(),
            };
            consumption_outcome(rtx, group, data, start, end, blocks)
        },
    }
}

/// Creating a proposal cell succeeds exactly when the group names one
/// output, the transaction has an input, the script's arguments are the id
/// derived from the first input and that output's index, and that output
/// (whatever the other outputs hold) locks at least the minimum capacity;
/// success always costs the creation cycles.
pub proof fn lemma_creation_rule(rtx: ResolvedTransaction, group: ScriptGroup)
    ensures
        ({
            let tx = rtx.transaction;
            let ok = {
                &&& group.output_indices@.len() == 1
                &&& tx.inputs@.len() > 0
                &&& group.output_indices@[0] < tx.outputs@.len()
                &&& creation_id(tx.inputs@[0], group.output_indices@[0] as u64) == group.script.args@
                &&& tx.outputs@[group.output_indices@[0] as int].capacity >= MIN_PROPOSAL_CAPACITY
            };
            &&& ok ==> creation_outcome(rtx, group) == Ok::<u64, ScriptError>(CREATION_CYCLES)
            &&& creation_outcome(rtx, group) is Ok ==> ok
            &&& creation_outcome(rtx, group) is Ok ==> creation_outcome(rtx, group) == Ok::<
                u64,
                ScriptError,
            >(CREATION_CYCLES)
        }),
{
}

/// Every proposal whose voting period is between 1 and `MAX_DURATION`
/// blocks, whatever its other fields, is accepted as a proposal cell's data
/// when written out, and reads back as itself with its own terms.
pub proof fn lemma_proposal_cells_read_back(p: Proposal)
    requires
        1 <= p.duration <= MAX_DURATION,
        142 + p.description@.len() + p.receiver.args@.len() < 0x1_0000_0000,
    ensures
        proposal_cell_ok(proposal_bytes(p)),
        proposal_decodes(proposal_bytes(p), p),
        proposal_terms(proposal_bytes(p)) == terms_of(p),
{
    lemma_proposal_bytes_read_back(p);
    assert(proposal_terms(proposal_bytes(p)) =~= terms_of(p));
}

/// Whether consuming with cycles `cycles` rests on the provider: the consumed
/// cell's data is a proposal, the headers of the two header dependencies are
/// the provider's and span the voting period, and the count over the
/// provider's blocks of that period lets the proposal pass at those cycles.
pub open spec fn passed_on_the_count<B: BlockProvider + CellDataProvider>(
    provider: &B,
    rtx: ResolvedTransaction,
    group: ScriptGroup,
    cycles: u64,
) -> bool {
    match consumption_refs_spec(rtx, group) {
        Err(_) => false,
        Ok((index, h0, h1)) => match proposal_cell_data(provider, rtx, index) {
            None => false,
            Some(d) => {
                let terms = proposal_terms(d);
                match (provider.header_at(h0), provider.header_at(h1)) {
                    (Some(s), Some(e)) => {
                        &&& proposal_cell_ok(d)
                        &&& e.number == s.number + terms.duration
                        &&& match provider_count(provider, terms, group.script, s.number) {
                            Ok(t) => passes(terms, t.votes) && cycles == t.cycles,
                            Err(_) => false,
                        }
                    },
                    _ => false,
                }
            },
        },
    }
}

/// A proposal cell is consumed only when its own data, the headers of its
/// two header dependencies and the count over the provider's blocks of its
/// voting period let it pass; the cycles spent are the count's.
#[verifier::spinoff_prover]
#[verifier::rlimit(100)]
pub proof fn lemma_consumption_rests_on_the_count<B: BlockProvider + CellDataProvider>(
    provider: &B,
    rtx: ResolvedTransaction,
    group: ScriptGroup,
)
    requires
        provider_consumption(provider, rtx, group) is Ok,
    ensures
        passed_on_the_count(provider, rtx, group, provider_consumption(provider, rtx, group)->Ok_0),
{
    let r = provider_consumption(provider, rtx, group);
    let (index, h0, h1) = consumption_refs_spec(rtx, group)->Ok_0;
    let data = proposal_cell_data(provider, rtx, index);
    let d = data->Some_0;
    let terms = proposal_terms(d);
    let start = provider.header_at(h0);
    let end = provider.header_at(h1);
    let s = start->Some_0;
    let blocks = provider_window(provider, s.number as int, terms.duration as nat);
    assert(r == consumption_outcome(rtx, group, data, start, end, blocks));
    assert(block_range_spec(group.script, start, end, terms.duration) is Ok);
    let e = end->Some_0;
    assert(e.number == s.number + terms.duration);
    assert(provider_count(provider, terms, group.script, s.number) == count_outcome(
        terms,
        group.script,
        blocks,
    ));
    count_vote::lemma_count_cycles(terms, group.script, blocks);
    let t = count_outcome(terms, group.script, blocks)->Ok_0;
    assert(passes(terms, t.votes));
    assert(r == Ok::<u64, ScriptError>(t.cycles as u64));
}

/// What consumption reads first: where the proposal cell is among the
/// resolved inputs, and the two header dependencies.
pub fn consumption_refs(rtx: &ResolvedTransaction, group: &ScriptGroup) -> (r: Result<(usize, [u8; 32], [u8; 32]), ScriptError>)
    requires
        group.input_indices@.len() >= 1,
    ensures
        r == consumption_refs_spec(*rtx, *group),
{
    let script = &group.script;
    if group.input_indices.len() > 1 {
        return Err(ScriptError::validation_failure(script, ERROR_TOO_MANY_CELLS));
    }
    let index = group.input_indices[0];
    if index >= rtx.resolved_inputs.len() {
        return Err(ScriptError::validation_failure(script, ERROR_ARGS));
    }
    let info = match &rtx.resolved_inputs[index].transaction_info {
        Some(info) => info,
        None => {
            return Err(ScriptError::validation_failure(script, ERROR_ARGS));
        },
    };
    let deps = &rtx.transaction.header_deps;
    if deps.len() < 2 {
        return Err(ScriptError::validation_failure(script, ERROR_MISSING_HEADER_DEPS));
    }
    let start_hash = deps[0];
    let end_hash = deps[1];
    if !crate::bytes::bytes_eq(start_hash.as_slice(), info.block_hash.as_slice()) {
        return Err(ScriptError::validation_failure(script, ERROR_INVALID_START_BLOCK));
    }
    proof {
        assert(start_hash@ == info.block_hash@);
        assert(start_hash == info.block_hash);
    }
    Ok((index, start_hash, end_hash))
}

/// Reads the proposal held in a proposal cell's data; its voting period must
/// be between 1 and `MAX_DURATION` blocks. A refusal names `script`.
pub fn proposal_from_cell_data(script: &Script, data: &[u8]) -> (r: Result<Proposal, ScriptError>)
    ensures
        r is Ok <==> proposal_cell_ok(data@),
        r matches Ok(p) ==> proposal_decodes(data@, p) && terms_of(p) == proposal_terms(data@),
        r matches Err(e) ==> e == failure(*script, ERROR_PARSE_CELL_DATA),
{
    let proposal = match Proposal::from_compatible_slice(data) {
        Some(p) => p,
        None => {
            return Err(ScriptError::validation_failure(script, ERROR_PARSE_CELL_DATA));
        },
    };
    if proposal.duration < 1 || proposal.duration > MAX_DURATION {
        return Err(ScriptError::validation_failure(script, ERROR_PARSE_CELL_DATA));
    }
    assert(terms_of(proposal) =~= proposal_terms(data@));
    Ok(proposal)
}

/// Checks that the voting period runs from the start header to the end
/// header; returns the start block's number. A refusal names `script`.
pub fn check_block_range(script: &Script, start: Option<Header>, end: Option<Header>, duration: u32) -> (r: Result<u64, ScriptError>)
    ensures
        r == block_range_spec(*script, start, end, duration as int),
{
    let start_header = match start {
        Some(h) => h,
        None => {
            return Err(ScriptError::validation_failure(script, ERROR_INVALID_START_BLOCK));
        },
    };
    let end_header = match end {
        Some(h) => h,
        None => {
            return Err(ScriptError::validation_failure(script, ERROR_BLOCK_RANGE_INVALID));
        },
    };
    let expected_end_number = match start_header.number.checked_add(duration as u64) {
        Some(n) => n,
        None => {
            return Err(ScriptError::validation_failure(script, ERROR_OVERFLOW));
        },
    };
    if end_header.number != expected_end_number {
        return Err(ScriptError::validation_failure(script, ERROR_BLOCK_RANGE_INVALID));
    }
    Ok(start_header.number)
}

/// The id derived from the first input of a creating transaction and the
/// index of the proposal's output.
pub fn creation_id_exec(input: &CellInput, index: u64) -> (r: [u8; 20])
    ensures
        r@ == creation_id(*input, index),
{
    let mut preimage = input.as_bytes();
    push_u64_le(&mut preimage, index);
    blake160(preimage.as_slice())
}

/// The proposal type script run on one script group of a resolved transaction.
pub struct ProposalTypeSystemScript<'a, B: CellDataProvider + BlockProvider> {
    pub rtx: &'a ResolvedTransaction,
    pub script_group: &'a ScriptGroup,
    pub max_cycles: u64,
    pub block_provider: &'a B,
}

impl<'a, B: CellDataProvider + BlockProvider> ProposalTypeSystemScript<'a, B> {
    /// Verifies the group: a proposal cell is either created (the group has
    /// outputs only) or consumed (inputs only), never both. Returns the cycles spent.
    pub fn verify(&self) -> (r: Result<u64, ScriptError>)
        ensures
            self.max_cycles < PROPOSAL_CYCLES ==> r == Err::<u64, ScriptError>(
                ScriptError::ExceededMaximumCycles(self.max_cycles),
            ),
            self.max_cycles >= PROPOSAL_CYCLES && self.script_group.input_indices@.len() > 0
                && self.script_group.output_indices@.len() > 0 ==> r == Err::<u64, ScriptError>(
                failure(self.script_group.script, ERROR_PROPOSAL_BOTH_SIDES),
            ),
            self.max_cycles >= PROPOSAL_CYCLES && self.script_group.input_indices@.len() == 0
                ==> r == creation_outcome(*self.rtx, *self.script_group),
            self.max_cycles >= PROPOSAL_CYCLES && self.script_group.input_indices@.len() > 0
                && self.script_group.output_indices@.len() == 0 ==> r == provider_consumption(
                self.block_provider,
                *self.rtx,
                *self.script_group,
            ),
    {
        if self.max_cycles < PROPOSAL_CYCLES {
            return Err(ScriptError::ExceededMaximumCycles(self.max_cycles));
        }
        if self.script_group.input_indices.len() != 0 && self.script_group.output_indices.len()
            != 0 {
            return Err(self.validation_failure(ERROR_PROPOSAL_BOTH_SIDES));
        }
        if self.script_group.input_indices.len() == 0 {
            self.verify_creation()
        } else {
            self.verify_consumption()
        }
    }

    /// Verifies the creation of a proposal cell.
    fn verify_creation(&self) -> (r: Result<u64, ScriptError>)
        ensures
            r == creation_outcome(*self.rtx, *self.script_group),
    {
        if self.script_group.output_indices.len() > 1 {
            return Err(self.validation_failure(ERROR_TOO_MANY_CELLS));
        }
        let tx = &self.rtx.transaction;
        if tx.inputs.len() == 0 {
            return Err(self.validation_failure(ERROR_ARGS));
        }
        let first_cell_input = &tx.inputs[0];
        if self.script_group.output_indices.len() == 0 {
            return Err(self.validation_failure(ERROR_ARGS));
        }
        let output_index = self.script_group.output_indices[0];
        let id = creation_id_exec(first_cell_input, output_index as u64);
        if !crate::bytes::bytes_eq(id.as_slice(), self.script_group.script.args.as_slice()) {
            return Err(self.validation_failure(ERROR_INVALID_INPUT_HASH));
        }
        if output_index >= tx.outputs.len() {
            return Err(self.validation_failure(ERROR_ARGS));
        }
        if tx.outputs[output_index].capacity < MIN_PROPOSAL_CAPACITY {
            return Err(self.validation_failure(ERROR_INSUFFICIENT_CAPACITY));
        }
        Ok(CREATION_CYCLES)
    }

    /// Verifies the consumption of a proposal cell: loads the proposal, checks
    /// the voting period against the header dependencies, and counts the votes.
    fn verify_consumption(&self) -> (r: Result<u64, ScriptError>)
        requires
            self.script_group.input_indices@.len() >= 1,
        ensures
            r == provider_consumption(self.block_provider, *self.rtx, *self.script_group),
    {
        let ghost rtx = *self.rtx;
        let ghost group = *self.script_group;
        let script = &self.script_group.script;
        let (input_index, start_hash, end_hash) = match consumption_refs(self.rtx, self.script_group) {
            Ok(refs) => refs,
            Err(e) => {
                return Err(e);
            },
        };
        let resolved_input = &self.rtx.resolved_inputs[input_index];
        let cell_data: Vec<u8> = match &resolved_input.mem_cell_data {
            Some(data) => copy_range(data.as_slice(), 0, data.len()),
            None => match self.block_provider.get_cell_data(&resolved_input.out_point) {
                Some(data) => data,
                None => {
                    return Err(self.validation_failure(ERROR_PARSE_CELL_DATA));
                },
            },
        };
        proof {
            if resolved_input.mem_cell_data is Some {
                let m = resolved_input.mem_cell_data.unwrap();
                assert(m@.subrange(0, m@.len() as int) =~= m@);
            }
        }
        let ghost data = Some(cell_data@);
        assert(data == proposal_cell_data(self.block_provider, rtx, input_index));
        let proposal = match proposal_from_cell_data(script, cell_data.as_slice()) {
            Ok(p) => p,
            Err(e) => {
                return Err(e);
            },
        };
        let start_header = self.block_provider.get_block_header(&start_hash);
        let end_header = if start_header.is_some() {
            self.block_provider.get_block_header(&end_hash)
        } else {
            None
        };
        let ghost end_model = self.block_provider.header_at(end_hash);
        assert(block_range_spec(*script, start_header, end_header, proposal.duration as int)
            == block_range_spec(*script, start_header, end_model, proposal.duration as int));
        let start_number = match check_block_range(script, start_header, end_header, proposal.duration) {
            Ok(n) => n,
            Err(e) => {
                return Err(e);
            },
        };
        let counted = count_vote(self.block_provider, &proposal, script, start_number);
        assert(provider_count(self.block_provider, terms_of(proposal), *script, start_number)
            == count_outcome(
            terms_of(proposal),
            *script,
            provider_window(self.block_provider, start_number as int, proposal.duration as nat),
        ));
        match counted {
            Ok((result, cycles)) => {
                if result.passed {
                    Ok(cycles)
                } else {
                    Err(self.validation_failure(ERROR_PROPOSAL_FAILED))
                }
            },
            Err(e) => Err(e),
        }
    }

    /// The refusal of this script with the exit code `exit_code`.
    fn validation_failure(&self, exit_code: i8) -> (r: ScriptError)
        ensures
            r == failure(self.script_group.script, exit_code),
    {
        ScriptError::validation_failure(&self.script_group.script, exit_code)
    }
}

} // verus!
