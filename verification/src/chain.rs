//! The chain data that the proposal script reads, and the traits that load it.
use vstd::prelude::*;

verus! {

/// A script: the code it names, how the code is matched, and its arguments.
#[derive(Clone, Debug, PartialEq, Eq)]
pub struct Script {
    pub code_hash: [u8; 32],
    pub hash_type: u8,
    pub args: Vec<u8>,
}

/// A reference to a cell: the hash of the transaction that made it and its output index.
#[derive(Clone, Copy, Debug, PartialEq, Eq)]
pub struct OutPoint {
    pub tx_hash: [u8; 32],
    pub index: u32,
}

/// A transaction input: the cell it spends and its `since` restriction.
#[derive(Clone, Copy, Debug, PartialEq, Eq)]
pub struct CellInput {
    pub since: u64,
    pub previous_output: OutPoint,
}

/// A transaction output cell, without its data.
#[derive(Clone, Debug, PartialEq, Eq)]
pub struct CellOutput {
    pub capacity: u64,
    pub lock: Script,
    pub type_: Option<Script>,
}

/// A cell dependency of a transaction: the cell, and the byte of its `DepType`.
#[derive(Clone, Copy, Debug, PartialEq, Eq)]
pub struct CellDep {
    pub out_point: OutPoint,
    pub dep_type: u8,
}

/// The raw parts of a transaction that the script reads.
#[derive(Clone, Debug, PartialEq, Eq)]
pub struct Transaction {
    pub inputs: Vec<CellInput>,
    pub outputs: Vec<CellOutput>,
    pub outputs_data: Vec<Vec<u8>>,
    pub cell_deps: Vec<CellDep>,
    pub header_deps: Vec<[u8; 32]>,
}

/// A block header: its hash and its number.
#[derive(Clone, Copy, Debug, PartialEq, Eq)]
pub struct Header {
    pub hash: [u8; 32],
    pub number: u64,
}

/// A block: its header, the size of its serialized form in bytes, and its transactions.
#[derive(Clone, Debug, PartialEq, Eq)]
pub struct Block {
    pub header: Header,
    pub serialized_size: u32,
    pub transactions: Vec<Transaction>,
}

/// Where a live cell was committed.
#[derive(Clone, Copy, Debug, PartialEq, Eq)]
pub struct TransactionInfo {
    pub block_hash: [u8; 32],
    pub block_number: u64,
    pub index: usize,
}

/// A resolved input cell.
#[derive(Clone, Debug, PartialEq, Eq)]
pub struct CellMeta {
    pub out_point: OutPoint,
    pub transaction_info: Option<TransactionInfo>,
    pub mem_cell_data: Option<Vec<u8>>,
}

/// A transaction together with the cells that its inputs spend.
#[derive(Clone, Debug, PartialEq, Eq)]
pub struct ResolvedTransaction {
    pub transaction: Transaction,
    pub resolved_inputs: Vec<CellMeta>,
}

/// The cells of a transaction that share one script.
#[derive(Clone, Debug, PartialEq, Eq)]
pub struct ScriptGroup {
    pub script: Script,
    pub input_indices: Vec<usize>,
    pub output_indices: Vec<usize>,
}

/// The bytes that an optional byte vector holds.
pub open spec fn bytes_view(data: Option<Vec<u8>>) -> Option<Seq<u8>> {
    match data {
        Some(d) => Some(d@),
        None => None,
    }
}

/// Loads blocks and headers. An implementation describes what it holds by the
/// three spec functions, and each loading method returns what they describe.
pub trait BlockProvider {
    /// The block with header hash `hash`, if the provider holds it.
    spec fn block_with_hash(&self, hash: [u8; 32]) -> Option<Block>;

    /// The header with hash `hash`, if the provider holds it.
    spec fn header_at(&self, hash: [u8; 32]) -> Option<Header>;

    /// The block with number `number`, if the provider holds it.
    spec fn block_at(&self, number: u64) -> Option<Block>;

    /// A full block by header hash.
    fn get_block(&self, hash: &[u8; 32]) -> (r: Option<Block>)
        ensures
            r == self.block_with_hash(*hash),
    ;

    /// A block header by header hash.
    fn get_block_header(&self, hash: &[u8; 32]) -> (r: Option<Header>)
        ensures
            r == self.header_at(*hash),
    ;

    /// A full block by block number.
    fn get_block_by_number(&self, number: u64) -> (r: Option<Block>)
        ensures
            r == self.block_at(number),
    ;
}

/// Loads the data of live cells. An implementation describes what it holds by
/// `cell_data_at`, and `get_cell_data` returns what it describes.
pub trait CellDataProvider {
    /// The data of the cell at `out_point`, if the provider holds it.
    spec fn cell_data_at(&self, out_point: OutPoint) -> Option<Vec<u8>>;

    /// The data of the cell at `out_point`.
    fn get_cell_data(&self, out_point: &OutPoint) -> (r: Option<Vec<u8>>)
        ensures
            r == self.cell_data_at(*out_point),
    ;
}

/// A provider of both blocks and cell data.
pub trait BlockAndCellProvider: BlockProvider + CellDataProvider {

}

impl<T: BlockProvider + CellDataProvider> BlockAndCellProvider for T {

}

} // verus!
