//! The byte layout of scripts, out points, votes and proposals.
//!
//! A struct is the concatenation of its fields. A vector of fixed-size items
//! (`fixvec`) is a little-endian `u32` item count followed by the items. A
//! table is a header (its total size, then the offset of each field, all
//! little-endian `u32`) followed by the fields; a reader that accepts newer
//! layouts allows more fields than it knows and reads the first ones.
use vstd::prelude::*;

use crate::bytes::{
    copy_range, le_u16, le_u32, le_u64, push_bytes, push_u32_le, push_u64_le, read_u16_le,
    read_u32_le, read_u64_le, u32_le, u64_le, lemma_u32_le_roundtrip, lemma_u64_le_roundtrip,
};
use crate::chain::{CellInput, OutPoint, Script};

verus! {

/// The `u32` stored little-endian at `at`.
pub open spec fn u32_at(b: Seq<u8>, at: int) -> int {
    le_u32(b.subrange(at, at + 4))
}

/// The number of fields that a table header announces.
pub open spec fn field_count(b: Seq<u8>) -> int {
    u32_at(b, 4) / 4 - 1
}

/// Where field `i` of a table starts; past the last field, the table's end.
pub open spec fn field_offset(b: Seq<u8>, i: int) -> int {
    if i < field_count(b) {
        u32_at(b, 4 + 4 * i)
    } else {
        b.len() as int
    }
}

/// Whether `b` is a table with at least `n` fields and offsets that never decrease.
pub open spec fn table_ok(b: Seq<u8>, n: int) -> bool {
    &&& b.len() >= 8
    &&& u32_at(b, 0) == b.len()
    &&& u32_at(b, 4) % 4 == 0
    &&& 8 <= u32_at(b, 4) <= b.len()
    &&& field_count(b) >= n
    &&& forall|i: int, j: int|
        0 <= i <= j <= field_count(b) ==> #[trigger] field_offset(b, i) <= #[trigger] field_offset(
            b,
            j,
        )
}

/// The bytes of field `i` of a table.
pub open spec fn field(b: Seq<u8>, i: int) -> Seq<u8> {
    b.subrange(field_offset(b, i), field_offset(b, i + 1))
}

/// Whether `b` is a vector of items of `item_size` bytes.
pub open spec fn fixvec_ok(b: Seq<u8>, item_size: int) -> bool {
    b.len() >= 4 && b.len() == 4 + item_size * u32_at(b, 0)
}

/// The items of a byte vector.
pub open spec fn fixvec_bytes(b: Seq<u8>) -> Seq<u8> {
    b.subrange(4, b.len() as int)
}

/// The serialized form of a script: a table of its code hash, hash type and arguments.
pub open spec fn script_bytes(s: Script) -> Seq<u8> {
    let n = s.args@.len() as int;
    u32_le((53 + n) % 0x1_0000_0000) + u32_le(16) + u32_le(48) + u32_le(49) + s.code_hash@
        + seq![s.hash_type] + u32_le(n % 0x1_0000_0000) + s.args@
}

/// Whether `b` is a script.
pub open spec fn script_ok(b: Seq<u8>) -> bool {
    &&& table_ok(b, 3)
    &&& field(b, 0).len() == 32
    &&& field(b, 1).len() == 1
    &&& fixvec_ok(field(b, 2), 1)
}

/// Whether `s` is the script that the script bytes `b` encode.
pub open spec fn script_decodes(b: Seq<u8>, s: Script) -> bool {
    &&& s.code_hash@ == field(b, 0)
    &&& s.hash_type == field(b, 1)[0]
    &&& s.args@ == fixvec_bytes(field(b, 2))
}

/// The serialized form of an out point: the transaction hash, then the index.
pub open spec fn out_point_bytes(o: OutPoint) -> Seq<u8> {
    o.tx_hash@ + u32_le(o.index as int)
}

/// The serialized form of a cell input: `since`, then the out point it spends.
pub open spec fn cell_input_bytes(i: CellInput) -> Seq<u8> {
    u64_le(i.since as int) + out_point_bytes(i.previous_output)
}

/// A vote cell's data: the direction (1 for yes), the amount, and the
/// indices of the cell dependencies that lock the voter's deposits.
#[derive(Clone, Debug, PartialEq, Eq)]
pub struct Vote {
    pub vote: u8,
    pub amount: u64,
    pub dao_index: Vec<u16>,
}

/// Whether `b` is a vote.
pub open spec fn vote_ok(b: Seq<u8>) -> bool {
    &&& table_ok(b, 3)
    &&& field(b, 0).len() == 1
    &&& field(b, 1).len() == 8
    &&& fixvec_ok(field(b, 2), 2)
}

/// The direction of the vote in `b`.
pub open spec fn vote_direction(b: Seq<u8>) -> u8 {
    field(b, 0)[0]
}

/// The amount of the vote in `b`.
pub open spec fn vote_amount(b: Seq<u8>) -> int {
    le_u64(field(b, 1))
}

/// The deposit dependency indices of the vote in `b`.
pub open spec fn vote_dao_index(b: Seq<u8>) -> Seq<u16> {
    let f = field(b, 2);
    Seq::new(u32_at(f, 0) as nat, |k: int| le_u16(f.subrange(4 + 2 * k, 6 + 2 * k)) as u16)
}

/// A proposal cell's data.
#[derive(Clone, Debug, PartialEq, Eq)]
pub struct Proposal {
    pub duration: u32,
    pub vote_cell_code_hash: [u8; 32],
    pub vote_cell_hash_type: u8,
    pub description: Vec<u8>,
    pub receiver: Script,
    pub amount: u64,
    pub minimal_requirement: u64,
}

/// Whether `b` is a proposal.
pub open spec fn proposal_ok(b: Seq<u8>) -> bool {
    &&& table_ok(b, 7)
    &&& field(b, 0).len() == 4
    &&& field(b, 1).len() == 32
    &&& field(b, 2).len() == 1
    &&& fixvec_ok(field(b, 3), 1)
    &&& script_ok(field(b, 4))
    &&& field(b, 5).len() == 8
    &&& field(b, 6).len() == 8
}

/// Whether `p` is the proposal that the proposal bytes `b` encode.
pub open spec fn proposal_decodes(b: Seq<u8>, p: Proposal) -> bool {
    &&& p.duration == le_u32(field(b, 0))
    &&& p.vote_cell_code_hash@ == field(b, 1)
    &&& p.vote_cell_hash_type == field(b, 2)[0]
    &&& p.description@ == fixvec_bytes(field(b, 3))
    &&& script_decodes(field(b, 4), p.receiver)
    &&& p.amount == le_u64(field(b, 5))
    &&& p.minimal_requirement == le_u64(field(b, 6))
}

/// Two proposals with the same fields.
pub open spec fn same_proposal(a: Proposal, b: Proposal) -> bool {
    &&& a.duration == b.duration
    &&& a.vote_cell_code_hash == b.vote_cell_code_hash
    &&& a.vote_cell_hash_type == b.vote_cell_hash_type
    &&& a.description@ == b.description@
    &&& a.receiver.code_hash == b.receiver.code_hash
    &&& a.receiver.hash_type == b.receiver.hash_type
    &&& a.receiver.args@ == b.receiver.args@
    &&& a.amount == b.amount
    &&& a.minimal_requirement == b.minimal_requirement
}

impl Script {
    /// The serialized form of the script.
    pub fn as_bytes(&self) -> (r: Vec<u8>)
        ensures
            r@ == script_bytes(*self),
    {
        let n: u64 = self.args.len() as u64;
        let n32: u64 = n % 0x1_0000_0000;
        let total: u64 = (n32 + 53) % 0x1_0000_0000;
        proof {
            vstd::arithmetic::div_mod::lemma_add_mod_noop(n as int, 53, 0x1_0000_0000);
        }
        let mut out: Vec<u8> = Vec::new();
        push_u32_le(&mut out, total as u32);
        push_u32_le(&mut out, 16);
        push_u32_le(&mut out, 48);
        push_u32_le(&mut out, 49);
        push_bytes(&mut out, self.code_hash.as_slice());
        out.push(self.hash_type);
        push_u32_le(&mut out, n32 as u32);
        push_bytes(&mut out, self.args.as_slice());
        assert(out@ =~= script_bytes(*self));
        out
    }

    /// A copy of the script with the same fields.
    pub fn copy(&self) -> (r: Script)
        ensures
            r.code_hash == self.code_hash,
            r.hash_type == self.hash_type,
            r.args@ == self.args@,
    {
        let args = copy_range(self.args.as_slice(), 0, self.args.len());
        assert(self.args@.subrange(0, self.args@.len() as int) =~= self.args@);
        Script { code_hash: self.code_hash, hash_type: self.hash_type, args }
    }
}

impl OutPoint {
    /// The serialized form of the out point.
    pub fn as_bytes(&self) -> (r: Vec<u8>)
        ensures
            r@ == out_point_bytes(*self),
    {
        let mut out: Vec<u8> = Vec::new();
        push_bytes(&mut out, self.tx_hash.as_slice());
        push_u32_le(&mut out, self.index);
        assert(out@ =~= out_point_bytes(*self));
        out
    }
}

impl CellInput {
    /// The serialized form of the cell input.
    pub fn as_bytes(&self) -> (r: Vec<u8>)
        ensures
            r@ == cell_input_bytes(*self),
    {
        let mut out: Vec<u8> = Vec::new();
        push_u64_le(&mut out, self.since);
        let op = self.previous_output.as_bytes();
        push_bytes(&mut out, op.as_slice());
        assert(out@ =~= cell_input_bytes(*self));
        out
    }
}


/// Whether `b` is a table with at least `n` fields, as a reader that
/// accepts newer layouts reads a table header.
pub fn check_table(b: &[u8], n: usize) -> (r: bool)
    ensures
        r == table_ok(b@, n as int),
{
    let len = b.len();
    if len < 8 {
        return false;
    }
    let total = read_u32_le(b, 0);
    if total as usize != len {
        return false;
    }
    let first = read_u32_le(b, 4) as usize;
    if first % 4 != 0 || first < 8 || first > len {
        return false;
    }
    let fc = first / 4 - 1;
    assert(fc == field_count(b@));
    if fc < n {
        return false;
    }
    let mut k: usize = 0;
    while k < fc
        invariant
            len == b@.len(),
            8 <= first <= len,
            first % 4 == 0,
            fc == field_count(b@),
            fc == first / 4 - 1,
            u32_at(b@, 4) == first,
            k <= fc,
            forall|i: int, j: int|
                0 <= i <= j <= k ==> #[trigger] field_offset(b@, i) <= #[trigger] field_offset(
                    b@,
                    j,
                ),
        decreases fc - k,
    {
        let a = read_u32_le(b, 4 + 4 * k) as usize;
        let c = if k + 1 < fc {
            read_u32_le(b, 4 + 4 * (k + 1)) as usize
        } else {
            len
        };
        assert(a == field_offset(b@, k as int));
        assert(c == field_offset(b@, k + 1));
        if a > c {
            return false;
        }
        k = k + 1;
    }
    true
}

/// Where field `i` of a checked table starts (the table's end for `i` past its fields).
pub fn read_field_offset(b: &[u8], i: usize) -> (r: usize)
    requires
        table_ok(b@, 0),
        i <= field_count(b@),
    ensures
        r == field_offset(b@, i as int),
        r <= b@.len(),
{
    let first = read_u32_le(b, 4) as usize;
    assert(field_offset(b@, i as int) <= field_offset(b@, field_count(b@)));
    if i < first / 4 - 1 {
        read_u32_le(b, 4 + 4 * i) as usize
    } else {
        b.len()
    }
}

/// The 32 bytes at `at`.
pub fn read_hash(b: &[u8], at: usize) -> (r: [u8; 32])
    requires
        at + 32 <= b@.len(),
    ensures
        r@ == b@.subrange(at as int, at + 32),
{
    let n = b.len();
    let mut h: [u8; 32] = [0u8; 32];
    let mut k: usize = 0;
    while k < 32
        invariant
            n == b@.len(),
            at + 32 <= b@.len(),
            k <= 32,
            forall|j: int| 0 <= j < k ==> h@[j] == b@[at + j],
        decreases 32 - k,
    {
        h[k] = b[at + k];
        k = k + 1;
    }
    assert(h@ =~= b@.subrange(at as int, at + 32));
    h
}

impl Script {
    /// Reads a script, accepting tables with more fields than a script has.
    pub fn from_compatible_slice(b: &[u8]) -> (r: Option<Script>)
        ensures
            r is Some <==> script_ok(b@),
            r matches Some(s) ==> script_decodes(b@, s),
    {
        if !check_table(b, 3) {
            return None;
        }
        let o0 = read_field_offset(b, 0);
        let o1 = read_field_offset(b, 1);
        let o2 = read_field_offset(b, 2);
        let o3 = read_field_offset(b, 3);
        assert(o0 <= o1 <= o2 <= o3) by {
            assert(field_offset(b@, 0) <= field_offset(b@, 1));
            assert(field_offset(b@, 1) <= field_offset(b@, 2));
            assert(field_offset(b@, 2) <= field_offset(b@, 3));
        }
        if o1 - o0 != 32 || o2 - o1 != 1 || o3 - o2 < 4 {
            return None;
        }
        let count = read_u32_le(b, o2) as u64;
        assert(u32_at(field(b@, 2), 0) == count) by {
            assert(field(b@, 2).subrange(0, 4) =~= b@.subrange(o2 as int, o2 + 4));
        }
        if (o3 - o2) as u64 != 4 + count {
            return None;
        }
        let code_hash = read_hash(b, o0);
        let hash_type = b[o1];
        let args = copy_range(b, o2 + 4, o3);
        let s = Script { code_hash, hash_type, args };
        assert(field(b@, 2).subrange(4, field(b@, 2).len() as int) =~= b@.subrange(o2 + 4, o3 as int));
        Some(s)
    }
}

impl Vote {
    /// Reads a vote, accepting tables with more fields than a vote has.
    pub fn from_compatible_slice(b: &[u8]) -> (r: Option<Vote>)
        ensures
            r is Some <==> vote_ok(b@),
            r matches Some(v) ==> {
                &&& v.vote == vote_direction(b@)
                &&& v.amount == vote_amount(b@)
                &&& v.dao_index@ == vote_dao_index(b@)
            },
    {
        if !check_table(b, 3) {
            return None;
        }
        let o0 = read_field_offset(b, 0);
        let o1 = read_field_offset(b, 1);
        let o2 = read_field_offset(b, 2);
        let o3 = read_field_offset(b, 3);
        assert(o0 <= o1 <= o2 <= o3) by {
            assert(field_offset(b@, 0) <= field_offset(b@, 1));
            assert(field_offset(b@, 1) <= field_offset(b@, 2));
            assert(field_offset(b@, 2) <= field_offset(b@, 3));
        }
        if o1 - o0 != 1 || o2 - o1 != 8 || o3 - o2 < 4 {
            return None;
        }
        let count = read_u32_le(b, o2) as u64;
        let ghost f = field(b@, 2);
        assert(u32_at(f, 0) == count) by {
            assert(f.subrange(0, 4) =~= b@.subrange(o2 as int, o2 + 4));
        }
        if (o3 - o2) as u64 != 4 + 2 * count {
            return None;
        }
        let vote = b[o0];
        let amount = read_u64_le(b, o1);
        assert(field(b@, 1) =~= b@.subrange(o1 as int, o1 + 8));
        let mut dao_index: Vec<u16> = Vec::new();
        let mut k: usize = 0;
        while (k as u64) < count
            invariant
                o2 + 4 + 2 * count == o3,
                o3 <= b@.len(),
                f == b@.subrange(o2 as int, o3 as int),
                count == u32_at(f, 0),
                k <= count,
                dao_index@.len() == k,
                forall|j: int|
                    0 <= j < k ==> #[trigger] dao_index@[j] == le_u16(
                        f.subrange(4 + 2 * j, 6 + 2 * j),
                    ) as u16,
            decreases count - k,
        {
            let at = o2 + 4 + 2 * k;
            let x = read_u16_le(b, at);
            assert(f.subrange(4 + 2 * k, 6 + 2 * k) =~= b@.subrange(at as int, at + 2));
            dao_index.push(x);
            k = k + 1;
        }
        assert(dao_index@ =~= vote_dao_index(b@));
        Some(Vote { vote, amount, dao_index })
    }
}

impl Proposal {
    /// Reads a proposal, accepting tables with more fields than a proposal has.
    pub fn from_compatible_slice(b: &[u8]) -> (r: Option<Proposal>)
        ensures
            r is Some <==> proposal_ok(b@),
            r matches Some(p) ==> proposal_decodes(b@, p),
    {
        if !check_table(b, 7) {
            return None;
        }
        let o0 = read_field_offset(b, 0);
        let o1 = read_field_offset(b, 1);
        let o2 = read_field_offset(b, 2);
        let o3 = read_field_offset(b, 3);
        let o4 = read_field_offset(b, 4);
        let o5 = read_field_offset(b, 5);
        let o6 = read_field_offset(b, 6);
        let o7 = read_field_offset(b, 7);
        assert(o0 <= o1 <= o2 <= o3 <= o4 <= o5 <= o6 <= o7) by {
            assert(field_offset(b@, 0) <= field_offset(b@, 1));
            assert(field_offset(b@, 1) <= field_offset(b@, 2));
            assert(field_offset(b@, 2) <= field_offset(b@, 3));
            assert(field_offset(b@, 3) <= field_offset(b@, 4));
            assert(field_offset(b@, 4) <= field_offset(b@, 5));
            assert(field_offset(b@, 5) <= field_offset(b@, 6));
            assert(field_offset(b@, 6) <= field_offset(b@, 7));
        }
        if o1 - o0 != 4 || o2 - o1 != 32 || o3 - o2 != 1 || o4 - o3 < 4 || o6 - o5 != 8 || o7
            - o6 != 8 {
            return None;
        }
        let count = read_u32_le(b, o3) as u64;
        assert(u32_at(field(b@, 3), 0) == count) by {
            assert(field(b@, 3).subrange(0, 4) =~= b@.subrange(o3 as int, o3 + 4));
        }
        if (o4 - o3) as u64 != 4 + count {
            return None;
        }
        let receiver = match Script::from_compatible_slice(&b[o4..o5]) {
            Some(s) => s,
            None => {
                return None;
            },
        };
        let duration = read_u32_le(b, o0);
        let vote_cell_code_hash = read_hash(b, o1);
        let vote_cell_hash_type = b[o2];
        let description = copy_range(b, o3 + 4, o4);
        let amount = read_u64_le(b, o5);
        let minimal_requirement = read_u64_le(b, o6);
        assert(field(b@, 0) =~= b@.subrange(o0 as int, o0 + 4));
        assert(field(b@, 5) =~= b@.subrange(o5 as int, o5 + 8));
        assert(field(b@, 6) =~= b@.subrange(o6 as int, o6 + 8));
        assert(field(b@, 3).subrange(4, field(b@, 3).len() as int) =~= b@.subrange(
            o3 + 4,
            o4 as int,
        ));
        Some(
            Proposal {
                duration,
                vote_cell_code_hash,
                vote_cell_hash_type,
                description,
                receiver,
                amount,
                minimal_requirement,
            },
        )
    }

    /// A copy of the proposal with the same fields.
    pub fn copy(&self) -> (r: Proposal)
        ensures
            same_proposal(r, *self),
    {
        let description = copy_range(self.description.as_slice(), 0, self.description.len());
        assert(self.description@.subrange(0, self.description@.len() as int)
            =~= self.description@);
        Proposal {
            duration: self.duration,
            vote_cell_code_hash: self.vote_cell_code_hash,
            vote_cell_hash_type: self.vote_cell_hash_type,
            description,
            receiver: self.receiver.copy(),
            amount: self.amount,
            minimal_requirement: self.minimal_requirement,
        }
    }
}

/// A script's serialized form reads back as that script.
#[verifier::spinoff_prover]
#[verifier::rlimit(60)]
pub proof fn lemma_script_bytes_read_back(s: Script)
    requires
        s.args@.len() + 53 < 0x1_0000_0000,
    ensures
        script_ok(script_bytes(s)),
        script_decodes(script_bytes(s), s),
{
    let n = s.args@.len() as int;
    let b = script_bytes(s);
    assert(b.len() == 53 + n);
    assert(u32_at(b, 0) == 53 + n) by {
        assert(b.subrange(0, 4) =~= u32_le(53 + n));
        lemma_u32_le_roundtrip(53 + n);
    }
    assert(u32_at(b, 4) == 16) by {
        assert(b.subrange(4, 8) =~= u32_le(16));
        lemma_u32_le_roundtrip(16);
    }
    assert(u32_at(b, 8) == 48) by {
        assert(b.subrange(8, 12) =~= u32_le(48));
        lemma_u32_le_roundtrip(48);
    }
    assert(u32_at(b, 12) == 49) by {
        assert(b.subrange(12, 16) =~= u32_le(49));
        lemma_u32_le_roundtrip(49);
    }
    assert(field_count(b) == 3);
    assert(field_offset(b, 0) == 16);
    assert(field_offset(b, 1) == 48);
    assert(field_offset(b, 2) == 49);
    assert(field_offset(b, 3) == 53 + n);
    assert forall|i: int, j: int|
        0 <= i <= j <= field_count(b) implies #[trigger] field_offset(b, i) <= #[trigger] field_offset(
        b,
        j,
    ) by {
        assert(0 <= i <= 3 && 0 <= j <= 3);
        if i == 0 {
        } else if i == 1 {
        } else if i == 2 {
        } else {
        }
    }
    assert(field(b, 0) =~= s.code_hash@);
    assert(field(b, 1) =~= seq![s.hash_type]);
    assert(field(b, 2) =~= u32_le(n) + s.args@);
    assert(u32_at(field(b, 2), 0) == n) by {
        assert(field(b, 2).subrange(0, 4) =~= u32_le(n));
        lemma_u32_le_roundtrip(n);
    }
    assert(fixvec_bytes(field(b, 2)) =~= s.args@);
}

/// The little-endian bytes of each item of `items`, in order.
pub open spec fn u16s_le(items: Seq<u16>) -> Seq<u8> {
    Seq::new(
        2 * items.len(),
        |i: int|
            if i % 2 == 0 {
                (items[i / 2] % 0x100) as u8
            } else {
                (items[i / 2] / 0x100) as u8
            },
    )
}

/// The serialized form of a vote: a table of its direction, amount and deposit indices.
pub open spec fn vote_bytes(v: Vote) -> Seq<u8> {
    let k = v.dao_index@.len() as int;
    u32_le((29 + 2 * k) % 0x1_0000_0000) + u32_le(16) + u32_le(17) + u32_le(25) + seq![v.vote]
        + u64_le(v.amount as int) + u32_le(k % 0x1_0000_0000) + u16s_le(v.dao_index@)
}

/// The serialized form of a proposal: a table of its seven fields.
#[verifier::opaque]
pub open spec fn proposal_bytes(p: Proposal) -> Seq<u8> {
    let d = p.description@.len() as int;
    let r = script_bytes(p.receiver);
    let m = 0x1_0000_0000int;
    u32_le((89 + d + r.len()) % m) + u32_le(32) + u32_le(36) + u32_le(68) + u32_le(69) + u32_le(
        (73 + d) % m,
    ) + u32_le((73 + d + r.len()) % m) + u32_le((81 + d + r.len()) % m) + u32_le(
        p.duration as int,
    ) + p.vote_cell_code_hash@ + seq![p.vote_cell_hash_type] + u32_le(d % m) + p.description@ + r
        + u64_le(p.amount as int) + u64_le(p.minimal_requirement as int)
}

impl Vote {
    /// The serialized form of the vote.
    pub fn as_bytes(&self) -> (r: Vec<u8>)
        ensures
            r@ == vote_bytes(*self),
    {
        let k: u64 = self.dao_index.len() as u64;
        let k32: u64 = k % 0x1_0000_0000;
        let total: u64 = (2 * k32 + 29) % 0x1_0000_0000;
        proof {
            vstd::arithmetic::div_mod::lemma_add_mod_noop(2 * k, 29, 0x1_0000_0000);
            vstd::arithmetic::div_mod::lemma_mul_mod_noop_right(2, k as int, 0x1_0000_0000);
            vstd::arithmetic::div_mod::lemma_add_mod_noop(2 * k32, 29, 0x1_0000_0000);
        }
        let mut out: Vec<u8> = Vec::new();
        push_u32_le(&mut out, total as u32);
        push_u32_le(&mut out, 16);
        push_u32_le(&mut out, 17);
        push_u32_le(&mut out, 25);
        out.push(self.vote);
        push_u64_le(&mut out, self.amount);
        push_u32_le(&mut out, k32 as u32);
        let ghost head = out@;
        let mut i: usize = 0;
        while i < self.dao_index.len()
            invariant
                i <= self.dao_index@.len(),
                out@ == head + u16s_le(self.dao_index@.subrange(0, i as int)),
            decreases self.dao_index@.len() - i,
        {
            let x = self.dao_index[i];
            out.push((x % 0x100) as u8);
            out.push((x / 0x100) as u8);
            i = i + 1;
            assert(u16s_le(self.dao_index@.subrange(0, i as int)) =~= u16s_le(
                self.dao_index@.subrange(0, i - 1),
            ) + seq![(x % 0x100) as u8, (x / 0x100) as u8]);
        }
        assert(self.dao_index@.subrange(0, i as int) =~= self.dao_index@);
        assert(out@ =~= vote_bytes(*self));
        out
    }
}

/// `a + b + c` modulo 2^32, as a table header stores a size or an offset.
fn wrapped_size(a: usize, b: usize, c: u64) -> (r: u32)
    requires
        c < 0x1_0000_0000,
    ensures
        r == (a + b + c) % 0x1_0000_0000,
{
    let m: u64 = 0x1_0000_0000;
    let a32: u64 = a as u64 % m;
    let b32: u64 = b as u64 % m;
    let ab: u64 = (a32 + b32) % m;
    proof {
        vstd::arithmetic::div_mod::lemma_add_mod_noop(a as int, b as int, m as int);
        vstd::arithmetic::div_mod::lemma_add_mod_noop(a + b, c as int, m as int);
        vstd::arithmetic::div_mod::lemma_mod_twice(a + b, m as int);
    }
    ((ab + c) % m) as u32
}

impl Proposal {
    /// The serialized form of the proposal.
    pub fn as_bytes(&self) -> (r: Vec<u8>)
        ensures
            r@ == proposal_bytes(*self),
    {
        let receiver = self.receiver.as_bytes();
        let d = self.description.len();
        let rl = receiver.len();
        let mut out: Vec<u8> = Vec::new();
        push_u32_le(&mut out, wrapped_size(d, rl, 89));
        push_u32_le(&mut out, 32);
        push_u32_le(&mut out, 36);
        push_u32_le(&mut out, 68);
        push_u32_le(&mut out, 69);
        push_u32_le(&mut out, wrapped_size(d, 0, 73));
        push_u32_le(&mut out, wrapped_size(d, rl, 73));
        push_u32_le(&mut out, wrapped_size(d, rl, 81));
        push_u32_le(&mut out, self.duration);
        push_bytes(&mut out, self.vote_cell_code_hash.as_slice());
        out.push(self.vote_cell_hash_type);
        push_u32_le(&mut out, wrapped_size(d, 0, 0));
        push_bytes(&mut out, self.description.as_slice());
        push_bytes(&mut out, receiver.as_slice());
        push_u64_le(&mut out, self.amount);
        push_u64_le(&mut out, self.minimal_requirement);
        reveal(proposal_bytes);
        assert(out@ =~= proposal_bytes(*self));
        out
    }
}

/// A vote's serialized form reads back as that vote.
#[verifier::spinoff_prover]
#[verifier::rlimit(60)]
pub proof fn lemma_vote_bytes_read_back(v: Vote)
    requires
        29 + 2 * v.dao_index@.len() < 0x1_0000_0000,
    ensures
        vote_ok(vote_bytes(v)),
        vote_direction(vote_bytes(v)) == v.vote,
        vote_amount(vote_bytes(v)) == v.amount,
        vote_dao_index(vote_bytes(v)) == v.dao_index@,
{
    let k = v.dao_index@.len() as int;
    let b = vote_bytes(v);
    assert(b.len() == 29 + 2 * k);
    assert(u32_at(b, 0) == 29 + 2 * k) by {
        assert(b.subrange(0, 4) =~= u32_le(29 + 2 * k));
        lemma_u32_le_roundtrip(29 + 2 * k);
    }
    assert(u32_at(b, 4) == 16) by {
        assert(b.subrange(4, 8) =~= u32_le(16));
        lemma_u32_le_roundtrip(16);
    }
    assert(u32_at(b, 8) == 17) by {
        assert(b.subrange(8, 12) =~= u32_le(17));
        lemma_u32_le_roundtrip(17);
    }
    assert(u32_at(b, 12) == 25) by {
        assert(b.subrange(12, 16) =~= u32_le(25));
        lemma_u32_le_roundtrip(25);
    }
    assert(field_count(b) == 3);
    assert(field_offset(b, 0) == 16);
    assert(field_offset(b, 1) == 17);
    assert(field_offset(b, 2) == 25);
    assert(field_offset(b, 3) == 29 + 2 * k);
    assert forall|i: int, j: int|
        0 <= i <= j <= field_count(b) implies #[trigger] field_offset(b, i) <= #[trigger] field_offset(
        b,
        j,
    ) by {
        assert(0 <= i <= 3 && 0 <= j <= 3);
    }
    assert(field(b, 0) =~= seq![v.vote]);
    assert(field(b, 1) =~= u64_le(v.amount as int));
    lemma_u64_le_roundtrip(v.amount as int);
    let f = field(b, 2);
    assert(f =~= u32_le(k) + u16s_le(v.dao_index@));
    assert(u32_at(f, 0) == k) by {
        assert(f.subrange(0, 4) =~= u32_le(k));
        lemma_u32_le_roundtrip(k);
    }
    assert forall|j: int| 0 <= j < k implies #[trigger] vote_dao_index(b)[j] == v.dao_index@[j] by {
        let x = v.dao_index@[j] as int;
        assert(f.subrange(4 + 2 * j, 6 + 2 * j) =~= seq![(x % 0x100) as u8, (x / 0x100) as u8]);
        assert(x == x % 0x100 + (x / 0x100) * 0x100);
    }
    assert(vote_dao_index(b) =~= v.dao_index@);
}

/// The header words of a proposal's serialized form.
#[verifier::spinoff_prover]
#[verifier::rlimit(100)]
proof fn lemma_proposal_header_words(p: Proposal)
    requires
        142 + p.description@.len() + p.receiver.args@.len() < 0x1_0000_0000,
    ensures
        ({
            let d = p.description@.len() as int;
            let a = p.receiver.args@.len() as int;
            let b = proposal_bytes(p);
            &&& b.len() == 142 + d + a
            &&& u32_at(b, 0) == 142 + d + a
            &&& u32_at(b, 4) == 32
            &&& u32_at(b, 8) == 36
            &&& u32_at(b, 12) == 68
            &&& u32_at(b, 16) == 69
            &&& u32_at(b, 20) == 73 + d
            &&& u32_at(b, 24) == 126 + d + a
            &&& u32_at(b, 28) == 134 + d + a
        }),
{
    reveal(proposal_bytes);
    let d = p.description@.len() as int;
    let a = p.receiver.args@.len() as int;
    let b = proposal_bytes(p);
    assert(script_bytes(p.receiver).len() == 53 + a);
    assert(b.len() == 142 + d + a);
    let h = b.subrange(0, 32);
    assert(h =~= u32_le(142 + d + a) + u32_le(32) + u32_le(36) + u32_le(68) + u32_le(69) + u32_le(
        73 + d,
    ) + u32_le(126 + d + a) + u32_le(134 + d + a));
    assert(u32_at(b, 0) == 142 + d + a) by {
        assert(b.subrange(0, 4) =~= h.subrange(0, 4));
        assert(h.subrange(0, 4) =~= u32_le(142 + d + a));
        lemma_u32_le_roundtrip(142 + d + a);
    }
    assert(u32_at(b, 4) == 32) by {
        assert(b.subrange(4, 8) =~= h.subrange(4, 8));
        assert(h.subrange(4, 8) =~= u32_le(32));
        lemma_u32_le_roundtrip(32);
    }
    assert(u32_at(b, 8) == 36) by {
        assert(b.subrange(8, 12) =~= h.subrange(8, 12));
        assert(h.subrange(8, 12) =~= u32_le(36));
        lemma_u32_le_roundtrip(36);
    }
    assert(u32_at(b, 12) == 68) by {
        assert(b.subrange(12, 16) =~= h.subrange(12, 16));
        assert(h.subrange(12, 16) =~= u32_le(68));
        lemma_u32_le_roundtrip(68);
    }
    assert(u32_at(b, 16) == 69) by {
        assert(b.subrange(16, 20) =~= h.subrange(16, 20));
        assert(h.subrange(16, 20) =~= u32_le(69));
        lemma_u32_le_roundtrip(69);
    }
    assert(u32_at(b, 20) == 73 + d) by {
        assert(b.subrange(20, 24) =~= h.subrange(20, 24));
        assert(h.subrange(20, 24) =~= u32_le(73 + d));
        lemma_u32_le_roundtrip(73 + d);
    }
    assert(u32_at(b, 24) == 126 + d + a) by {
        assert(b.subrange(24, 28) =~= h.subrange(24, 28));
        assert(h.subrange(24, 28) =~= u32_le(126 + d + a));
        lemma_u32_le_roundtrip(126 + d + a);
    }
    assert(u32_at(b, 28) == 134 + d + a) by {
        assert(b.subrange(28, 32) =~= h.subrange(28, 32));
        assert(h.subrange(28, 32) =~= u32_le(134 + d + a));
        lemma_u32_le_roundtrip(134 + d + a);
    }
}

/// The header of a proposal's serialized form.
proof fn lemma_proposal_header(p: Proposal)
    requires
        142 + p.description@.len() + p.receiver.args@.len() < 0x1_0000_0000,
    ensures
        ({
            let d = p.description@.len() as int;
            let a = p.receiver.args@.len() as int;
            let b = proposal_bytes(p);
            &&& b.len() == 142 + d + a
            &&& table_ok(b, 7)
            &&& field_count(b) == 7
            &&& field_offset(b, 0) == 32
            &&& field_offset(b, 1) == 36
            &&& field_offset(b, 2) == 68
            &&& field_offset(b, 3) == 69
            &&& field_offset(b, 4) == 73 + d
            &&& field_offset(b, 5) == 126 + d + a
            &&& field_offset(b, 6) == 134 + d + a
            &&& field_offset(b, 7) == 142 + d + a
        }),
{
    let b = proposal_bytes(p);
    lemma_proposal_header_words(p);
    assert(field_count(b) == 7);
    assert forall|i: int, j: int|
        0 <= i <= j <= field_count(b) implies #[trigger] field_offset(b, i) <= #[trigger] field_offset(
        b,
        j,
    ) by {
        assert(0 <= i <= 7 && 0 <= j <= 7);
    }
}

/// The fixed-size leading fields of a proposal's serialized form.
#[verifier::spinoff_prover]
#[verifier::rlimit(60)]
proof fn lemma_proposal_leading_fields(p: Proposal)
    requires
        142 + p.description@.len() + p.receiver.args@.len() < 0x1_0000_0000,
    ensures
        field(proposal_bytes(p), 0) == u32_le(p.duration as int),
        field(proposal_bytes(p), 1) == p.vote_cell_code_hash@,
        field(proposal_bytes(p), 2) == seq![p.vote_cell_hash_type],
{
    reveal(proposal_bytes);
    let b = proposal_bytes(p);
    lemma_proposal_header(p);
    assert(field(b, 0) =~= u32_le(p.duration as int));
    assert(field(b, 1) =~= p.vote_cell_code_hash@);
    assert(field(b, 2) =~= seq![p.vote_cell_hash_type]);
}

/// The description and receiver fields of a proposal's serialized form.
#[verifier::spinoff_prover]
#[verifier::rlimit(60)]
proof fn lemma_proposal_middle_fields(p: Proposal)
    requires
        142 + p.description@.len() + p.receiver.args@.len() < 0x1_0000_0000,
    ensures
        field(proposal_bytes(p), 3) == u32_le(p.description@.len() as int) + p.description@,
        field(proposal_bytes(p), 4) == script_bytes(p.receiver),
{
    reveal(proposal_bytes);
    let b = proposal_bytes(p);
    lemma_proposal_header(p);
    assert(field(b, 3) =~= u32_le(p.description@.len() as int) + p.description@);
    assert(field(b, 4) =~= script_bytes(p.receiver));
}

/// The trailing amount fields of a proposal's serialized form.
#[verifier::spinoff_prover]
#[verifier::rlimit(60)]
proof fn lemma_proposal_trailing_fields(p: Proposal)
    requires
        142 + p.description@.len() + p.receiver.args@.len() < 0x1_0000_0000,
    ensures
        field(proposal_bytes(p), 5) == u64_le(p.amount as int),
        field(proposal_bytes(p), 6) == u64_le(p.minimal_requirement as int),
{
    reveal(proposal_bytes);
    let b = proposal_bytes(p);
    lemma_proposal_header(p);
    assert(field(b, 5) =~= u64_le(p.amount as int));
    assert(field(b, 6) =~= u64_le(p.minimal_requirement as int));
}

/// A proposal's serialized form reads back as that proposal.
pub proof fn lemma_proposal_bytes_read_back(p: Proposal)
    requires
        142 + p.description@.len() + p.receiver.args@.len() < 0x1_0000_0000,
    ensures
        proposal_ok(proposal_bytes(p)),
        proposal_decodes(proposal_bytes(p), p),
{
    let d = p.description@.len() as int;
    let b = proposal_bytes(p);
    lemma_proposal_header(p);
    lemma_proposal_leading_fields(p);
    lemma_proposal_middle_fields(p);
    lemma_proposal_trailing_fields(p);
    lemma_script_bytes_read_back(p.receiver);
    lemma_u32_le_roundtrip(p.duration as int);
    lemma_u64_le_roundtrip(p.amount as int);
    lemma_u64_le_roundtrip(p.minimal_requirement as int);
    let f3 = field(b, 3);
    assert(u32_at(f3, 0) == d) by {
        assert(f3.subrange(0, 4) =~= u32_le(d));
        lemma_u32_le_roundtrip(d);
    }
    assert(fixvec_bytes(f3) =~= p.description@);
}

} // verus!
