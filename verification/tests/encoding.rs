use proposal_script::chain::{CellInput, OutPoint, Script};
use proposal_script::encoding::{check_table, Proposal, Vote};

fn table(fields: &[Vec<u8>]) -> Vec<u8> {
    let header = 4 * (fields.len() + 1);
    let total = header + fields.iter().map(|f| f.len()).sum::<usize>();
    let mut out = (total as u32).to_le_bytes().to_vec();
    let mut offset = header;
    for f in fields {
        out.extend_from_slice(&(offset as u32).to_le_bytes());
        offset += f.len();
    }
    for f in fields {
        out.extend_from_slice(f);
    }
    out
}

#[test]
fn script_bytes_are_a_table_of_three_fields() {
    let script = Script { code_hash: [0xaau8; 32], hash_type: 1, args: vec![1, 2, 3] };
    let bytes = script.as_bytes();
    let mut expected = vec![56, 0, 0, 0, 16, 0, 0, 0, 48, 0, 0, 0, 49, 0, 0, 0];
    expected.extend_from_slice(&[0xaau8; 32]);
    expected.push(1);
    expected.extend_from_slice(&[3, 0, 0, 0, 1, 2, 3]);
    assert_eq!(bytes, expected);
    assert_eq!(Script::from_compatible_slice(&bytes), Some(script));
}

#[test]
fn out_point_and_input_bytes() {
    let op = OutPoint { tx_hash: [7u8; 32], index: 0x01020304 };
    let mut expected = vec![7u8; 32];
    expected.extend_from_slice(&[4, 3, 2, 1]);
    assert_eq!(op.as_bytes(), expected);
    let input = CellInput { since: 0x0102, previous_output: op };
    let mut expected_input = vec![2, 1, 0, 0, 0, 0, 0, 0];
    expected_input.extend_from_slice(&expected);
    assert_eq!(input.as_bytes(), expected_input);
}

#[test]
fn vote_reads_back() {
    let vote = Vote { vote: 1, amount: 123_456_789_000, dao_index: vec![0, 3, 0x0102] };
    let bytes = vote.as_bytes();
    assert_eq!(bytes.len(), 16 + 1 + 8 + 4 + 6);
    assert_eq!(Vote::from_compatible_slice(&bytes), Some(vote));
}

#[test]
fn vote_with_an_extra_field_is_accepted() {
    let bytes = table(&[vec![0], 77u64.to_le_bytes().to_vec(), vec![1, 0, 0, 0, 5, 0], vec![9, 9]]);
    assert_eq!(
        Vote::from_compatible_slice(&bytes),
        Some(Vote { vote: 0, amount: 77, dao_index: vec![5] })
    );
}

#[test]
fn malformed_votes_are_refused() {
    let good = table(&[vec![1], 5u64.to_le_bytes().to_vec(), vec![0, 0, 0, 0]]);
    assert!(Vote::from_compatible_slice(&good).is_some());
    assert_eq!(Vote::from_compatible_slice(&good[..good.len() - 1]), None);
    let two_byte_direction = table(&[vec![1, 1], 5u64.to_le_bytes().to_vec(), vec![0, 0, 0, 0]]);
    assert_eq!(Vote::from_compatible_slice(&two_byte_direction), None);
    let short_indices = table(&[vec![1], 5u64.to_le_bytes().to_vec(), vec![2, 0, 0, 0, 5, 0]]);
    assert_eq!(Vote::from_compatible_slice(&short_indices), None);
    let two_fields = table(&[vec![1], 5u64.to_le_bytes().to_vec()]);
    assert_eq!(Vote::from_compatible_slice(&two_fields), None);
    let mut decreasing = good.clone();
    decreasing[8] = 30;
    assert_eq!(Vote::from_compatible_slice(&decreasing), None);
}

#[test]
fn table_headers() {
    assert!(check_table(&table(&[vec![1], vec![2, 3]]), 2));
    assert!(check_table(&table(&[vec![1], vec![2, 3]]), 1));
    assert!(!check_table(&table(&[vec![1], vec![2, 3]]), 3));
    assert!(!check_table(&[8, 0, 0, 0, 8, 0, 0], 0));
    assert!(check_table(&[9, 0, 0, 0, 8, 0, 0, 0, 0], 1));
    assert!(!check_table(&[10, 0, 0, 0, 8, 0, 0, 0, 0], 0));
    assert!(!check_table(&[12, 0, 0, 0, 10, 0, 0, 0, 0, 0, 0, 0], 0));
}

#[test]
fn proposal_reads_back() {
    let proposal = Proposal {
        duration: 100,
        vote_cell_code_hash: [5u8; 32],
        vote_cell_hash_type: 2,
        description: b"a bridge".to_vec(),
        receiver: Script { code_hash: [6u8; 32], hash_type: 1, args: vec![1; 20] },
        amount: 1 << 40,
        minimal_requirement: 12,
    };
    let bytes = proposal.as_bytes();
    assert_eq!(bytes.len(), 142 + 8 + 20);
    assert_eq!(Proposal::from_compatible_slice(&bytes), Some(proposal));
}
