use pixel_dna::dna::{Dna, DnaError, BIT_COUNT};
use pixel_dna::tree::{deserialize, serialize, StorageNode};

fn patterned_dna() -> Dna {
    let bits: Vec<bool> = (0..BIT_COUNT).map(|i| (i * i + i / 7) % 3 == 0).collect();
    Dna::from_bits(bits).unwrap()
}

fn count_nodes(node: &StorageNode) -> usize {
    1 + node.refs.iter().map(count_nodes).sum::<usize>()
}

fn payload_lengths(node: &StorageNode, out: &mut Vec<usize>) {
    out.push(node.bits.len());
    for child in &node.refs {
        payload_lengths(child, out);
    }
}

fn is_malformed(node: &StorageNode) -> bool {
    matches!(deserialize(node), Err(DnaError::MalformedTree))
}

#[test]
fn tree_round_trips() {
    let dna = patterned_dna();
    let tree = serialize(&dna);
    let back = deserialize(&tree).expect("own tree reads back");
    assert_eq!(back.bits(), dna.bits());
}

#[test]
fn tree_has_25_nodes_and_the_fixed_payload_lengths() {
    let tree = serialize(&patterned_dna());
    assert_eq!(count_nodes(&tree), 25);
    let mut lengths = Vec::new();
    payload_lengths(&tree, &mut lengths);
    let mut expected = vec![1023, 1023, 1023, 1023, 1023, 1023, 24];
    expected.extend(vec![1023; 18]);
    assert_eq!(lengths, expected);
    assert_eq!(lengths.iter().sum::<usize>(), 24_576);
    assert_eq!(lengths.iter().filter(|len| **len == 1023).count(), 24);
}

#[test]
fn only_the_first_twig_of_the_first_branch_has_leaves() {
    let tree = serialize(&patterned_dna());
    assert_eq!(tree.refs.len(), 4);
    for (i, branch) in tree.refs.iter().enumerate() {
        assert_eq!(branch.refs.len(), 4);
        for (j, twig) in branch.refs.iter().enumerate() {
            let expected = if i == 0 && j == 0 { 4 } else { 0 };
            assert_eq!(twig.refs.len(), expected, "twig {} of branch {}", j, i);
            for leaf in &twig.refs {
                assert!(leaf.refs.is_empty());
            }
        }
    }
}

#[test]
fn payloads_are_the_grid_cut_in_depth_first_order() {
    let dna = patterned_dna();
    let bits = dna.bits();
    let tree = serialize(&dna);
    assert_eq!(tree.bits[..], bits[0..1023]);
    assert_eq!(tree.refs[0].bits[..], bits[1023..2046]);
    assert_eq!(tree.refs[0].refs[0].bits[..], bits[2046..3069]);
    assert_eq!(tree.refs[0].refs[0].refs[0].bits[..], bits[3069..4092]);
    assert_eq!(tree.refs[0].refs[0].refs[2].bits[..], bits[5115..6138]);
    assert_eq!(tree.refs[0].refs[0].refs[3].bits[..], bits[6138..6162]);
    assert_eq!(tree.refs[0].refs[1].bits[..], bits[6162..7185]);
    assert_eq!(tree.refs[0].refs[3].bits[..], bits[8208..9231]);
    assert_eq!(tree.refs[1].bits[..], bits[9231..10254]);
    assert_eq!(tree.refs[1].refs[0].bits[..], bits[10254..11277]);
    assert_eq!(tree.refs[3].bits[..], bits[19461..20484]);
    assert_eq!(tree.refs[3].refs[3].bits[..], bits[23553..24576]);
}

#[test]
fn wrong_payload_length_is_refused_at_every_position() {
    let dna = patterned_dna();

    let mut tree = serialize(&dna);
    tree.bits.pop();
    assert!(is_malformed(&tree));

    let mut tree = serialize(&dna);
    tree.bits.push(true);
    assert!(is_malformed(&tree));

    for i in 0..4 {
        let mut tree = serialize(&dna);
        tree.refs[i].bits.pop();
        assert!(is_malformed(&tree), "branch {}", i);
        for j in 0..4 {
            let mut tree = serialize(&dna);
            tree.refs[i].refs[j].bits.push(false);
            assert!(is_malformed(&tree), "twig {} of branch {}", j, i);
        }
    }

    for k in 0..4 {
        let mut tree = serialize(&dna);
        tree.refs[0].refs[0].refs[k].bits.pop();
        assert!(is_malformed(&tree), "leaf {}", k);
    }

    let mut tree = serialize(&dna);
    tree.refs[0].refs[0].refs[3].bits = vec![false; 1023];
    assert!(is_malformed(&tree));
}

#[test]
fn wrong_node_count_is_refused() {
    let dna = patterned_dna();

    let mut tree = serialize(&dna);
    tree.refs.pop();
    assert!(is_malformed(&tree));

    let mut tree = serialize(&dna);
    tree.refs[2].refs.pop();
    assert!(is_malformed(&tree));

    let mut tree = serialize(&dna);
    tree.refs[0].refs[0].refs.pop();
    assert!(is_malformed(&tree));

    let mut tree = serialize(&dna);
    tree.refs[0].refs[0].refs.clear();
    assert!(is_malformed(&tree));

    let mut tree = serialize(&dna);
    tree.refs[1].refs[0].refs.push(StorageNode { bits: Vec::new(), refs: Vec::new() });
    assert!(is_malformed(&tree));

    let mut tree = serialize(&dna);
    tree.refs[0].refs[0].refs[1].refs.push(StorageNode { bits: Vec::new(), refs: Vec::new() });
    assert!(is_malformed(&tree));

    let mut tree = serialize(&dna);
    tree.refs.push(StorageNode { bits: vec![false; 1023], refs: Vec::new() });
    assert!(is_malformed(&tree));

    let lone = StorageNode { bits: vec![false; 1023], refs: Vec::new() };
    assert!(is_malformed(&lone));
}

#[test]
fn leaves_under_another_twig_are_refused() {
    let mut tree = serialize(&patterned_dna());
    let leaves: Vec<StorageNode> = tree.refs[0].refs[0].refs.drain(..).collect();
    tree.refs[0].refs[1].refs = leaves;
    assert!(is_malformed(&tree));
}
