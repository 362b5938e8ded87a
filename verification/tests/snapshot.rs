use basecoin::store::commitment::{commitment, leaf_of, leaves_of};
use basecoin::store::evidence::{is_less, prove, same_digest, Neighbour, Proof};
use basecoin::store::merkle::{empty_hash, path_of, root_from, root_of, split_point};
use basecoin::store::snapshot::Snapshot;

fn snapshot_of(pairs: &[(&[u8], &[u8])]) -> Snapshot {
    let mut s = Snapshot::new();
    for (k, v) in pairs {
        s.insert(k.to_vec(), v.to_vec());
    }
    s
}

fn keys(s: &Snapshot) -> Vec<Vec<u8>> {
    (0..s.len()).map(|i| s.entry(i).key.clone()).collect()
}

/// The leaf bytes of an entry as the commitment defines them.
fn leaf_bytes(key: &[u8], value: &[u8]) -> Vec<u8> {
    let mut b = (key.len() as u64).to_le_bytes().to_vec();
    b.extend_from_slice(key);
    b.extend_from_slice(value);
    b
}

fn reference_root(pairs: &[(&[u8], &[u8])]) -> [u8; 32] {
    let mut sorted: Vec<(Vec<u8>, Vec<u8>)> =
        pairs.iter().map(|(k, v)| (k.to_vec(), v.to_vec())).collect();
    sorted.sort();
    let leaves: Vec<Vec<u8>> = sorted.iter().map(|(k, v)| leaf_bytes(k, v)).collect();
    tendermint::merkle::simple_hash_from_byte_vectors::<tendermint::crypto::default::Sha256>(
        &leaves,
    )
}

#[test]
fn insert_keeps_keys_sorted_and_unique() {
    let mut s = Snapshot::new();
    assert!(s.is_empty());
    assert_eq!(s.insert(b"m".to_vec(), b"1".to_vec()), None);
    assert_eq!(s.insert(b"a".to_vec(), b"2".to_vec()), None);
    assert_eq!(s.insert(b"z".to_vec(), b"3".to_vec()), None);
    assert_eq!(s.insert(b"mm".to_vec(), b"4".to_vec()), None);
    assert_eq!(s.insert(b"m".to_vec(), b"5".to_vec()), Some(b"1".to_vec()));
    assert_eq!(s.len(), 4);
    assert!(!s.is_empty());
    assert_eq!(keys(&s), vec![b"a".to_vec(), b"m".to_vec(), b"mm".to_vec(), b"z".to_vec()]);
    assert_eq!(s.get(b"m"), Some(&b"5".to_vec()));
    assert_eq!(s.get(b"q"), None);
}

#[test]
fn find_gives_index_or_insertion_point() {
    let s = snapshot_of(&[(b"b", b"1"), (b"d", b"2"), (b"f", b"3")]);
    assert_eq!(s.find(b"b"), Ok(0));
    assert_eq!(s.find(b"d"), Ok(1));
    assert_eq!(s.find(b"f"), Ok(2));
    assert_eq!(s.find(b"a"), Err(0));
    assert_eq!(s.find(b"c"), Err(1));
    assert_eq!(s.find(b"e"), Err(2));
    assert_eq!(s.find(b"g"), Err(3));
    assert_eq!(Snapshot::new().find(b"x"), Err(0));
}

#[test]
fn remove_and_pop() {
    let mut s = snapshot_of(&[(b"a", b"1"), (b"b", b"2"), (b"c", b"3")]);
    assert_eq!(s.remove(b"b"), Some(b"2".to_vec()));
    assert_eq!(s.remove(b"b"), None);
    assert_eq!(keys(&s), vec![b"a".to_vec(), b"c".to_vec()]);
    let last = s.pop().unwrap();
    assert_eq!((last.key, last.value), (b"c".to_vec(), b"3".to_vec()));
    let last = s.pop().unwrap();
    assert_eq!((last.key, last.value), (b"a".to_vec(), b"1".to_vec()));
    assert!(s.pop().is_none());
    assert!(s.is_empty());
}

#[test]
fn duplicate_is_independent() {
    let mut s = snapshot_of(&[(b"a", b"1")]);
    let copy = s.duplicate();
    s.insert(b"a".to_vec(), b"2".to_vec());
    s.insert(b"b".to_vec(), b"3".to_vec());
    assert_eq!(copy.len(), 1);
    assert_eq!(copy.get(b"a"), Some(&b"1".to_vec()));
    assert_eq!(s.get(b"a"), Some(&b"2".to_vec()));
}

#[test]
fn split_point_is_largest_power_of_two_below() {
    let expected = [(2u64, 1u64), (3, 2), (4, 2), (5, 4), (6, 4), (7, 4), (8, 4), (9, 8), (16, 8), (17, 16), (1000, 512)];
    for (n, k) in expected {
        assert_eq!(split_point(n), k, "n = {}", n);
    }
    assert_eq!(split_point(u64::MAX), 1u64 << 63);
    assert_eq!(split_point((1u64 << 63) + 1), 1u64 << 63);
}

#[test]
fn empty_commitment_is_thirty_two_zero_bytes() {
    assert_eq!(empty_hash(), [0u8; 32]);
    assert_eq!(commitment(&Snapshot::new()), [0u8; 32]);
    assert_eq!(root_of(&vec![]), [0u8; 32]);
}

#[test]
fn leaf_digest_is_the_rfc_6962_leaf_hash() {
    // SHA-256 of a zero byte followed by the leaf bytes: the root of a tree of one leaf.
    let expected = tendermint::merkle::simple_hash_from_byte_vectors::<
        tendermint::crypto::default::Sha256,
    >(&[leaf_bytes(b"key", b"value")]);
    assert_eq!(leaf_of(b"key", b"value"), expected);
    assert_ne!(leaf_of(b"key", b"value"), leaf_of(b"ke", b"yvalue"));
    assert_ne!(leaf_of(b"key", b"value"), leaf_of(b"keyv", b"alue"));
}

#[test]
fn commitment_matches_the_reference_tree() {
    let all: Vec<(Vec<u8>, Vec<u8>)> =
        (0u8..12).map(|i| (vec![b'k', 200 - 7 * i], vec![i; (i as usize) % 4])).collect();
    for n in 1..=all.len() {
        let pairs: Vec<(&[u8], &[u8])> =
            all[..n].iter().map(|(k, v)| (k.as_slice(), v.as_slice())).collect();
        let s = snapshot_of(&pairs);
        assert_eq!(commitment(&s), reference_root(&pairs), "n = {}", n);
    }
}

#[test]
fn commitment_does_not_depend_on_insertion_order() {
    let a = snapshot_of(&[(b"a", b"1"), (b"b", b"2"), (b"c", b"3"), (b"d", b"4"), (b"e", b"5")]);
    let mut b = snapshot_of(&[(b"e", b"5"), (b"c", b"0"), (b"a", b"1"), (b"x", b"9"), (b"d", b"4"), (b"b", b"2")]);
    b.insert(b"c".to_vec(), b"3".to_vec());
    b.remove(b"x");
    assert_eq!(commitment(&a), commitment(&b));
    let c = snapshot_of(&[(b"a", b"1"), (b"b", b"2"), (b"c", b"3"), (b"d", b"4"), (b"e", b"6")]);
    assert_ne!(commitment(&a), commitment(&c));
}

#[test]
fn audit_path_leads_back_to_the_root() {
    for n in 1usize..=9 {
        let pairs: Vec<(Vec<u8>, Vec<u8>)> = (0..n).map(|i| (vec![i as u8], vec![i as u8, 1])).collect();
        let refs: Vec<(&[u8], &[u8])> = pairs.iter().map(|(k, v)| (k.as_slice(), v.as_slice())).collect();
        let s = snapshot_of(&refs);
        let leaves = leaves_of(&s);
        let root = root_of(&leaves);
        for i in 0..n {
            let path = path_of(&leaves, i);
            assert_eq!(root_from(n as u64, i as u64, &leaves[i], &path), Some(root), "n = {}, i = {}", n, i);
            // A wrong position, a wrong total, or a wrong leaf does not give the root.
            if n > 1 {
                let other = (i + 1) % n;
                assert_ne!(root_from(n as u64, i as u64, &leaves[other], &path), Some(root));
            }
            assert_eq!(root_from(n as u64, n as u64, &leaves[i], &path), None);
            let mut longer = path.clone();
            longer.push([7u8; 32]);
            assert_ne!(root_from(n as u64, i as u64, &leaves[i], &longer), Some(root));
        }
    }
}

#[test]
fn audit_path_lengths() {
    let pairs: Vec<(Vec<u8>, Vec<u8>)> = (0..5).map(|i| (vec![i as u8], vec![])).collect();
    let refs: Vec<(&[u8], &[u8])> = pairs.iter().map(|(k, v)| (k.as_slice(), v.as_slice())).collect();
    let leaves = leaves_of(&snapshot_of(&refs));
    // Five leaves split 4 + 1: the first four lie three levels deep, the last one level.
    assert_eq!(path_of(&leaves, 0).len(), 3);
    assert_eq!(path_of(&leaves, 3).len(), 3);
    assert_eq!(path_of(&leaves, 4).len(), 1);
    assert_eq!(root_from(0, 0, &leaves[0], &vec![]), None);
    assert_eq!(root_from(1, 0, &leaves[0], &vec![]), Some(leaves[0]));
    assert_eq!(root_from(1, 0, &leaves[0], &vec![leaves[1]]), None);
    assert_eq!(root_from(2, 0, &leaves[0], &vec![]), None);
}

#[test]
fn proof_of_presence_verifies() {
    let s = snapshot_of(&[(b"a", b"1"), (b"b", b"2"), (b"c", b"3")]);
    let root = commitment(&s);
    let p = prove(&s, b"b");
    assert!(matches!(p, Proof::Exists { total: 3, index: 1, .. }));
    assert!(p.verify(&root, b"b", Some(b"2")));
    assert!(!p.verify(&root, b"b", Some(b"3")));
    assert!(!p.verify(&root, b"b", None));
    assert!(!p.verify(&root, b"a", Some(b"2")));
    assert!(!p.verify(&[1u8; 32], b"b", Some(b"2")));
}

#[test]
fn proof_of_absence_verifies() {
    let s = snapshot_of(&[(b"b", b"1"), (b"d", b"2"), (b"f", b"3")]);
    let root = commitment(&s);
    for key in [&b"a"[..], b"c", b"e", b"g"] {
        let p = prove(&s, key);
        assert!(matches!(p, Proof::Absent { total: 3, .. }));
        assert!(p.verify(&root, key, None));
        assert!(!p.verify(&root, key, Some(b"1")));
        assert!(!p.verify(&[1u8; 32], key, None));
    }
    // The proof for the gap between b and d does not show that e is absent, nor that b is.
    let between = prove(&s, b"c");
    assert!(!between.verify(&root, b"e", None));
    assert!(!between.verify(&root, b"b", None));
    assert!(!between.verify(&root, b"d", None));
    match prove(&s, b"a") {
        Proof::Absent { left: None, right: Some(Neighbour { index: 0, .. }), .. } => {}
        _ => panic!("expected the first entry as the right neighbour"),
    }
    match prove(&s, b"g") {
        Proof::Absent { left: Some(Neighbour { index: 2, .. }), right: None, .. } => {}
        _ => panic!("expected the last entry as the left neighbour"),
    }
}

#[test]
fn proof_of_absence_in_the_empty_state() {
    let s = Snapshot::new();
    let p = prove(&s, b"k");
    assert!(matches!(p, Proof::Absent { total: 0, left: None, right: None }));
    assert!(p.verify(&commitment(&s), b"k", None));
    assert!(!p.verify(&commitment(&snapshot_of(&[(b"k", b"v")])), b"k", None));
}

#[test]
fn absence_proof_with_neighbours_that_are_not_adjacent_fails() {
    let s = snapshot_of(&[(b"b", b"1"), (b"d", b"2"), (b"f", b"3")]);
    let root = commitment(&s);
    // Take the left neighbour of "c" and the right neighbour of "e": b and f, with d between.
    let (left, right) = match (prove(&s, b"c"), prove(&s, b"e")) {
        (Proof::Absent { left, .. }, Proof::Absent { right, .. }) => (left, right),
        _ => panic!("expected two proofs of absence"),
    };
    let forged = Proof::Absent { total: 3, left, right };
    assert!(!forged.verify(&root, b"d", None));
    assert!(!forged.verify(&root, b"c", None));
}

#[test]
fn neighbour_check_and_helpers() {
    let s = snapshot_of(&[(b"b", b"1"), (b"d", b"2")]);
    let root = commitment(&s);
    match prove(&s, b"c") {
        Proof::Absent { left: Some(l), right: Some(r), total } => {
            assert!(l.check(&root, total));
            assert!(r.check(&root, total));
            assert!(!l.check(&root, total + 1));
            assert_eq!((l.key.as_slice(), r.key.as_slice()), (&b"b"[..], &b"d"[..]));
        }
        _ => panic!("expected both neighbours"),
    }
    assert!(is_less(b"a", b"b"));
    assert!(!is_less(b"b", b"b"));
    assert!(!is_less(b"c", b"b"));
    assert!(same_digest(&[3u8; 32], &[3u8; 32]));
    assert!(!same_digest(&[3u8; 32], &[4u8; 32]));
}

#[test]
fn proof_encoding_layout() {
    let s = snapshot_of(&[(b"a", b"1"), (b"b", b"2")]);
    let leaves = leaves_of(&s);
    let bytes = prove(&s, b"b").encode();
    let mut expected = vec![1u8];
    expected.extend_from_slice(&2u64.to_le_bytes());
    expected.extend_from_slice(&1u64.to_le_bytes());
    expected.extend_from_slice(&1u64.to_le_bytes());
    expected.extend_from_slice(&leaves[0]);
    assert_eq!(bytes, expected);

    let bytes = prove(&s, b"c").encode();
    let mut expected = vec![0u8];
    expected.extend_from_slice(&2u64.to_le_bytes());
    expected.push(1);
    expected.extend_from_slice(&1u64.to_le_bytes());
    expected.extend_from_slice(&1u64.to_le_bytes());
    expected.extend_from_slice(b"b");
    expected.extend_from_slice(&1u64.to_le_bytes());
    expected.extend_from_slice(b"2");
    expected.extend_from_slice(&1u64.to_le_bytes());
    expected.extend_from_slice(&leaves[0]);
    expected.push(0);
    assert_eq!(bytes, expected);

    let mut expected = vec![0u8];
    expected.extend_from_slice(&0u64.to_le_bytes());
    expected.extend_from_slice(&[0, 0]);
    assert_eq!(prove(&Snapshot::new(), b"k").encode(), expected);
}

#[test]
fn encoded_proofs_decode_to_themselves() {
    let s = snapshot_of(&[(b"b", b"1"), (b"d", b"22"), (b"f", b""), (b"h", b"4"), (b"j", b"5")]);
    let root = commitment(&s);
    for key in [&b"a"[..], b"b", b"c", b"d", b"f", b"g", b"j", b"k"] {
        let p = prove(&s, key);
        let bytes = p.encode();
        let q = Proof::decode(&bytes).unwrap();
        assert_eq!(q.encode(), bytes);
        let value = s.get(key).map(|v| v.as_slice());
        assert!(q.verify(&root, key, value));
    }
    let empty = prove(&Snapshot::new(), b"k");
    let q = Proof::decode(&empty.encode()).unwrap();
    assert!(q.verify(&[0u8; 32], b"k", None));
}

#[test]
fn malformed_proof_bytes_do_not_decode() {
    let s = snapshot_of(&[(b"b", b"1"), (b"d", b"2"), (b"f", b"3")]);
    assert!(Proof::decode(&[]).is_none());
    assert!(Proof::decode(&[2]).is_none());
    assert!(Proof::decode(&[1]).is_none());
    assert!(Proof::decode(&[0, 0, 0, 0]).is_none());
    for key in [&b"c"[..], b"d", b"a"] {
        let bytes = prove(&s, key).encode();
        // Every proper prefix is too short, and a byte behind the end is one too many.
        for n in 0..bytes.len() {
            assert!(Proof::decode(&bytes[..n]).is_none(), "prefix of {} bytes", n);
        }
        let mut longer = bytes.clone();
        longer.push(0);
        assert!(Proof::decode(&longer).is_none());
    }
    // A count of digests that the bytes cannot hold.
    let mut huge = vec![1u8];
    huge.extend_from_slice(&1u64.to_le_bytes());
    huge.extend_from_slice(&0u64.to_le_bytes());
    huge.extend_from_slice(&u64::MAX.to_le_bytes());
    assert!(Proof::decode(&huge).is_none());
    // A neighbour mark that is neither zero nor one.
    let mut mark = vec![0u8];
    mark.extend_from_slice(&0u64.to_le_bytes());
    mark.extend_from_slice(&[2, 0]);
    assert!(Proof::decode(&mark).is_none());
}
