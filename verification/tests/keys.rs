use basecoin::modules::prefix::{Auth, Bank, Ibc, Staking};
use basecoin::modules::Identifiable;
use basecoin::store::height::{Height, StoreError};
use basecoin::store::identifier::{
    check_identifier, check_path, is_allowed, Identifier, Path, SEPARATOR,
};
use basecoin::store::key::{bytes_eq, compare, copy_bytes, starts_with, Order};

#[test]
fn compare_orders_bytes_lexicographically() {
    assert_eq!(compare(b"", b""), Order::Equal);
    assert_eq!(compare(b"", b"a"), Order::Less);
    assert_eq!(compare(b"a", b""), Order::Greater);
    assert_eq!(compare(b"abc", b"abd"), Order::Less);
    assert_eq!(compare(b"abd", b"abc"), Order::Greater);
    assert_eq!(compare(b"ab", b"abc"), Order::Less);
    assert_eq!(compare(b"abc", b"ab"), Order::Greater);
    assert_eq!(compare(b"abc", b"abc"), Order::Equal);
    assert_eq!(compare(&[0xff], &[0x00, 0x01]), Order::Greater);
}

#[test]
fn compare_agrees_with_slice_order() {
    let samples: Vec<&[u8]> = vec![b"", b"a", b"aa", b"ab", b"b", b"ba", &[0], &[255], &[1, 2, 3]];
    for a in &samples {
        for b in &samples {
            let expected = match a.cmp(b) {
                std::cmp::Ordering::Less => Order::Less,
                std::cmp::Ordering::Equal => Order::Equal,
                std::cmp::Ordering::Greater => Order::Greater,
            };
            assert_eq!(compare(a, b), expected);
        }
    }
}

#[test]
fn bytes_eq_and_starts_with() {
    assert!(bytes_eq(b"", b""));
    assert!(bytes_eq(b"abc", b"abc"));
    assert!(!bytes_eq(b"abc", b"abd"));
    assert!(!bytes_eq(b"abc", b"ab"));
    assert!(starts_with(b"bank/acct", b"bank"));
    assert!(starts_with(b"bank", b""));
    assert!(starts_with(b"bank", b"bank"));
    assert!(!starts_with(b"ban", b"bank"));
    assert!(!starts_with(b"bunk/acct", b"bank"));
    assert_eq!(copy_bytes(b"xyz"), b"xyz".to_vec());
    assert_eq!(copy_bytes(b""), Vec::<u8>::new());
}

#[test]
fn identifier_accepts_the_allowed_characters() {
    assert_eq!(SEPARATOR, b'/');
    for b in 0u8..=255 {
        let expected = b.is_ascii_alphanumeric() || b"._+-#[]<>".contains(&b);
        assert_eq!(is_allowed(b), expected, "byte {}", b);
    }
    assert!(check_identifier(b"bank"));
    assert!(check_identifier(b"a.b_c+d-e#f[0]<1>"));
    assert!(!check_identifier(b""));
    assert!(!check_identifier(b"a/b"));
    assert!(!check_identifier(b"a b"));
    assert!(!check_identifier(&[0xc3, 0xa9]));
}

#[test]
fn identifier_new_validates() {
    let id = Identifier::new("bank").unwrap();
    assert_eq!(id.as_bytes(), b"bank");
    assert!(matches!(Identifier::new(""), Err(StoreError::InvalidIdentifier)));
    assert!(matches!(Identifier::new("a/b"), Err(StoreError::InvalidIdentifier)));
    assert!(matches!(Identifier::new("caf\u{e9}"), Err(StoreError::InvalidIdentifier)));
    assert!(matches!(Identifier::from_bytes(b"with space"), Err(StoreError::InvalidIdentifier)));
    let copy = id.duplicate();
    assert!(copy.same(&id));
    assert!(!copy.same(&Identifier::new("ibc").unwrap()));
}

#[test]
fn prefixed_key_joins_with_separator() {
    let id = Identifier::new("bank").unwrap();
    assert_eq!(id.prefixed_key(b"balances/acct1"), b"bank/balances/acct1".to_vec());
    assert_eq!(id.prefixed_key(b""), b"bank/".to_vec());
}

#[test]
fn namespaces_of_distinct_identifiers_never_meet() {
    let a = Identifier::new("ab").unwrap();
    let b = Identifier::new("a").unwrap();
    // "a" + "/" + "b/x" and "ab" + "/" + "x" differ although both start with "a".
    assert_ne!(a.prefixed_key(b"x"), b.prefixed_key(b"b/x"));
    assert_ne!(a.prefixed_key(b"k"), b.prefixed_key(b"k"));
}

#[test]
fn path_validation() {
    assert!(check_path(b"bank"));
    assert!(check_path(b"bank/balances/acct1"));
    assert!(!check_path(b""));
    assert!(!check_path(b"/bank"));
    assert!(!check_path(b"bank/"));
    assert!(!check_path(b"bank//balances"));
    assert!(!check_path(b"bank/bal ances"));
    let p = Path::new("store/bank/key").unwrap();
    assert_eq!(p.as_bytes(), b"store/bank/key");
    assert!(matches!(Path::new("bank//x"), Err(StoreError::InvalidPath)));
    assert!(matches!(Path::from_bytes(b"/"), Err(StoreError::InvalidPath)));
}

#[test]
fn path_round_trips_through_bytes() {
    let p = Path::new("bank/balances/acct1").unwrap();
    let q = Path::from_bytes(p.as_bytes()).unwrap();
    assert_eq!(q.as_bytes(), p.as_bytes());
}

#[test]
fn path_starts_with_identifier() {
    let bank = Identifier::new("bank").unwrap();
    assert!(Path::new("bank/balances/acct1").unwrap().starts_with(&bank));
    assert!(Path::new("bank").unwrap().starts_with(&bank));
    assert!(!Path::new("banker/x").unwrap().starts_with(&bank));
    assert!(!Path::new("ban").unwrap().starts_with(&bank));
    assert!(!Path::new("ibc/bank").unwrap().starts_with(&bank));
}

#[test]
fn shipped_prefixes_have_their_names() {
    assert_eq!(Bank.identifier().as_bytes(), b"bank");
    assert_eq!(Ibc.identifier().as_bytes(), b"ibc");
    assert_eq!(Auth.identifier().as_bytes(), b"auth");
    assert_eq!(Staking.identifier().as_bytes(), b"staking");
}

#[test]
fn height_from_raw_number() {
    assert_eq!(Height::from(0u64), Height::Latest);
    assert_eq!(Height::from(1u64), Height::Stable(1));
    assert_eq!(Height::from(u64::MAX), Height::Stable(u64::MAX));
}

#[test]
fn store_error_messages() {
    assert_eq!(StoreError::HeightNotFound.message(), "height not found");
    assert_eq!(StoreError::HeightOverflow.message(), "no height left to commit");
    assert_eq!(StoreError::NotAtGenesis.message(), "the first block is already committed");
    assert_eq!(StoreError::InvalidIdentifier.message(), "invalid identifier");
    assert_eq!(StoreError::InvalidPath.message(), "invalid path");
}
