use candid::Principal;
use icp_file_store::{bytes_equal, get_id, is_owner, ICPFile, Identity, OwnerIndex};

#[test]
fn identity_text_is_the_principal_text() {
    let empty = Identity::new(vec![]).expect("the empty principal");
    assert_eq!(empty.to_text(), "aaaaa-aa");
    let anonymous = Identity::new(vec![4]).expect("the anonymous principal");
    assert_eq!(anonymous.to_text(), "2vxsx-fae");
    let other = Identity::new(vec![0xef, 0xcd, 0xab, 0, 0, 0, 0, 0, 1]).expect("a principal");
    assert_eq!(other.to_text(), "2chl6-4hpzw-vqaaa-aaaaa-c");
    assert_eq!(other.to_text(), Principal::from_slice(other.as_bytes()).to_text());
}

#[test]
fn identity_is_bounded_by_the_principal_length() {
    assert!(Identity::new(vec![1; 29]).is_some());
    assert!(Identity::new(vec![1; 30]).is_none());
    let kept = Identity::new(vec![3, 2, 1]).expect("a principal");
    assert_eq!(kept.as_bytes(), &vec![3u8, 2, 1]);
}

#[test]
fn owner_is_read_from_the_text() {
    let caller = Identity::new(vec![0xef, 0xcd, 0xab, 0, 0, 0, 0, 0, 1]).expect("a principal");
    let mut file = ICPFile::new("f".to_string(), vec![]);
    file.owner = "2chl6-4hpzw-vqaaa-aaaaa-c".to_string();
    assert!(is_owner(&file, &caller));
    file.owner = "2vxsx-fae".to_string();
    assert!(!is_owner(&file, &caller));
    assert!(is_owner(&file, &Identity::new(vec![4]).expect("a principal")));
    file.owner = "not a principal".to_string();
    assert!(!is_owner(&file, &caller));
    file.owner = String::new();
    assert!(!is_owner(&file, &caller));
}

#[test]
fn bytes_compare_by_content() {
    assert!(bytes_equal(&vec![], &vec![]));
    assert!(bytes_equal(&vec![1, 2, 3], &vec![1, 2, 3]));
    assert!(!bytes_equal(&vec![1, 2, 3], &vec![1, 2]));
    assert!(!bytes_equal(&vec![1, 2, 3], &vec![1, 2, 4]));
}

#[test]
fn get_id_moves_the_counter_up_by_one() {
    let mut counter: u128 = 0;
    assert_eq!(get_id(&mut counter), 1);
    assert_eq!(counter, 1);
    assert_eq!(get_id(&mut counter), 2);
    let mut high: u128 = u128::MAX - 1;
    assert_eq!(get_id(&mut high), u128::MAX);
    assert_eq!(high, u128::MAX);
}

#[test]
fn stat_is_computed_from_the_current_content() {
    let mut file = ICPFile::new("report".to_string(), vec![1, 2, 3, 4]);
    file.id = 12;
    let stat = file.get_stat();
    assert_eq!((stat.id, stat.name.as_str(), stat.size), (12, "report", 4));
    file.data.push(5);
    assert_eq!(file.get_stat().size, 5);
}

#[test]
fn index_records_in_order_and_lists_per_owner() {
    let mut index = OwnerIndex::new();
    assert!(index.list(&"a".to_string()).is_empty());
    index.record("a".to_string(), 1);
    index.record("b".to_string(), 2);
    index.record("a".to_string(), 3);
    assert_eq!(index.list(&"a".to_string()), vec![1, 3]);
    assert_eq!(index.list(&"b".to_string()), vec![2]);
    assert!(index.list(&"c".to_string()).is_empty());
}

#[test]
fn index_unrecord_strikes_the_first_occurrence_only() {
    let mut index = OwnerIndex::new();
    index.record("a".to_string(), 5);
    index.record("a".to_string(), 6);
    index.record("a".to_string(), 5);
    index.unrecord(&"a".to_string(), 5);
    assert_eq!(index.list(&"a".to_string()), vec![6, 5]);
}

#[test]
fn index_unrecord_of_what_is_not_there_does_nothing() {
    let mut index = OwnerIndex::new();
    index.unrecord(&"a".to_string(), 1);
    assert!(index.list(&"a".to_string()).is_empty());
    index.record("a".to_string(), 1);
    index.unrecord(&"a".to_string(), 2);
    index.unrecord(&"b".to_string(), 1);
    assert_eq!(index.list(&"a".to_string()), vec![1]);
    index.unrecord(&"a".to_string(), 1);
    assert!(index.list(&"a".to_string()).is_empty());
    index.record("a".to_string(), 9);
    assert_eq!(index.list(&"a".to_string()), vec![9]);
}
