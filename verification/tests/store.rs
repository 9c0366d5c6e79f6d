use icp_file_store::{not_anonymous, FileStore, ICPFile, ICPFileError, Identity};

fn who(bytes: &[u8]) -> Identity {
    Identity::new(bytes.to_vec()).expect("a principal of at most 29 bytes")
}

fn named(name: &str, data: &[u8]) -> ICPFile {
    ICPFile::new(name.to_string(), data.to_vec())
}

fn content(store: &FileStore, caller: &Identity, id: u128) -> Vec<u8> {
    match store.get_file(caller, id) {
        Ok(file) => file.data,
        Err(_) => panic!("the file should be there"),
    }
}

#[test]
fn two_callers_scenario() {
    let a = who(&[1, 1]);
    let b = who(&[2, 2]);
    let mut store = FileStore::new();
    assert!(matches!(store.create_file(&a, named("a.txt", &[])), Ok(1)));
    assert!(matches!(store.add_chunk(&a, 1, vec![1, 2, 3]), Ok(())));
    assert!(matches!(store.create_file(&b, named("b.txt", &[])), Ok(2)));

    let listing = store.get_files(&a);
    assert_eq!(listing.len(), 1);
    assert_eq!(listing[0].id, 1);
    assert_eq!(listing[0].name, "a.txt");
    assert_eq!(listing[0].size, 3);

    assert!(matches!(store.add_chunk(&b, 1, vec![9]), Err(ICPFileError::NotAuthorized)));
    assert_eq!(content(&store, &a, 1), vec![1, 2, 3]);

    assert!(matches!(store.delete_file(&a, 1), Ok(1)));
    assert!(matches!(store.get_file(&a, 1), Err(ICPFileError::NotFound)));
}

#[test]
fn first_identifier_is_one() {
    let mut store = FileStore::new();
    assert_eq!(store.last_id(), 0);
    assert!(matches!(store.create_file(&who(&[7]), named("x", &[])), Ok(1)));
    assert_eq!(store.last_id(), 1);
}

#[test]
fn create_keeps_name_and_initial_content_and_sets_owner() {
    let a = who(&[0xef, 0xcd, 0xab, 0, 0, 0, 0, 0, 1]);
    let mut store = FileStore::new();
    let mut file = named("notes", &[5, 6]);
    file.id = 77;
    file.owner = "somebody else".to_string();
    assert!(matches!(store.create_file(&a, file), Ok(1)));
    match store.get_file(&a, 1) {
        Ok(f) => {
            assert_eq!(f.id, 1);
            assert_eq!(f.owner, "2chl6-4hpzw-vqaaa-aaaaa-c");
            assert_eq!(f.name, "notes");
            assert_eq!(f.data, vec![5, 6]);
        }
        Err(_) => panic!("the owner fetches its file"),
    }
}

#[test]
fn appends_accumulate_in_order() {
    let a = who(&[1]);
    let mut store = FileStore::new();
    assert!(matches!(store.create_file(&a, named("f", &[])), Ok(1)));
    assert!(matches!(store.add_chunk(&a, 1, vec![1, 2]), Ok(())));
    assert!(matches!(store.add_chunk(&a, 1, vec![3, 4, 5]), Ok(())));
    assert_eq!(content(&store, &a, 1), vec![1, 2, 3, 4, 5]);
}

#[test]
fn empty_append_succeeds_and_changes_nothing() {
    let a = who(&[1]);
    let mut store = FileStore::new();
    assert!(matches!(store.create_file(&a, named("f", &[8])), Ok(1)));
    assert!(matches!(store.add_chunk(&a, 1, vec![]), Ok(())));
    assert_eq!(content(&store, &a, 1), vec![8]);
    assert!(matches!(store.add_chunk(&a, 1, vec![]), Ok(())));
    assert!(matches!(store.add_chunk(&a, 1, vec![9]), Ok(())));
    assert_eq!(content(&store, &a, 1), vec![8, 9]);
}

#[test]
fn truncate_then_append_gives_the_appended_bytes() {
    let a = who(&[1]);
    let mut store = FileStore::new();
    assert!(matches!(store.create_file(&a, named("f", &[1, 2, 3, 4])), Ok(1)));
    assert!(matches!(store.truncate_file(&a, 1), Ok(())));
    assert_eq!(content(&store, &a, 1), Vec::<u8>::new());
    assert!(matches!(store.add_chunk(&a, 1, vec![7, 7]), Ok(())));
    match store.get_file(&a, 1) {
        Ok(f) => {
            assert_eq!(f.id, 1);
            assert_eq!(f.name, "f");
            assert_eq!(f.owner, a.to_text());
            assert_eq!(f.data, vec![7, 7]);
        }
        Err(_) => panic!("truncation keeps the object"),
    }
    let listing = store.get_files(&a);
    assert_eq!(listing.len(), 1);
    assert_eq!(listing[0].size, 2);
}

#[test]
fn deleted_object_is_gone_from_table_and_listing() {
    let a = who(&[1]);
    let b = who(&[2]);
    let mut store = FileStore::new();
    assert!(matches!(store.create_file(&a, named("one", &[])), Ok(1)));
    assert!(matches!(store.create_file(&a, named("two", &[1])), Ok(2)));
    assert!(matches!(store.create_file(&a, named("three", &[1, 2])), Ok(3)));
    assert!(matches!(store.delete_file(&a, 2), Ok(2)));
    assert!(matches!(store.get_file(&a, 2), Err(ICPFileError::NotFound)));
    assert!(matches!(store.get_file(&b, 2), Err(ICPFileError::NotFound)));
    assert!(matches!(store.delete_file(&a, 2), Err(ICPFileError::NotFound)));
    let listing = store.get_files(&a);
    let ids: Vec<u128> = listing.iter().map(|s| s.id).collect();
    assert_eq!(ids, vec![1, 3]);
    assert_eq!(listing[1].name, "three");
    assert_eq!(listing[1].size, 2);
    assert!(store.get_files(&b).is_empty());
}

#[test]
fn another_caller_is_refused_and_nothing_changes() {
    let a = who(&[1]);
    let b = who(&[2]);
    let mut store = FileStore::new();
    assert!(matches!(store.create_file(&a, named("mine", &[1, 2, 3])), Ok(1)));
    assert!(matches!(store.add_chunk(&b, 1, vec![9]), Err(ICPFileError::NotAuthorized)));
    assert!(matches!(store.truncate_file(&b, 1), Err(ICPFileError::NotAuthorized)));
    assert!(matches!(store.delete_file(&b, 1), Err(ICPFileError::NotAuthorized)));
    assert!(matches!(store.get_file(&b, 1), Err(ICPFileError::NotAuthorized)));
    match store.get_file(&a, 1) {
        Ok(f) => {
            assert_eq!(f.owner, a.to_text());
            assert_eq!(f.name, "mine");
            assert_eq!(f.data, vec![1, 2, 3]);
        }
        Err(_) => panic!("the owner still has its file"),
    }
    assert_eq!(store.get_files(&a).len(), 1);
    assert!(store.get_files(&b).is_empty());
}

#[test]
fn missing_identifier_is_not_found() {
    let a = who(&[1]);
    let mut store = FileStore::new();
    assert!(matches!(store.add_chunk(&a, 1, vec![1]), Err(ICPFileError::NotFound)));
    assert!(matches!(store.truncate_file(&a, 1), Err(ICPFileError::NotFound)));
    assert!(matches!(store.delete_file(&a, 1), Err(ICPFileError::NotFound)));
    assert!(matches!(store.get_file(&a, 1), Err(ICPFileError::NotFound)));
    assert!(matches!(store.create_file(&a, named("f", &[])), Ok(1)));
    assert!(matches!(store.get_file(&a, 0), Err(ICPFileError::NotFound)));
    assert!(matches!(store.get_file(&a, 2), Err(ICPFileError::NotFound)));
}

#[test]
fn identifiers_increase_even_after_deletes() {
    let a = who(&[1]);
    let b = who(&[2]);
    let mut store = FileStore::new();
    assert!(matches!(store.create_file(&a, named("f", &[])), Ok(1)));
    assert!(matches!(store.create_file(&b, named("g", &[])), Ok(2)));
    assert!(matches!(store.delete_file(&b, 2), Ok(2)));
    assert!(matches!(store.delete_file(&a, 1), Ok(1)));
    assert!(matches!(store.create_file(&b, named("h", &[])), Ok(3)));
    assert!(matches!(store.create_file(&a, named("i", &[])), Ok(4)));
    assert_eq!(store.last_id(), 4);
}

#[test]
fn listing_of_a_caller_without_files_is_empty() {
    let store = FileStore::new();
    assert!(store.get_files(&who(&[1, 2, 3])).is_empty());
}

#[test]
fn listing_shows_only_the_callers_files_with_current_sizes() {
    let a = who(&[1]);
    let b = who(&[2]);
    let mut store = FileStore::new();
    assert!(matches!(store.create_file(&a, named("a1", &[])), Ok(1)));
    assert!(matches!(store.create_file(&b, named("b1", &[1])), Ok(2)));
    assert!(matches!(store.create_file(&a, named("a2", &[1, 2])), Ok(3)));
    assert!(matches!(store.add_chunk(&a, 1, vec![0; 10]), Ok(())));
    let la = store.get_files(&a);
    assert_eq!(la.len(), 2);
    assert_eq!((la[0].id, la[0].name.as_str(), la[0].size), (1, "a1", 10));
    assert_eq!((la[1].id, la[1].name.as_str(), la[1].size), (3, "a2", 2));
    for stat in &la {
        assert!(store.get_file(&a, stat.id).is_ok());
    }
    let lb = store.get_files(&b);
    assert_eq!(lb.len(), 1);
    assert_eq!((lb[0].id, lb[0].name.as_str(), lb[0].size), (2, "b1", 1));
}

#[test]
fn anonymous_caller_is_turned_away() {
    let anonymous = Identity::anonymous().expect("the anonymous principal");
    assert!(anonymous.is_anonymous());
    assert_eq!(anonymous.as_bytes(), &vec![4u8]);
    assert_eq!(not_anonymous(&anonymous), Err("You are anonymous".to_string()));
    let known = who(&[4, 4]);
    assert!(!known.is_anonymous());
    assert_eq!(not_anonymous(&known), Ok(()));
}
