use jj_lib::object_id::ObjectId;
use tagcore::commit_id::CommitId;
use tagcore::ref_target::RefTarget;

#[test]
fn hex_writes_two_lowercase_digits_for_each_byte() {
    assert_eq!(CommitId::new(vec![0x01, 0xab, 0xff]).hex(), "01abff");
    assert_eq!(CommitId::new(vec![1, 2, 3, 15, 16]).hex(), "0102030f10");
    assert_eq!(CommitId::new(vec![0x00]).hex(), "00");
    assert_eq!(CommitId::new(vec![0x9a, 0x0f, 0xf0]).hex(), "9a0ff0");
}

#[test]
fn hex_of_no_bytes_is_empty() {
    assert_eq!(CommitId::new(vec![]).hex(), "");
}

#[test]
fn hex_covers_every_byte_value() {
    let all: Vec<u8> = (0..=255).collect();
    let text = CommitId::new(all.clone()).hex();
    let digits = "0123456789abcdef".as_bytes();
    let mut expected = String::new();
    for byte in all {
        expected.push(digits[(byte / 16) as usize] as char);
        expected.push(digits[(byte % 16) as usize] as char);
    }
    assert_eq!(text, expected);
    assert_eq!(text.len(), 512);
}

#[test]
fn hex_is_that_of_the_repository_library() {
    let bytes = vec![0xde, 0xad, 0xbe, 0xef, 0x00, 0x7f, 0x80];
    let theirs = jj_lib::backend::CommitId::new(bytes.clone());
    assert_eq!(CommitId::new(bytes).hex(), theirs.hex());
}

#[test]
fn commit_id_gives_its_bytes_back() {
    let id = CommitId::new(vec![5, 6, 7]);
    assert_eq!(id.as_bytes(), &vec![5, 6, 7]);
    assert_eq!(id.to_bytes(), vec![5, 6, 7]);
    assert_eq!(id.clone(), id);
    assert_ne!(id, CommitId::new(vec![5, 6]));
}

#[test]
fn absent_target_points_to_nothing() {
    let target = RefTarget::absent();
    assert_eq!(target, RefTarget::Absent);
    assert!(target.is_absent());
    assert!(!target.is_present());
    assert!(!target.has_conflict());
    assert_eq!(target.as_normal(), None);
}

#[test]
fn normal_target_points_to_one_commit() {
    let id = CommitId::new(vec![1, 2]);
    let target = RefTarget::normal(id.clone());
    assert_eq!(target, RefTarget::Normal(id.clone()));
    assert!(!target.is_absent());
    assert!(target.is_present());
    assert!(!target.has_conflict());
    assert_eq!(target.as_normal(), Some(&id));
}

#[test]
fn conflicted_target_is_present() {
    let target = RefTarget::Conflicted(vec![CommitId::new(vec![1]), CommitId::new(vec![2])]);
    assert!(!target.is_absent());
    assert!(target.is_present());
    assert!(target.has_conflict());
    assert_eq!(target.as_normal(), None);
    assert_eq!(target.clone(), target);
}
