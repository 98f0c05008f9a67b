use appdata_cleaner::hashing::hash_bytes;
use appdata_cleaner::relocate::{advance_stage, copy_step, perform_relocation, verify_step,
    FsTree, PathState, RelocationError, RelocationSite, RelocationStage};

fn sample_tree() -> FsTree {
    FsTree::Dir {
        entries: vec![
            ("a".to_string(), FsTree::File { data: b"hello".to_vec() }),
            (
                "b".to_string(),
                FsTree::Dir {
                    entries: vec![("c".to_string(), FsTree::File { data: b"world".to_vec() })],
                },
            ),
        ],
    }
}

fn tree_equal(a: &FsTree, b: &FsTree) -> bool {
    match (a, b) {
        (FsTree::File { data: d1 }, FsTree::File { data: d2 }) => d1 == d2,
        (FsTree::Dir { entries: e1 }, FsTree::Dir { entries: e2 }) => {
            e1.len() == e2.len()
                && e1.iter().zip(e2.iter()).all(|(x, y)| x.0 == y.0 && tree_equal(&x.1, &y.1))
        },
        _ => false,
    }
}

#[test]
fn relocation_round_trip_preserves_content_and_swaps_in_a_link() {
    let original = sample_tree();
    let mut site = RelocationSite {
        source: PathState::Tree(sample_tree()),
        destination: PathState::Absent,
        destination_path: "/mnt/big/moved".to_string(),
    };
    let outcome = perform_relocation(&mut site);
    assert_eq!(outcome, Ok(RelocationStage::Done));
    match &site.source {
        PathState::Link(target) => assert_eq!(target, "/mnt/big/moved"),
        _ => panic!("the original path should hold a symbolic link"),
    }
    match &site.destination {
        PathState::Tree(copied) => assert!(tree_equal(copied, &original)),
        _ => panic!("the destination should hold the copied tree"),
    }
}

#[test]
fn corrupted_destination_is_caught_and_source_left_alone() {
    let mut site = RelocationSite {
        source: PathState::Tree(sample_tree()),
        destination: PathState::Absent,
        destination_path: "/mnt/big/moved".to_string(),
    };
    assert!(copy_step(&mut site).is_ok());
    // flip one byte in a copied top-level file before verification
    if let PathState::Tree(FsTree::Dir { entries }) = &mut site.destination {
        if let FsTree::File { data } = &mut entries[0].1 {
            data[0] ^= 0x01;
        } else {
            panic!("expected a file at the destination top level");
        }
    } else {
        panic!("expected a directory tree at the destination");
    }
    assert_eq!(verify_step(&site), Err(RelocationError::VerificationMismatch));
    match &site.source {
        PathState::Tree(t) => assert!(tree_equal(t, &sample_tree())),
        _ => panic!("the source must be untouched after a mismatch"),
    }
}

#[test]
fn relocating_a_missing_source_fails_with_io() {
    let mut site = RelocationSite {
        source: PathState::Absent,
        destination: PathState::Absent,
        destination_path: "/mnt/big/moved".to_string(),
    };
    assert_eq!(perform_relocation(&mut site), Err(RelocationError::Io));
}

#[test]
fn stage_machine_walks_the_happy_path_and_fails_terminally() {
    let mut stage = RelocationStage::Planned;
    for expected in [
        RelocationStage::Copying,
        RelocationStage::Verifying,
        RelocationStage::Swapping,
        RelocationStage::Done,
    ] {
        stage = advance_stage(stage, true);
        assert_eq!(stage, expected);
    }
    assert_eq!(advance_stage(RelocationStage::Done, false), RelocationStage::Done);
    assert_eq!(advance_stage(RelocationStage::Verifying, false), RelocationStage::Failed);
    assert_eq!(advance_stage(RelocationStage::Failed, true), RelocationStage::Failed);
}

#[test]
fn sha256_digest_matches_the_published_value() {
    let digest = hash_bytes(&b"hello".to_vec());
    assert_eq!(digest, "2cf24dba5fb0a30e26e83b2ac5b9e29e1b161e5c1fa7425e73043362938b9824");
    let empty = hash_bytes(&Vec::new());
    assert_eq!(empty, "e3b0c44298fc1c149afbf4c8996fb92427ae41e4649b934ca495991b7852b855");
}
