use certbot_agent::errors::AgentError;
use certbot_agent::inspect::{latest_certificate_time, EntryRecord};
use certbot_agent::timestamp::Timestamp;

fn name(s: &str) -> Vec<u8> {
    s.as_bytes().to_vec()
}

#[test]
fn snapshot_is_max_of_regular_pem_files() {
    let entries = vec![
        EntryRecord::Regular { name: name("fullchain.pem"), modified: Some(100) },
        EntryRecord::Regular { name: name("privkey.pem"), modified: Some(300) },
        EntryRecord::Regular { name: name("chain.pem"), modified: Some(200) },
    ];
    assert_eq!(
        latest_certificate_time(&entries),
        Ok(Timestamp::from_micros(300))
    );
}

#[test]
fn symlink_counts_with_target_time_not_its_own() {
    let entries = vec![EntryRecord::Symlink {
        name: name("fullchain.pem"),
        link_modified: Some(999_999),
        target_modified: Some(5),
    }];
    assert_eq!(latest_certificate_time(&entries), Ok(Timestamp::from_micros(5)));
}

#[test]
fn symlink_own_time_never_changes_the_verdict() {
    let with_old_link = vec![
        EntryRecord::Symlink {
            name: name("fullchain.pem"),
            link_modified: Some(0),
            target_modified: Some(50),
        },
        EntryRecord::Regular { name: name("privkey.pem"), modified: Some(40) },
    ];
    let with_new_link = vec![
        EntryRecord::Symlink {
            name: name("fullchain.pem"),
            link_modified: Some(1_000_000),
            target_modified: Some(50),
        },
        EntryRecord::Regular { name: name("privkey.pem"), modified: Some(40) },
    ];
    assert_eq!(
        latest_certificate_time(&with_old_link),
        latest_certificate_time(&with_new_link)
    );
    assert_eq!(
        latest_certificate_time(&with_old_link),
        Ok(Timestamp::from_micros(50))
    );
}

#[test]
fn empty_directory_is_a_data_error() {
    let entries: Vec<EntryRecord> = Vec::new();
    assert_eq!(latest_certificate_time(&entries), Err(AgentError::Data));
}

#[test]
fn all_non_matching_directory_is_a_data_error() {
    let entries = vec![
        EntryRecord::Regular { name: name("README"), modified: Some(100) },
        EntryRecord::Other { name: name("archive") },
        EntryRecord::Regular { name: name("cert.der"), modified: Some(200) },
    ];
    assert_eq!(latest_certificate_time(&entries), Err(AgentError::Data));
}

#[test]
fn unreadable_entry_fails_the_whole_inspection() {
    let entries = vec![
        EntryRecord::Regular { name: name("fullchain.pem"), modified: Some(100) },
        EntryRecord::Unreadable,
    ];
    assert_eq!(latest_certificate_time(&entries), Err(AgentError::Environment));
}

#[test]
fn unresolvable_pem_symlink_fails_the_whole_inspection() {
    let entries = vec![
        EntryRecord::Regular { name: name("privkey.pem"), modified: Some(100) },
        EntryRecord::Symlink {
            name: name("fullchain.pem"),
            link_modified: Some(10),
            target_modified: None,
        },
    ];
    assert_eq!(latest_certificate_time(&entries), Err(AgentError::Environment));
}

#[test]
fn unresolvable_non_pem_symlink_is_ignored() {
    let entries = vec![
        EntryRecord::Regular { name: name("privkey.pem"), modified: Some(100) },
        EntryRecord::Symlink {
            name: name("latest"),
            link_modified: Some(10),
            target_modified: None,
        },
    ];
    assert_eq!(
        latest_certificate_time(&entries),
        Ok(Timestamp::from_micros(100))
    );
}

#[test]
fn pem_named_entry_of_other_kind_is_not_material() {
    // A symlink resolving to a directory arrives as an `Other` record even
    // under a `.pem` name, and never counts as certificate material.
    let entries = vec![EntryRecord::Other { name: name("fullchain.pem") }];
    assert_eq!(latest_certificate_time(&entries), Err(AgentError::Data));
}

#[test]
fn unreadable_time_of_pem_file_fails_the_whole_inspection() {
    let entries = vec![EntryRecord::Regular { name: name("cert.pem"), modified: None }];
    assert_eq!(latest_certificate_time(&entries), Err(AgentError::Environment));
}

#[test]
fn suffix_must_end_the_name() {
    let entries = vec![
        EntryRecord::Regular { name: name("cert.pem.bak"), modified: Some(100) },
        EntryRecord::Regular { name: name("pem"), modified: Some(200) },
        EntryRecord::Regular { name: name(".pem"), modified: Some(7) },
    ];
    // Only the bare ".pem" name qualifies.
    assert_eq!(latest_certificate_time(&entries), Ok(Timestamp::from_micros(7)));
}

#[test]
fn mixed_directory_takes_newest_effective_time() {
    let entries = vec![
        EntryRecord::Other { name: name("subdir") },
        EntryRecord::Symlink {
            name: name("fullchain.pem"),
            link_modified: Some(1),
            target_modified: Some(1704067200000000),
        },
        EntryRecord::Regular { name: name("privkey.pem"), modified: Some(1704067100000000) },
        EntryRecord::Regular { name: name("notes.txt"), modified: Some(9999999999999999) },
    ];
    assert_eq!(
        latest_certificate_time(&entries),
        Ok(Timestamp::from_micros(1704067200000000))
    );
}
