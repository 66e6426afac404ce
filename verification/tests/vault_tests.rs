use kakadu_vault::errors::VaultError;
use kakadu_vault::model::{Group, InputSymbol, PasswordData, Record};
use kakadu_vault::store::AppState;

fn record(id: u32, pid: u32, name: &str) -> Record {
    Record {
        id,
        pid,
        name: String::from(name),
        login: String::from("login"),
        password: String::from("password"),
        url: String::from("https://example.com"),
        login_symbol: InputSymbol::Tab,
        password_symbol: InputSymbol::Enter,
        url_symbol: InputSymbol::Space,
    }
}

#[test]
fn fresh_store_holds_only_the_root_group() {
    let state = AppState::new();
    let groups = state.get_groups().unwrap();
    assert_eq!(groups, vec![Group { id: 1, pid: 0, name: String::from("NewDatabase") }]);
    assert!(state.get_records_by_group(1).unwrap().is_empty());
}

#[test]
fn add_group_scenario() {
    let mut state = AppState::new();
    let g = state.new_group(1, String::from("Email")).unwrap();
    assert_eq!(g, Group { id: 2, pid: 1, name: String::from("Email") });
    let groups = state.get_groups().unwrap();
    assert_eq!(
        groups,
        vec![
            Group { id: 1, pid: 0, name: String::from("NewDatabase") },
            Group { id: 2, pid: 1, name: String::from("Email") },
        ]
    );
}

#[test]
fn new_ids_exceed_every_existing_id() {
    let mut state = AppState::new();
    state.password_data = Some(PasswordData {
        groups: vec![Group { id: 1, pid: 0, name: String::from("NewDatabase") }],
        records: vec![record(9, 1, "old entry")],
    });
    let g = state.new_group(1, String::from("after records")).unwrap();
    assert_eq!(g.id, 10);

    let mut ids: Vec<u32> = Vec::new();
    for gr in state.get_groups().unwrap() {
        ids.push(gr.id);
    }
    for rec in state.get_records_by_group(1).unwrap() {
        ids.push(rec.id);
    }
    let mut sorted = ids.clone();
    sorted.sort();
    sorted.dedup();
    assert_eq!(sorted.len(), ids.len(), "ids must stay unique");
}

#[test]
fn id_uniqueness_across_many_operations() {
    let mut state = AppState::new();
    for k in 0..10u32 {
        state.new_group(1, format!("group {}", k)).unwrap();
    }
    state.delete_group(4).unwrap();
    state.delete_group(7).unwrap();
    let g = state.new_group(1, String::from("fresh")).unwrap();
    assert_eq!(g.id, 12);
    let groups = state.get_groups().unwrap();
    let mut ids: Vec<u32> = groups.iter().map(|g| g.id).collect();
    ids.sort();
    let mut deduped = ids.clone();
    deduped.dedup();
    assert_eq!(ids.len(), deduped.len());
}

#[test]
fn removing_a_nonexistent_id_fails_both_times() {
    let mut state = AppState::new();
    assert_eq!(state.delete_record(42), Err(VaultError::NotFoundError));
    assert_eq!(state.delete_record(42), Err(VaultError::NotFoundError));
    assert_eq!(state.delete_group(42), Err(VaultError::NotFoundError));
    assert_eq!(state.delete_group(42), Err(VaultError::NotFoundError));
}

#[test]
fn delete_record_removes_exactly_one() {
    let mut state = AppState::new();
    state.password_data = Some(PasswordData {
        groups: vec![Group { id: 1, pid: 0, name: String::from("NewDatabase") }],
        records: vec![record(2, 1, "a"), record(3, 1, "b")],
    });
    assert_eq!(state.delete_record(2), Ok(2));
    let left = state.get_records_by_group(1).unwrap();
    assert_eq!(left.len(), 1);
    assert_eq!(left[0].id, 3);
    assert_eq!(state.delete_record(2), Err(VaultError::NotFoundError));
}

#[test]
fn edit_group_renames_in_place() {
    let mut state = AppState::new();
    state.new_group(1, String::from("Old")).unwrap();
    let g = state.edit_group(2, String::from("New")).unwrap();
    assert_eq!(g, Group { id: 2, pid: 1, name: String::from("New") });
    let groups = state.get_groups().unwrap();
    assert_eq!(groups[1].name, "New");
    assert_eq!(state.edit_group(99, String::from("x")), Err(VaultError::NotFoundError));
}

#[test]
fn records_are_filtered_by_parent_group() {
    let mut state = AppState::new();
    state.password_data = Some(PasswordData {
        groups: vec![
            Group { id: 1, pid: 0, name: String::from("NewDatabase") },
            Group { id: 2, pid: 1, name: String::from("Email") },
        ],
        records: vec![record(3, 1, "in root"), record(4, 2, "in email"), record(5, 2, "also")],
    });
    let in_email = state.get_records_by_group(2).unwrap();
    assert_eq!(in_email.len(), 2);
    assert_eq!(in_email[0].id, 4);
    assert_eq!(in_email[1].id, 5);
    let in_root = state.get_records_by_group(1).unwrap();
    assert_eq!(in_root.len(), 1);
    assert_eq!(in_root[0].id, 3);
}

#[test]
fn clear_group_list_keeps_records() {
    let mut state = AppState::new();
    state.new_group(1, String::from("Email")).unwrap();
    state.password_data.as_mut().unwrap().records.push(record(3, 2, "kept"));
    state.clear_group_list().unwrap();
    let groups = state.get_groups().unwrap();
    assert_eq!(groups, vec![Group { id: 1, pid: 0, name: String::from("NewDatabase") }]);
    assert_eq!(state.get_records_by_group(2).unwrap().len(), 1);
}

#[test]
fn operations_without_data_report_no_data() {
    let mut state = AppState { password_data: None };
    assert_eq!(state.get_groups(), Err(VaultError::NoDataError));
    assert_eq!(state.get_records_by_group(1), Err(VaultError::NoDataError));
    assert_eq!(state.new_group(1, String::from("x")), Err(VaultError::NoDataError));
    assert_eq!(state.edit_group(1, String::from("x")), Err(VaultError::NoDataError));
    assert_eq!(state.delete_group(1), Err(VaultError::NoDataError));
    assert_eq!(state.delete_record(1), Err(VaultError::NoDataError));
    assert_eq!(state.clear_group_list(), Err(VaultError::NoDataError));
    assert_eq!(state.save_to_bytes("pw"), Err(VaultError::NoDataError));
}

#[test]
fn save_then_open_round_trip() {
    let mut state = AppState::new();
    state.new_group(1, String::from("Email")).unwrap();
    state.password_data.as_mut().unwrap().records.push(record(3, 2, "mail"));
    let saved = state.password_data.as_ref().unwrap().clone();
    let bytes = state.save_to_bytes("hunter2").unwrap();

    let mut fresh = AppState::new();
    fresh.load_from_bytes(&bytes, "hunter2").unwrap();
    assert_eq!(*fresh.password_data.as_ref().unwrap(), saved);
}

#[test]
fn open_with_wrong_passphrase_is_a_format_error() {
    let mut state = AppState::new();
    let bytes = state.save_to_bytes("hunter2").unwrap();
    let r = state.load_from_bytes(&bytes, "wrong-pass");
    assert_eq!(r, Err(VaultError::FormatError));
    // The held vault is untouched by the failed open.
    assert_eq!(state.get_groups().unwrap().len(), 1);
}

#[test]
fn flipping_any_single_byte_never_yields_a_silent_exact_match() {
    let mut state = AppState::new();
    state.new_group(1, String::from("Email")).unwrap();
    let original = state.password_data.as_ref().unwrap().clone();
    let bytes = state.save_to_bytes("hunter2").unwrap();

    for pos in 0..bytes.len() {
        let mut tampered = bytes.clone();
        tampered[pos] ^= 0xFF;
        let mut probe = AppState { password_data: None };
        match probe.load_from_bytes(&tampered, "hunter2") {
            Err(e) => assert_eq!(e, VaultError::FormatError),
            Ok(()) => {
                // Tampering that still parses must give a structurally
                // different vault, never a silent exact match.
                assert_ne!(*probe.password_data.as_ref().unwrap(), original);
            },
        }
    }
}

#[test]
fn load_from_bytes_rejects_unaligned_input() {
    let mut state = AppState { password_data: None };
    let bytes: Vec<u8> = vec![1, 2, 3];
    assert_eq!(state.load_from_bytes(&bytes, "pw"), Err(VaultError::FormatError));
}

#[test]
fn error_messages_distinguish_the_cases() {
    let msgs = vec![
        VaultError::IoError.message(),
        VaultError::FormatError.message(),
        VaultError::NotFoundError.message(),
        VaultError::NoDataError.message(),
        VaultError::KeyInitError.message(),
    ];
    for a in 0..msgs.len() {
        for b in (a + 1)..msgs.len() {
            assert_ne!(msgs[a], msgs[b]);
        }
    }
}
