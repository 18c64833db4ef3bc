use glide_core::space::{space_id_from_raw, spaces_from_raw, SpaceId, SpaceMoveError};

#[test]
fn space_id_round_trips() {
    assert_eq!(space_id_from_raw(430).unwrap().get(), 430);
    assert_eq!(space_id_from_raw(430), Some(SpaceId::new(430)));
    assert_eq!(space_id_from_raw(0), None);
}

#[test]
fn space_id_conversion_preserves_extreme_values() {
    for raw in [1, 2, u32::MAX as u64, u32::MAX as u64 + 1, u64::MAX] {
        let space = space_id_from_raw(raw).unwrap();
        assert_eq!(space.get(), raw);
        assert_eq!(space, SpaceId::new(raw));
    }
}

#[test]
fn unsupported_error_names_the_missing_class() {
    assert!(SpaceMoveError::Unsupported
        .message()
        .contains("SLSBridgedMoveWindowsToManagedSpaceOperation"));
}

#[test]
fn not_owned_error_names_the_owner() {
    assert_eq!(
        SpaceMoveError::NotOwned.message(),
        "the window server does not list the window as owned by the app"
    );
}

#[test]
fn listed_spaces_leave_out_what_is_no_space() {
    let raw = vec![Some(3), None, Some(0), Some(-1), Some(i64::MAX)];
    let spaces: Vec<u64> = spaces_from_raw(&raw).into_iter().map(SpaceId::get).collect();
    assert_eq!(spaces, [3, u64::MAX, i64::MAX as u64]);
}
