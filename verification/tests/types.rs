use borink_object_storage_proto::{ConditionKind, DeleteKind, EntryKind, GetKind, RangeForm, RequestedRange};

// The tables are hand-written, so a number that names the wrong value is
// the bug worth checking for.
#[test]
fn each_number_names_the_value_it_projects_from() {
    for (form, range) in [
        (RangeForm::Whole, RequestedRange::Whole),
        (RangeForm::Bounded, RequestedRange::Bounded { start: 2, end: 6 }),
        (RangeForm::Offset, RequestedRange::Offset(2)),
        (RangeForm::Suffix, RequestedRange::Suffix(2)),
    ] {
        assert_eq!(range.form(), form);
        assert_eq!(RangeForm::from_discriminant(form.discriminant()), Some(form));
        assert_eq!(RequestedRange::from_parts(form, 2, 6), range);
    }
    for kind in [GetKind::Bytes, GetKind::Metadata] {
        assert_eq!(GetKind::from_discriminant(kind.discriminant()), Some(kind));
    }
    for condition in [ConditionKind::Unconditional, ConditionKind::IfMatch, ConditionKind::IfNoneMatch] {
        assert_eq!(ConditionKind::from_discriminant(condition.discriminant()), Some(condition));
    }
    for kind in [DeleteKind::Object, DeleteKind::ObjectAndSnapshots, DeleteKind::SnapshotsOnly] {
        assert_eq!(DeleteKind::from_discriminant(kind.discriminant()), Some(kind));
    }
    for kind in [EntryKind::Object, EntryKind::Prefix, EntryKind::Directory] {
        assert_eq!(EntryKind::from_discriminant(kind.discriminant()), Some(kind));
    }

    // 0 is the twins' "absent", so no plan value may claim it.
    assert_eq!(GetKind::from_discriminant(0), None);
    assert_eq!(ConditionKind::from_discriminant(0), None);
    assert_eq!(DeleteKind::from_discriminant(0), None);
    assert_eq!(RangeForm::from_discriminant(0), None);
    assert_eq!(EntryKind::from_discriminant(0), None);
}
