use csv_nose::Type;

#[test]
fn test_type_merge() {
    assert_eq!(Type::Unsigned.merge(Type::Unsigned), Type::Unsigned);
    assert_eq!(Type::Unsigned.merge(Type::Signed), Type::Signed);
    assert_eq!(Type::Unsigned.merge(Type::Float), Type::Float);
    assert_eq!(Type::NULL.merge(Type::Unsigned), Type::Unsigned);
    assert_eq!(Type::Date.merge(Type::DateTime), Type::DateTime);
    assert_eq!(Type::Boolean.merge(Type::Text), Type::Text);
}

#[test]
fn merge_laws_hold_on_values() {
    let all = [
        Type::NULL,
        Type::Boolean,
        Type::Unsigned,
        Type::Signed,
        Type::Float,
        Type::Date,
        Type::DateTime,
        Type::Text,
    ];
    for a in all {
        assert_eq!(Type::NULL.merge(a), a);
        assert_eq!(a.merge(Type::NULL), a);
        for b in all {
            assert_eq!(a.merge(b), b.merge(a));
            for c in all {
                assert_eq!(a.merge(b).merge(c), a.merge(b.merge(c)));
            }
        }
    }
    assert_eq!(Type::Signed.merge(Type::Float), Type::Float);
    assert_eq!(Type::Boolean.merge(Type::Unsigned), Type::Text);
}

#[test]
fn type_priorities_and_names() {
    assert_eq!(Type::NULL.priority(), 0);
    assert_eq!(Type::Text.priority(), 7);
    assert_eq!(Type::Float.as_index(), 4);
    assert!(Type::Signed.is_numeric());
    assert!(!Type::Date.is_numeric());
    assert!(Type::DateTime.is_temporal());
    assert_eq!(Type::DateTime.name(), "DateTime");
}
