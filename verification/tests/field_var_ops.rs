use packed_array::field_var::{notify_is_valid, resolve_accessors, GetSet, GetterSetter, UsageFlags};

#[test]
fn prefixes() {
    assert_eq!(GetSet::Getter.prefix(), "get_");
    assert_eq!(GetSet::Setter.prefix(), "set_");
}

#[test]
fn accessor_queries() {
    assert!(GetterSetter::Omitted.is_omitted());
    assert!(!GetterSetter::Omitted.is_generated());
    assert!(GetterSetter::Generated.is_generated());
    assert!(!GetterSetter::Generated.is_omitted());
    let custom = GetterSetter::Custom(String::from("my_getter"));
    assert!(!custom.is_omitted());
    assert!(!custom.is_generated());
}

#[test]
fn both_omitted_become_generated() {
    let (g, s) = resolve_accessors(GetterSetter::Omitted, GetterSetter::Omitted);
    assert_eq!(g, GetterSetter::Generated);
    assert_eq!(s, GetterSetter::Generated);
}

#[test]
fn named_accessors_stay() {
    let (g, s) = resolve_accessors(
        GetterSetter::Custom(String::from("read_it")),
        GetterSetter::Omitted,
    );
    assert_eq!(g, GetterSetter::Custom(String::from("read_it")));
    assert_eq!(s, GetterSetter::Omitted);
}

#[test]
fn notify_demands_generated_setter() {
    assert!(notify_is_valid(true, &GetterSetter::Generated));
    assert!(!notify_is_valid(true, &GetterSetter::Omitted));
    assert!(!notify_is_valid(
        true,
        &GetterSetter::Custom(String::from("set_it"))
    ));
    assert!(notify_is_valid(false, &GetterSetter::Omitted));
}

#[test]
fn usage_flags_inference() {
    assert!(UsageFlags::Inferred.is_inferred());
    assert!(!UsageFlags::InferredExport.is_inferred());
    assert!(!UsageFlags::Custom(vec![String::from("storage")]).is_inferred());
}
