use spellman::hub::parse_hub_ref;

#[test]
fn parses_hub_refs() {
    assert_eq!(parse_hub_ref("model"), None);
    assert_eq!(parse_hub_ref("/opt/models/x"), None);
    assert_eq!(
        parse_hub_ref("hf:vpermilp/spellman"),
        Some(("vpermilp/spellman".into(), None))
    );
    assert_eq!(
        parse_hub_ref("hf:vpermilp/spellman/int8-col"),
        Some(("vpermilp/spellman".into(), Some("int8-col".into())))
    );
    assert_eq!(parse_hub_ref("hf:only-owner"), None);
    assert_eq!(parse_hub_ref("hf:a/b/c/d"), None);
    assert_eq!(parse_hub_ref("hf:a/b/"), None);
}
