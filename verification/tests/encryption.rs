use icefalldb_query::encryption::{
    encrypted_table_aad, explicit_aad, parse_factory_options, prefix_or_derived, prefix_or_empty,
    stored_aad_prefix, EncryptionKeyResolver, FooterOutcome, IcefallDBEncryptionConfig,
};
use icefalldb_query::error::CoreError;
use icefalldb_query::QueryError;

/// Stands for the derivation of the storage layer.
fn table_aad_prefix(table: &str, schema_id: u64) -> Vec<u8> {
    format!("{table}#{schema_id}").into_bytes()
}

#[test]
fn derive_aad_empty_when_no_identity() {
    assert!(IcefallDBEncryptionConfig::default()
        .derive_aad(table_aad_prefix)
        .unwrap()
        .is_empty());
}

#[test]
fn derive_aad_from_table_hint() {
    let c = IcefallDBEncryptionConfig {
        table_hint: "events".into(),
        ..Default::default()
    };
    assert_eq!(
        c.derive_aad(table_aad_prefix).unwrap(),
        table_aad_prefix("events", 1)
    );
}

#[test]
fn derive_aad_from_table_hint_and_schema_id() {
    let c = IcefallDBEncryptionConfig {
        table_hint: "events".into(),
        schema_id: 7,
        ..Default::default()
    };
    assert_eq!(
        c.derive_aad(table_aad_prefix).unwrap(),
        table_aad_prefix("events", 7)
    );
}

#[test]
fn derive_aad_explicit_override_wins() {
    let c = IcefallDBEncryptionConfig {
        table_hint: "events".into(),
        aad_prefix_b64: Some("Y3VzdG9tLWFhZA==".into()), // b"custom-aad"
        ..Default::default()
    };
    assert_eq!(c.derive_aad(table_aad_prefix).unwrap(), b"custom-aad");
}

#[test]
fn derive_aad_blank_override_falls_through() {
    let c = IcefallDBEncryptionConfig {
        table_hint: "events".into(),
        aad_prefix_b64: Some("  ".into()),
        ..Default::default()
    };
    assert_eq!(
        c.derive_aad(table_aad_prefix).unwrap(),
        table_aad_prefix("events", 1)
    );
}

#[test]
fn derive_aad_rejects_bad_base64() {
    let c = IcefallDBEncryptionConfig {
        aad_prefix_b64: Some("!!!not-base64!!!".into()),
        ..Default::default()
    };
    match c.derive_aad(table_aad_prefix).unwrap_err() {
        QueryError::DataFusion(message) => {
            assert!(message.contains("aad_prefix_b64"));
            assert!(message.len() > "invalid aad_prefix_b64: ".len());
        }
        _ => panic!("expected a configuration error"),
    }
}

#[test]
fn white_space_around_a_prefix_does_not_count() {
    let c = IcefallDBEncryptionConfig {
        aad_prefix_b64: Some("\u{3000} Y3VzdG9tLWFhZA==\n".into()),
        ..Default::default()
    };
    assert_eq!(c.derive_aad(table_aad_prefix).unwrap(), b"custom-aad");
}

#[test]
fn a_stored_prefix_is_decoded_or_empty() {
    assert_eq!(
        stored_aad_prefix(&Some("Y3VzdG9tLWFhZA==".to_string())),
        b"custom-aad"
    );
    assert!(stored_aad_prefix(&Some("%".to_string())).is_empty());
    assert!(stored_aad_prefix(&None).is_empty());
}

fn pairs(list: &[(&str, &str)]) -> Vec<(String, String)> {
    list.iter()
        .map(|(a, b)| (a.to_string(), b.to_string()))
        .collect()
}

#[test]
fn column_keys_are_trimmed_sorted_and_the_last_wins() {
    let c = IcefallDBEncryptionConfig {
        column_key_ids: " ssn = ssn-v1 ,, email=email-v1,broken, ssn=ssn-v2,a=b=c".into(),
        ..Default::default()
    };
    assert_eq!(
        c.parse_column_keys(),
        pairs(&[("a", "b=c"), ("email", "email-v1"), ("ssn", "ssn-v2")])
    );
    assert!(IcefallDBEncryptionConfig::default()
        .parse_column_keys()
        .is_empty());
}

#[test]
fn options_are_read_bare_or_namespaced() {
    let c = parse_factory_options(&pairs(&[
        ("icefalldb.encryption.footer_key_id", "long"),
        ("footer_key_id", "bare"),
        ("icefalldb.encryption.table_hint", "events"),
        ("schema_id", " 12 "),
    ]));
    assert_eq!(c.footer_key_id, "bare");
    assert_eq!(c.table_hint, "events");
    assert_eq!(c.column_key_ids, "");
    assert_eq!(c.schema_id, 12);
    assert_eq!(c.aad_prefix_b64, None);
}

#[test]
fn a_schema_id_that_is_no_number_is_one() {
    for text in ["x", "", "-3", "18446744073709551616", "1 2"] {
        let c = parse_factory_options(&pairs(&[("schema_id", text)]));
        assert_eq!(c.schema_id, 1);
    }
    let c = parse_factory_options(&pairs(&[("schema_id", "+18446744073709551615")]));
    assert_eq!(c.schema_id, u64::MAX);
}

fn resolver(columns: &[(&str, &str)], plaintext_footer: bool) -> EncryptionKeyResolver {
    EncryptionKeyResolver::new(
        "footer".to_string(),
        pairs(columns),
        vec![1, 2],
        plaintext_footer,
    )
}

fn missing() -> Result<Vec<u8>, CoreError> {
    Err(CoreError::EncryptionKeyNotFound("footer".to_string()))
}

#[test]
fn a_found_key_of_zeros_still_verifies() {
    let r = resolver(&[], true);
    match r.footer_fetched(&vec![], Ok(vec![0; 16])).unwrap() {
        FooterOutcome::Key(key) => {
            let plan = r.plan(key, vec![]);
            assert!(plan.verify_footer);
            assert_eq!(plan.footer_key, vec![0; 16]);
            assert_eq!(plan.aad_prefix, Some(vec![1, 2]));
        }
        FooterOutcome::Unverified(_) => panic!("the key was found"),
    }
}

#[test]
fn a_missing_key_does_no_harm_to_plaintext_columns() {
    let r = resolver(&[("secret", "secret-key")], true);
    match r
        .footer_fetched(&vec!["plain".to_string()], missing())
        .unwrap()
    {
        FooterOutcome::Unverified(plan) => {
            assert!(!plan.verify_footer);
            assert_eq!(plan.footer_key, vec![0; 16]);
            assert!(plan.column_keys.is_empty());
        }
        FooterOutcome::Key(_) => panic!("no key was found"),
    }
}

#[test]
fn a_missing_key_is_an_error_where_it_is_needed() {
    let needed = vec!["secret".to_string()];
    let by_column = resolver(&[("secret", "secret-key")], true);
    assert_eq!(
        by_column.footer_fetched(&needed, missing()).unwrap_err(),
        QueryError::Core(CoreError::EncryptionKeyNotFound("footer".to_string()))
    );
    // The footer key encrypts every column of a table without column keys.
    assert!(resolver(&[], true)
        .footer_fetched(&needed, missing())
        .is_err());
    assert!(resolver(&[], true)
        .footer_fetched(&vec![], missing())
        .is_ok());
    // An encrypted footer always needs its key.
    assert!(resolver(&[], false)
        .footer_fetched(&vec![], missing())
        .is_err());
    // Any other failure is passed on.
    assert!(resolver(&[], true)
        .footer_fetched(&vec![], Err(CoreError::Failure("io".to_string())))
        .is_err());
}

#[test]
fn only_keys_of_columns_that_are_read_are_fetched() {
    let r = resolver(&[("a", "ka"), ("b", "kb")], true);
    assert!(r.plaintext_footer());
    let needed = vec!["b".to_string(), "plain".to_string()];
    assert_eq!(r.column_keys_to_fetch(&needed), pairs(&[("b", "kb")]));
    assert!(r.needs_any_encrypted_column(&needed));
    assert!(!r.needs_any_encrypted_column(&vec!["plain".to_string()]));
}

#[test]
fn an_encrypted_table_falls_back_to_the_derived_prefix() {
    let stored = Some("Y3VzdG9tLWFhZA==".to_string());
    assert_eq!(
        encrypted_table_aad(&stored, "events", table_aad_prefix),
        b"custom-aad"
    );
    assert_eq!(
        encrypted_table_aad(&None, "events", table_aad_prefix),
        b"events#1"
    );
    assert_eq!(
        encrypted_table_aad(&Some("not base64!".to_string()), "events", table_aad_prefix),
        b"events#1"
    );
}

#[test]
fn decoded_prefixes_are_used_as_they_are() {
    assert_eq!(prefix_or_empty(Some(Ok(vec![1, 2]))), vec![1, 2]);
    assert!(prefix_or_empty(Some(Err("bad".to_string()))).is_empty());
    assert!(prefix_or_empty(None).is_empty());
    assert_eq!(
        prefix_or_derived(Some(Ok(vec![])), "t", table_aad_prefix),
        Vec::<u8>::new()
    );
    assert_eq!(
        prefix_or_derived(Some(Err("bad".to_string())), "t", table_aad_prefix),
        b"t#1"
    );
    assert_eq!(explicit_aad(Ok(vec![7])).unwrap(), vec![7]);
    assert_eq!(
        explicit_aad(Err("bad".to_string())).unwrap_err(),
        QueryError::DataFusion("invalid aad_prefix_b64: bad".to_string())
    );
}
