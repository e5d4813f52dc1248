use ycg_core::model::AdHocGranularity;

#[test]
fn test_adhoc_granularity_default() {
    let granularity = AdHocGranularity::default();
    assert_eq!(granularity, AdHocGranularity::Default);
}

#[test]
fn test_adhoc_granularity_from_str_valid() {
    assert_eq!(
        AdHocGranularity::from_str("default").unwrap(),
        AdHocGranularity::Default
    );
    assert_eq!(
        AdHocGranularity::from_str("DEFAULT").unwrap(),
        AdHocGranularity::Default
    );
    assert_eq!(
        AdHocGranularity::from_str("signatures").unwrap(),
        AdHocGranularity::InlineSignatures
    );
    assert_eq!(
        AdHocGranularity::from_str("SIGNATURES").unwrap(),
        AdHocGranularity::InlineSignatures
    );
    assert_eq!(
        AdHocGranularity::from_str("logic").unwrap(),
        AdHocGranularity::InlineLogic
    );
    assert_eq!(
        AdHocGranularity::from_str("LOGIC").unwrap(),
        AdHocGranularity::InlineLogic
    );
}

#[test]
fn test_adhoc_granularity_from_str_invalid() {
    let result = AdHocGranularity::from_str("invalid");
    assert!(result.is_err());
    let err = result.unwrap_err();
    assert!(err.contains("invalid"));
    assert!(err.contains("default"));
    assert!(err.contains("signatures"));
    assert!(err.contains("logic"));
}

#[test]
fn test_adhoc_granularity_to_str() {
    assert_eq!(AdHocGranularity::Default.to_str(), "default");
    assert_eq!(AdHocGranularity::InlineSignatures.to_str(), "signatures");
    assert_eq!(AdHocGranularity::InlineLogic.to_str(), "logic");
}

#[test]
fn test_adhoc_granularity_round_trip() {
    let levels = vec![
        AdHocGranularity::Default,
        AdHocGranularity::InlineSignatures,
        AdHocGranularity::InlineLogic,
    ];

    for level in levels {
        let str_repr = level.to_str();
        let parsed = AdHocGranularity::from_str(str_repr).unwrap();
        assert_eq!(level, parsed);
    }
}
