use ycg_core::config::{ConfigLoader, MergedConfig};
use ycg_core::model::{
    AdHocGranularity, FileFilterConfig, IgnoreConfig, OutputConfig, OutputFormat, YcgConfigFile,
};

#[test]
fn test_cli_precedence_over_config() {
    let file_config = YcgConfigFile {
        output: OutputConfig {
            format: Some("yaml".to_string()),
            compact: Some(false),
            ignore_framework_noise: Some(false),
            adhoc_granularity: None,
        },
        ignore: IgnoreConfig {
            use_gitignore: Some(true),
            custom_patterns: Some(vec!["**/node_modules/**".to_string()]),
        },
        include_patterns: vec!["**/*.ts".to_string()],
    };

    let merged = ConfigLoader::merge_with_cli(
        Some(file_config),
        Some(true),
        Some("adhoc".to_string()),
        Some(true),
        vec!["**/*.rs".to_string()],
        vec!["**/target/**".to_string()],
        false,
        None,
    )
    .unwrap();

    assert_eq!(merged.compact, true);
    assert_eq!(merged.ignore_framework_noise, true);
    assert_eq!(
        merged.file_filter.include_patterns,
        vec!["**/*.rs".to_string()]
    );
    assert_eq!(
        merged.file_filter.exclude_patterns,
        vec!["**/target/**".to_string()]
    );
}

#[test]
fn test_config_validation_detects_conflicts() {
    let config = MergedConfig {
        compact: false,
        output_format: OutputFormat::Yaml,
        ignore_framework_noise: false,
        file_filter: FileFilterConfig {
            include_patterns: vec!["**/*.ts".to_string()],
            exclude_patterns: vec!["**/*.ts".to_string()],
            use_gitignore: true,
        },
        adhoc_granularity: AdHocGranularity::default(),
    };

    let result = ConfigLoader::validate(&config);
    assert!(result.is_err());
    assert!(
        result
            .unwrap_err()
            .to_string()
            .contains("Conflicting patterns")
    );
}

#[test]
fn test_invalid_output_format() {
    let file_config = YcgConfigFile {
        output: OutputConfig {
            format: None,
            compact: None,
            ignore_framework_noise: None,
            adhoc_granularity: None,
        },
        ignore: IgnoreConfig {
            use_gitignore: None,
            custom_patterns: None,
        },
        include_patterns: vec![],
    };

    let result = ConfigLoader::merge_with_cli(
        Some(file_config),
        None,
        Some("invalid_format".to_string()),
        None,
        vec![],
        vec![],
        false,
        None,
    );

    assert!(result.is_err());
    assert!(
        result
            .unwrap_err()
            .to_string()
            .contains("Invalid output format")
    );
}

#[test]
fn test_cli_granularity_precedence_over_config() {
    let file_config = YcgConfigFile {
        output: OutputConfig {
            format: Some("adhoc".to_string()),
            compact: None,
            ignore_framework_noise: None,
            adhoc_granularity: Some("default".to_string()),
        },
        ignore: IgnoreConfig {
            use_gitignore: None,
            custom_patterns: None,
        },
        include_patterns: vec![],
    };

    let merged = ConfigLoader::merge_with_cli(
        Some(file_config),
        None,
        None,
        None,
        vec![],
        vec![],
        false,
        Some(AdHocGranularity::InlineLogic),
    )
    .unwrap();

    assert_eq!(merged.adhoc_granularity, AdHocGranularity::InlineLogic);
}

#[test]
fn test_config_file_granularity_when_no_cli() {
    let file_config = YcgConfigFile {
        output: OutputConfig {
            format: Some("adhoc".to_string()),
            compact: None,
            ignore_framework_noise: None,
            adhoc_granularity: Some("signatures".to_string()),
        },
        ignore: IgnoreConfig {
            use_gitignore: None,
            custom_patterns: None,
        },
        include_patterns: vec![],
    };

    let merged = ConfigLoader::merge_with_cli(
        Some(file_config),
        None,
        None,
        None,
        vec![],
        vec![],
        false,
        None,
    )
    .unwrap();

    assert_eq!(merged.adhoc_granularity, AdHocGranularity::InlineSignatures);
}

#[test]
fn test_invalid_granularity_in_config_file() {
    let file_config = YcgConfigFile {
        output: OutputConfig {
            format: Some("adhoc".to_string()),
            compact: None,
            ignore_framework_noise: None,
            adhoc_granularity: Some("invalid_level".to_string()),
        },
        ignore: IgnoreConfig {
            use_gitignore: None,
            custom_patterns: None,
        },
        include_patterns: vec![],
    };

    let result = ConfigLoader::merge_with_cli(
        Some(file_config),
        None,
        None,
        None,
        vec![],
        vec![],
        false,
        None,
    );

    assert!(result.is_err());
    let err = result.unwrap_err();
    let err_msg = err.to_string();
    assert!(err_msg.contains("invalid_level"));
    assert!(err_msg.contains("default"));
    assert!(err_msg.contains("signatures"));
    assert!(err_msg.contains("logic"));
}

#[test]
fn test_granularity_flag_requires_adhoc_format() {
    let result = ConfigLoader::merge_with_cli(
        None,
        None,
        Some("yaml".to_string()),
        None,
        vec![],
        vec![],
        false,
        Some(AdHocGranularity::InlineSignatures),
    );
    assert!(result.is_err());
    assert!(result.unwrap_err().contains("require --output-format adhoc"));
}
