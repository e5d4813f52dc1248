use ycg_core::builder::ScipDocument;
use ycg_core::filefilter::FileFilter;
use ycg_core::model::FileFilterConfig;

#[test]
fn test_no_patterns_includes_all() {
    let config = FileFilterConfig {
        include_patterns: vec![],
        exclude_patterns: vec![],
        use_gitignore: false,
    };

    let filter = FileFilter::new(&config, None).unwrap();

    assert!(filter.should_process("src/main.rs"));
    assert!(filter.should_process("tests/test.rs"));
    assert!(filter.should_process("README.md"));
}

#[test]
fn test_include_pattern_filters() {
    let config = FileFilterConfig {
        include_patterns: vec!["**/*.rs".to_string()],
        exclude_patterns: vec![],
        use_gitignore: false,
    };

    let filter = FileFilter::new(&config, None).unwrap();

    assert!(filter.should_process("src/main.rs"));
    assert!(filter.should_process("tests/test.rs"));
    assert!(!filter.should_process("README.md"));
    assert!(!filter.should_process("package.json"));
}

#[test]
fn test_exclude_pattern_filters() {
    let config = FileFilterConfig {
        include_patterns: vec![],
        exclude_patterns: vec!["**/target/**".to_string(), "**/node_modules/**".to_string()],
        use_gitignore: false,
    };

    let filter = FileFilter::new(&config, None).unwrap();

    assert!(filter.should_process("src/main.rs"));
    assert!(!filter.should_process("target/debug/main"));
    assert!(!filter.should_process("node_modules/package/index.js"));
}

#[test]
fn test_exclude_wins_over_include() {
    let config = FileFilterConfig {
        include_patterns: vec!["**/*.rs".to_string()],
        exclude_patterns: vec!["**/target/**".to_string()],
        use_gitignore: false,
    };

    let filter = FileFilter::new(&config, None).unwrap();

    assert!(filter.should_process("src/main.rs"));
    assert!(!filter.should_process("target/debug/main.rs"));
}

#[test]
fn test_gitignore_integration() {
    let config = FileFilterConfig {
        include_patterns: vec![],
        exclude_patterns: vec![],
        use_gitignore: true,
    };

    let lines = vec!["*.log".to_string(), "node_modules/".to_string()];
    let filter = FileFilter::new(&config, Some(lines)).unwrap();

    assert!(filter.should_process("src/main.rs"));

    assert!(!filter.should_process("debug.log"));
    assert!(!filter.should_process("app.log"));
}

#[test]
fn test_filter_documents() {
    let config = FileFilterConfig {
        include_patterns: vec!["**/*.rs".to_string()],
        exclude_patterns: vec![],
        use_gitignore: false,
    };

    let filter = FileFilter::new(&config, None).unwrap();

    let documents = vec![
        ScipDocument {
            relative_path: "src/main.rs".to_string(),
            occurrences: vec![],
            symbols: vec![],
        },
        ScipDocument {
            relative_path: "README.md".to_string(),
            occurrences: vec![],
            symbols: vec![],
        },
        ScipDocument {
            relative_path: "tests/test.rs".to_string(),
            occurrences: vec![],
            symbols: vec![],
        },
    ];

    let filtered = filter.filter_documents(documents);
    assert_eq!(filtered.len(), 2);
    assert_eq!(filtered[0].relative_path, "src/main.rs");
    assert_eq!(filtered[1].relative_path, "tests/test.rs");
}

#[test]
fn test_invalid_pattern_is_rejected() {
    let config = FileFilterConfig {
        include_patterns: vec!["a**b***c".to_string()],
        exclude_patterns: vec![],
        use_gitignore: false,
    };
    let result = FileFilter::new(&config, None);
    match result {
        Ok(_) => panic!("expected an invalid-pattern error"),
        Err(e) => assert!(e.contains("Invalid include pattern")),
    }
}
