use ycg_core::uri::is_generic_name;

#[test]
fn test_is_generic_name_valid() {
    assert!(is_generic_name("status0"));
    assert!(is_generic_name("timestamp1"));
    assert!(is_generic_name("user2"));
    assert!(is_generic_name("result3"));
    assert!(is_generic_name("data0"));
    assert!(is_generic_name("value1"));
    assert!(is_generic_name("item2"));
    assert!(is_generic_name("a0"));
    assert!(is_generic_name("abc123"));
}

#[test]
fn test_is_generic_name_invalid() {
    assert!(!is_generic_name("status"));
    assert!(!is_generic_name("user"));
    assert!(!is_generic_name("data"));

    assert!(!is_generic_name("0"));
    assert!(!is_generic_name("123"));

    assert!(!is_generic_name("Status0"));
    assert!(!is_generic_name("User1"));

    assert!(!is_generic_name("0user"));
    assert!(!is_generic_name("1status"));

    assert!(!is_generic_name("user_id"));
    assert!(!is_generic_name("user-name"));
    assert!(!is_generic_name("user.name"));
    assert!(!is_generic_name("user$0"));

    assert!(!is_generic_name("user0name"));
    assert!(!is_generic_name("status1data"));

    assert!(!is_generic_name(""));

    assert!(!is_generic_name("userId"));
    assert!(!is_generic_name("userName"));
    assert!(!is_generic_name("activeUsers"));
    assert!(!is_generic_name("myVariable"));
}

#[test]
fn test_is_generic_name_edge_cases() {
    assert!(is_generic_name("a0"));
    assert!(is_generic_name("z9"));

    assert!(is_generic_name("abcdefghij0123456789"));

    assert!(!is_generic_name("User0"));
    assert!(!is_generic_name("uSer0"));

    assert!(!is_generic_name("abcdef"));

    assert!(!is_generic_name("123456"));
}

#[test]
fn test_generic_name_patterns() {
    let generic_names = vec!["status0", "timestamp1", "user2", "result3", "data0"];

    let non_generic_names = vec![
        "userId",
        "userName",
        "activeUsers",
        "myVariable",
        "user_id",
        "User0",
        "0user",
        "user",
        "status",
    ];

    println!("Generic names that should be resolved:");
    for name in generic_names {
        println!("  - {}", name);
    }

    println!("\nNon-generic names that should NOT be resolved:");
    for name in non_generic_names {
        println!("  - {}", name);
    }

    assert!(true);
}
