use ycg_core::model::{ScipSymbolKind, SymbolNode};
use ycg_core::sigfmt::SignatureExtractor;

#[test]
fn test_query_builder_summarization_integration() {
    let long_qb_signature = "const activeUsers = await this.userRepository.createQueryBuilder('User', 'u').select('u.id, u.name, u.email, u.createdAt, u.updatedAt').where('u.active = :active', { active: true }).andWhere('u.deletedAt IS NULL').orderBy('u.createdAt', 'DESC').limit(100).getMany()";

    let node = SymbolNode {
        id: "test_qb_var".to_string(),
        name: "activeUsers".to_string(),
        kind: ScipSymbolKind::Variable,
        parent_id: None,
        documentation: None,
        signature: Some(long_qb_signature.to_string()),
        logic: None,
    };

    let result = SignatureExtractor::extract_signature(&node);

    assert!(result.is_some(), "Should extract signature");

    let signature = result.unwrap();

    assert!(
        signature.len() < 100,
        "Signature should be < 100 chars, got: {} (len: {})",
        signature,
        signature.len()
    );

    assert_eq!(signature, "activeUsers: User[]");

    assert!(
        signature.len() < long_qb_signature.len() / 3,
        "Summarized signature should be significantly shorter"
    );
}

#[test]
fn test_query_builder_get_one_summarization() {
    let qb_signature = "const user = await this.userRepository.createQueryBuilder('User').select('user.id, user.name').where('user.id = :id', { id: userId }).getOne()";

    let node = SymbolNode {
        id: "test_qb_single".to_string(),
        name: "user".to_string(),
        kind: ScipSymbolKind::Variable,
        parent_id: None,
        documentation: None,
        signature: Some(qb_signature.to_string()),
        logic: None,
    };

    let result = SignatureExtractor::extract_signature(&node);
    assert!(result.is_some());

    let signature = result.unwrap();

    assert_eq!(signature, "user: User");
    assert!(!signature.contains("[]"));
}

#[test]
fn test_query_builder_with_joins() {
    let qb_signature = "const usersWithProfiles = await this.userRepository.createQueryBuilder('User', 'u').leftJoin('u.profile', 'profile').leftJoin('u.posts', 'posts').select('u.id, u.name, profile.bio, posts.title').where('u.active = true').getMany()";

    let node = SymbolNode {
        id: "test_qb_joins".to_string(),
        name: "usersWithProfiles".to_string(),
        kind: ScipSymbolKind::Variable,
        parent_id: None,
        documentation: None,
        signature: Some(qb_signature.to_string()),
        logic: None,
    };

    let result = SignatureExtractor::extract_signature(&node);
    assert!(result.is_some());

    let signature = result.unwrap();

    assert_eq!(signature, "usersWithProfiles: User[]");
    assert!(signature.len() < 100);
}

#[test]
fn test_query_builder_fallback_to_query_result() {
    let qb_signature = "const results = await someRepository.createQueryBuilder().select('field1').select('field2').where('condition = :value').getMany()";

    let node = SymbolNode {
        id: "test_qb_fallback".to_string(),
        name: "results".to_string(),
        kind: ScipSymbolKind::Variable,
        parent_id: None,
        documentation: None,
        signature: Some(qb_signature.to_string()),
        logic: None,
    };

    let result = SignatureExtractor::extract_signature(&node);
    assert!(result.is_some());

    let signature = result.unwrap();

    assert_eq!(signature, "results: QueryResult[]");
}

#[test]
fn test_non_query_builder_not_summarized() {
    let regular_signature =
        "async function fetchUserData(userId: string, includeProfile: boolean): Promise<UserData>";

    let node = SymbolNode {
        id: "test_regular".to_string(),
        name: "fetchUserData".to_string(),
        kind: ScipSymbolKind::Method,
        parent_id: None,
        documentation: None,
        signature: Some(regular_signature.to_string()),
        logic: None,
    };

    let result = SignatureExtractor::extract_signature(&node);
    assert!(result.is_some());

    let signature = result.unwrap();

    assert!(signature.contains("fetchUserData"));
    assert!(signature.contains("userId:str"));
    assert!(signature.contains("includeProfile:bool"));
}

#[test]
fn test_short_query_builder_not_summarized() {
    let short_qb = "createQueryBuilder('User').getMany()";

    let node = SymbolNode {
        id: "test_short_qb".to_string(),
        name: "users".to_string(),
        kind: ScipSymbolKind::Variable,
        parent_id: None,
        documentation: None,
        signature: Some(short_qb.to_string()),
        logic: None,
    };

    let result = SignatureExtractor::extract_signature(&node);
    assert!(result.is_some());

    let signature = result.unwrap();

    assert_eq!(signature, "createQueryBuilder()");
}

#[test]
fn test_query_builder_with_complex_entity_name() {
    let qb_signature = "const entities = await this.repository.createQueryBuilder('UserProfileEntity', 'upe').select('upe.id').where('upe.verified = true').getMany()";

    let node = SymbolNode {
        id: "test_complex_entity".to_string(),
        name: "entities".to_string(),
        kind: ScipSymbolKind::Variable,
        parent_id: None,
        documentation: None,
        signature: Some(qb_signature.to_string()),
        logic: None,
    };

    let result = SignatureExtractor::extract_signature(&node);
    assert!(result.is_some());

    let signature = result.unwrap();

    assert_eq!(signature, "entities: UserProfileEntity[]");
}
