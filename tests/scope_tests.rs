use logic_proof_trainer_lib::formula::Formula;
use logic_proof_trainer_lib::rules::technique::ProofTechnique;
use logic_proof_trainer_lib::scope::ScopeManager;

#[test]
fn test_open_scope() {
    let mut manager = ScopeManager::new();
    let id = manager.open_scope(
        1,
        Formula::parse("P").unwrap(),
        ProofTechnique::ConditionalProof,
    );
    assert_eq!(manager.current_depth(), 1);
    assert_eq!(manager.current_scope_id(), Some(id));
}

#[test]
fn test_close_scope() {
    let mut manager = ScopeManager::new();
    manager.open_scope(1, Formula::parse("P").unwrap(), ProofTechnique::ConditionalProof);
    manager.close_scope(3);
    assert_eq!(manager.current_depth(), 0);
    assert!(!manager.has_open_scopes());
}

#[test]
fn test_nested_scopes() {
    let mut manager = ScopeManager::new();
    let outer = manager.open_scope(1, Formula::parse("P").unwrap(), ProofTechnique::ConditionalProof);
    let inner = manager.open_scope(2, Formula::parse("Q").unwrap(), ProofTechnique::ConditionalProof);

    assert_eq!(manager.current_depth(), 2);
    assert_eq!(manager.current_scope_id(), Some(inner.clone()));

    manager.close_scope(4);
    assert_eq!(manager.current_depth(), 1);
    assert_eq!(manager.current_scope_id(), Some(outer));
}

#[test]
fn test_accessibility() {
    let mut manager = ScopeManager::new();
    manager.open_scope(2, Formula::parse("P").unwrap(), ProofTechnique::ConditionalProof);
    manager.close_scope(4);

    // Line 1 (before scope) is accessible from line 5
    assert!(manager.is_accessible(5, 1));

    // Line 3 (inside closed scope) is NOT accessible from line 5
    assert!(!manager.is_accessible(5, 3));
}
