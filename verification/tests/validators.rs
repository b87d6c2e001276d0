use aurora_chain::validator::ValidatorRegistry;

fn key(b: u8) -> Vec<u8> {
    vec![b; 32]
}

fn names(reg: &ValidatorRegistry, n: usize) -> Vec<String> {
    reg.top_validators(n).into_iter().map(|v| v.name).collect()
}

#[test]
fn ranking_by_votes() {
    let mut reg = ValidatorRegistry::new();
    assert!(reg.register("a".to_string(), key(1)));
    assert!(reg.register("b".to_string(), key(2)));
    assert!(reg.register("c".to_string(), key(3)));
    assert!(reg.vote("b"));
    assert!(reg.vote("b"));
    assert!(reg.vote("c"));
    assert_eq!(names(&reg, 2), vec!["b", "c"]);
    assert_eq!(names(&reg, 3), vec!["b", "c", "a"]);
    assert_eq!(names(&reg, 10), vec!["b", "c", "a"]);
    let top = reg.top_validators(2);
    assert_eq!(top[0].votes, 2);
    assert_eq!(top[0].public_key, key(2));
    assert_eq!(top[1].votes, 1);
}

#[test]
fn top_zero_is_empty() {
    let mut reg = ValidatorRegistry::new();
    assert!(reg.top_validators(0).is_empty());
    assert!(reg.top_validators(3).is_empty());
    reg.register("a".to_string(), key(1));
    assert!(reg.top_validators(0).is_empty());
}

#[test]
fn second_registration_is_refused() {
    let mut reg = ValidatorRegistry::new();
    assert!(reg.register("a".to_string(), key(1)));
    assert!(reg.vote("a"));
    assert!(!reg.register("a".to_string(), key(9)));
    assert_eq!(reg.validators.len(), 1);
    assert_eq!(reg.validators[0].name, "a");
    assert_eq!(reg.validators[0].votes, 1);
    assert_eq!(reg.validators[0].public_key, key(1));
}

#[test]
fn new_validator_has_no_votes() {
    let mut reg = ValidatorRegistry::new();
    assert!(reg.register("a".to_string(), key(1)));
    assert_eq!(reg.validators[0].votes, 0);
}

#[test]
fn vote_for_unknown_validator_is_refused() {
    let mut reg = ValidatorRegistry::new();
    assert!(!reg.vote("a"));
    reg.register("a".to_string(), key(1));
    assert!(!reg.vote("b"));
    assert_eq!(reg.validators[0].votes, 0);
    assert!(reg.vote("a"));
    assert_eq!(reg.validators[0].votes, 1);
}

#[test]
fn equal_votes_rank_in_registration_order() {
    let mut reg = ValidatorRegistry::new();
    for n in ["w", "x", "y", "z"] {
        assert!(reg.register(n.to_string(), key(0)));
    }
    assert_eq!(names(&reg, 4), vec!["w", "x", "y", "z"]);
    reg.vote("y");
    reg.vote("x");
    assert_eq!(names(&reg, 4), vec!["x", "y", "w", "z"]);
    reg.vote("z");
    reg.vote("z");
    assert_eq!(names(&reg, 3), vec!["z", "x", "y"]);
}

#[test]
fn ranking_is_a_snapshot() {
    let mut reg = ValidatorRegistry::new();
    reg.register("a".to_string(), key(1));
    let mut top = reg.top_validators(1);
    top[0].votes = 99;
    assert_eq!(reg.validators[0].votes, 0);
    assert_eq!(reg.top_validators(1)[0].votes, 0);
}

#[test]
fn only_the_top_ranked_may_produce() {
    let mut reg = ValidatorRegistry::new();
    for n in ["a", "b", "c", "d"] {
        reg.register(n.to_string(), key(0));
    }
    reg.vote("d");
    reg.vote("d");
    reg.vote("c");
    assert!(reg.is_top_validator("d", 3));
    assert!(reg.is_top_validator("c", 3));
    assert!(reg.is_top_validator("a", 3));
    assert!(!reg.is_top_validator("b", 3));
    assert!(!reg.is_top_validator("zed", 3));
    assert!(!reg.is_top_validator("d", 0));
    assert!(reg.is_top_validator("b", 4));
}
