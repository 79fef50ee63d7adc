use gitcash::Account;
use gitcash::AccountType;
use gitcash::CliCommand;
use gitcash::CommandSuggester;
use gitcash::Error;
use gitcash::NewUsernameValidator;
use gitcash::UsernameValidator;
use gitcash::Validation;
use gitcash::validate_account_name;

#[test]
fn user_name_with_space_is_rejected() {
    let r = Account::user("al ice");
    assert!(matches!(r, Err(Error::ValidationError(_))));
}

#[test]
fn empty_user_name_is_rejected() {
    let r = Account::user("");
    assert!(matches!(r, Err(Error::ValidationError(_))));
}

#[test]
fn alphanumeric_user_name_is_accepted() {
    let a = Account::user("alice1").unwrap();
    assert_eq!(a.account_type, AccountType::User);
    assert_eq!(a.name, "alice1");
}

#[test]
fn validate_account_name_rejects_punctuation() {
    assert!(validate_account_name("with:colon").is_err());
    assert!(validate_account_name("with space").is_err());
    assert!(validate_account_name("").is_err());
    assert!(validate_account_name("plain123").is_ok());
}

#[test]
fn parse_user_alice() {
    let a = Account::parse("user:alice").unwrap();
    assert_eq!(a.account_type, AccountType::User);
    assert_eq!(a.name, "alice");
}

#[test]
fn parse_empty_name_fails() {
    let r = Account::parse("pos:");
    assert!(matches!(r, Err(Error::ValidationError(_))));
}

#[test]
fn parse_unknown_tag_fails() {
    let r = Account::parse("foo:alice");
    assert!(matches!(r, Err(Error::TransactionParseError(_))));
}

#[test]
fn parse_without_colon_fails() {
    let r = Account::parse("alice");
    assert!(matches!(r, Err(Error::TransactionParseError(_))));
}

#[test]
fn parse_extra_colon_fails() {
    // The name after the first colon must itself be valid, so a second colon
    // is rejected rather than truncated away.
    let r = Account::parse("user:ali:ce");
    assert!(matches!(r, Err(Error::ValidationError(_))));
}

#[test]
fn encode_round_trips_parse() {
    for s in ["user:alice", "pos:shop1", "source:cash"] {
        let a = Account::parse(s).unwrap();
        assert_eq!(a.encode(), s);
    }
}

#[test]
fn encode_of_constructed_account() {
    assert_eq!(Account::point_of_sale("till3").unwrap().encode(), "pos:till3");
    assert_eq!(Account::source("cash").unwrap().encode(), "source:cash");
}

#[test]
fn error_messages_carry_their_prefix() {
    let e = Error::ValidationError("boom".to_string());
    assert_eq!(e.message(), "Validation error: boom");
    let e = Error::RepoError("gone".to_string());
    assert_eq!(e.message(), "Repo error: gone");
    let e = Error::TransactionParseError("bad".to_string());
    assert_eq!(e.message(), "Could not parse transaction: bad");
    let e = Error::TransactionSerializeError("bad".to_string());
    assert_eq!(e.message(), "Could not serialize transaction: bad");
}

#[test]
fn command_words_and_descriptions() {
    assert_eq!(CliCommand::AddUser.command(), "adduser");
    assert_eq!(CliCommand::Help.command(), "help");
    assert_eq!(CliCommand::AddUser.description(), "Add a new user");
    assert_eq!(CliCommand::Help.description(), "Show this help");
}

#[test]
fn command_lookup_is_case_insensitive() {
    assert_eq!(CliCommand::from_input("adduser"), Some(CliCommand::AddUser));
    assert_eq!(CliCommand::from_input("AddUser"), Some(CliCommand::AddUser));
    assert_eq!(CliCommand::from_input("HELP"), Some(CliCommand::Help));
    assert_eq!(CliCommand::from_input("quit"), None);
}

#[test]
fn suggestions_match_substrings_case_insensitively() {
    let s = CommandSuggester::new(&[CliCommand::AddUser, CliCommand::Help]);
    assert_eq!(s.get_suggestions("add"), vec!["adduser".to_string()]);
    assert_eq!(s.get_suggestions("USE"), vec!["adduser".to_string()]);
    assert_eq!(s.get_suggestions("el"), vec!["help".to_string()]);
    assert_eq!(s.get_suggestions("x"), Vec::<String>::new());
}

#[test]
fn suggestions_for_empty_input_are_empty() {
    let s = CommandSuggester::new(&[CliCommand::AddUser, CliCommand::Help]);
    assert_eq!(s.get_suggestions(""), Vec::<String>::new());
}

#[test]
fn username_validator_accepts_known_names() {
    let v = UsernameValidator::new(vec!["alice".to_string(), "bob".to_string()]);
    assert!(matches!(v.validate("alice"), Validation::Valid));
    assert!(matches!(v.validate("bob"), Validation::Valid));
    match v.validate("mallory") {
        Validation::Invalid(m) => assert_eq!(m, "Not a known username: mallory"),
        Validation::Valid => panic!("unknown name accepted"),
    }
}

#[test]
fn new_username_validator_checks_shape_and_uniqueness() {
    let v = NewUsernameValidator::new(vec!["alice".to_string()]);
    match v.validate("   ") {
        Validation::Invalid(m) => assert_eq!(m, "Username may not be empty"),
        Validation::Valid => panic!("blank accepted"),
    }
    assert!(matches!(v.validate("al ice"), Validation::Invalid(_)));
    assert!(matches!(v.validate("a:b"), Validation::Invalid(_)));
    assert!(matches!(v.validate("alice"), Validation::Invalid(_)));
    assert!(matches!(v.validate("carol"), Validation::Valid));
    assert!(matches!(v.validate("  carol  "), Validation::Valid));
}
