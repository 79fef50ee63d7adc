use gitcash::Account;
use gitcash::Config;
use gitcash::Currency;
use gitcash::Error;
use gitcash::Ledger;
use gitcash::RepoConfig;
use gitcash::Transaction;
use gitcash::TransactionMeta;
use gitcash::add_user_transaction;
use gitcash::payment_transaction;
use gitcash::transaction::extract_transaction;

fn chf_config() -> RepoConfig {
    RepoConfig {
        name: "test ledger".to_string(),
        currency: Currency { code: "CHF".to_string(), divisor: 100 },
    }
}

fn tx(from: &str, to: &str, amount: i32) -> Transaction {
    Transaction {
        from: Account::parse(from).unwrap(),
        to: Account::parse(to).unwrap(),
        amount,
        description: None,
        meta: None,
    }
}

#[test]
fn test_from_str() {
    let repo_config_str = r#"name = "foo"
               [currency]
               code = "CHF"
               divisor = 100"#;
    println!("{}", repo_config_str);
    let repo_config = RepoConfig::from_str(repo_config_str).unwrap();
    assert_eq!(
        RepoConfig {
            name: "foo".to_owned(),
            currency: Currency {
                code: "CHF".to_owned(),
                divisor: 100
            }
        },
        repo_config
    );
}

#[test]
fn repo_config_rejects_zero_divisor() {
    let s = "name = \"foo\"\n[currency]\ncode = \"CHF\"\ndivisor = 0";
    assert!(matches!(RepoConfig::from_str(s), Err(Error::RepoError(_))));
}

#[test]
fn repo_config_rejects_missing_currency() {
    let s = "name = \"foo\"";
    assert!(matches!(RepoConfig::from_str(s), Err(Error::RepoError(_))));
}

#[test]
fn summary_of_payment() {
    let t = tx("source:cash", "user:alice", 1000);
    assert_eq!(
        t.summary(&chf_config()),
        "Transaction: Source cash pays 10.00 CHF to User alice"
    );
}

#[test]
fn summary_of_fractional_amount() {
    let t = tx("user:alice", "pos:shop1", 333);
    assert_eq!(
        t.summary(&chf_config()),
        "Transaction: User alice pays 3.33 CHF to PointOfSale shop1"
    );
}

#[test]
fn summary_of_negative_amount() {
    let t = tx("user:alice", "pos:shop1", -5);
    assert_eq!(
        t.summary(&chf_config()),
        "Transaction: User alice pays -0.05 CHF to PointOfSale shop1"
    );
}

#[test]
fn summary_of_user_creation() {
    let t = tx("source:cash", "user:bob", 0);
    assert_eq!(t.summary(&chf_config()), "Transaction: Add user bob");
}

#[test]
fn commit_message_layout() {
    let t = tx("source:cash", "user:alice", 1000);
    let msg = t.commit_message(&chf_config());
    assert_eq!(
        msg,
        "Transaction: Source cash pays 10.00 CHF to User alice\n\n---\nfrom = \"source:cash\"\nto = \"user:alice\"\namount = 1000\n---"
    );
}

#[test]
fn transaction_round_trip_plain() {
    let t = tx("source:cash", "user:alice", 1000);
    let msg = t.commit_message(&chf_config());
    let back = extract_transaction(&msg).unwrap();
    assert_eq!(back, t);
}

#[test]
fn transaction_round_trip_with_description_and_meta() {
    let t = Transaction {
        from: Account::parse("user:alice").unwrap(),
        to: Account::parse("pos:shop1").unwrap(),
        amount: -250,
        description: Some("with \"quotes\", back\\slashes\nand\tnewlines".to_string()),
        meta: Some(TransactionMeta {
            class: Some("snacks".to_string()),
            ean: Some(7610700600700),
        }),
    };
    let msg = t.commit_message(&chf_config());
    let back = extract_transaction(&msg).unwrap();
    assert_eq!(back, t);
}

#[test]
fn transaction_round_trip_with_empty_meta() {
    let t = Transaction {
        from: Account::parse("user:alice").unwrap(),
        to: Account::parse("pos:shop1").unwrap(),
        amount: i32::MAX,
        description: None,
        meta: Some(TransactionMeta { class: None, ean: Some(u64::MAX) }),
    };
    let msg = t.commit_message(&chf_config());
    let back = extract_transaction(&msg).unwrap();
    assert_eq!(back, t);
}

#[test]
fn extract_from_handwritten_message() {
    let msg = "Transaction: something\n\n---\nfrom = \"user:alice\"\nto = \"pos:shop1\"\namount = 300\ndescription = \"coffee\"\n---\n";
    let t = extract_transaction(msg).unwrap();
    assert_eq!(t, Transaction {
        from: Account::parse("user:alice").unwrap(),
        to: Account::parse("pos:shop1").unwrap(),
        amount: 300,
        description: Some("coffee".to_string()),
        meta: None,
    });
}

#[test]
fn extract_rejects_missing_required_key() {
    let msg = "Transaction: x\n\n---\nfrom = \"user:alice\"\namount = 300\n---";
    assert!(matches!(
        extract_transaction(msg),
        Err(Error::TransactionParseError(_))
    ));
}

#[test]
fn extract_rejects_invalid_account() {
    let msg = "Transaction: x\n\n---\nfrom = \"nobody:alice\"\nto = \"pos:shop1\"\namount = 300\n---";
    assert!(matches!(
        extract_transaction(msg),
        Err(Error::TransactionParseError(_))
    ));
}

#[test]
fn extract_rejects_out_of_range_numbers() {
    let msg = "Transaction: x\n\n---\nfrom = \"user:alice\"\nto = \"pos:shop1\"\namount = 3000000000\n---";
    assert!(matches!(
        extract_transaction(msg),
        Err(Error::TransactionParseError(_))
    ));
    let msg = "Transaction: x\n\n---\nfrom = \"user:alice\"\nto = \"pos:shop1\"\namount = 1\n[meta]\nean = 99999999999999999999999\n---";
    assert!(matches!(
        extract_transaction(msg),
        Err(Error::TransactionParseError(_))
    ));
}

#[test]
fn extract_without_fences_fails() {
    let msg = "Transaction: nothing embedded";
    assert!(matches!(
        extract_transaction(msg),
        Err(Error::TransactionParseError(_))
    ));
}

fn seeded_messages() -> Vec<Option<String>> {
    let cfg = chf_config();
    vec![
        Some(tx("source:cash", "user:alice", 1000).commit_message(&cfg)),
        Some(tx("source:cash", "user:bob", 500).commit_message(&cfg)),
        Some(tx("user:alice", "pos:shop1", 300).commit_message(&cfg)),
    ]
}

#[test]
fn seeded_ledger_balances() {
    let ledger = Ledger::from_messages(chf_config(), seeded_messages()).unwrap();
    let balances = ledger.balances();
    assert_eq!(balances.len(), 4);
    assert_eq!(balances[0], (Account::parse("source:cash").unwrap(), -1500));
    assert_eq!(balances[1], (Account::parse("user:alice").unwrap(), 700));
    assert_eq!(balances[2], (Account::parse("user:bob").unwrap(), 500));
    assert_eq!(balances[3], (Account::parse("pos:shop1").unwrap(), 300));
}

#[test]
fn balances_always_sum_to_zero() {
    let ledger = Ledger::from_messages(chf_config(), seeded_messages()).unwrap();
    let total: i64 = ledger.balances().iter().map(|(_, b)| *b as i64).sum();
    assert_eq!(total, 0);
}

#[test]
fn seeded_ledger_accounts() {
    let ledger = Ledger::from_messages(chf_config(), seeded_messages()).unwrap();
    let accounts = ledger.accounts();
    assert_eq!(accounts.len(), 4);
    assert_eq!(accounts[0], Account::parse("source:cash").unwrap());
    assert_eq!(accounts[1], Account::parse("user:alice").unwrap());
    assert_eq!(accounts[2], Account::parse("user:bob").unwrap());
    assert_eq!(accounts[3], Account::parse("pos:shop1").unwrap());
}

#[test]
fn non_ledger_commits_contribute_nothing() {
    let mut messages = seeded_messages();
    messages.insert(0, Some("Initial commit".to_string()));
    messages.insert(2, None);
    messages.push(Some("Merge branch 'main'".to_string()));
    let plain = Ledger::from_messages(chf_config(), seeded_messages()).unwrap();
    let noisy = Ledger::from_messages(chf_config(), messages).unwrap();
    assert_eq!(noisy.balances(), plain.balances());
    assert_eq!(noisy.accounts(), plain.accounts());
}

#[test]
fn corrupt_ledger_commit_aborts_the_load() {
    let mut messages = seeded_messages();
    messages.push(Some(
        "Transaction: bad\n\n---\nfrom = \"user:alice\"\nto = \"pos\"\namount = 1\n---".to_string(),
    ));
    assert!(matches!(
        Ledger::from_messages(chf_config(), messages),
        Err(Error::TransactionParseError(_))
    ));
}

#[test]
fn append_scenario_updates_balances() {
    let ledger = Ledger::from_messages(chf_config(), seeded_messages()).unwrap();
    let new_tx = tx("user:bob", "pos:shop1", 200);
    let msg = ledger.commit_message_for(&new_tx);
    let mut messages = seeded_messages();
    messages.push(Some(msg));
    let reopened = Ledger::from_messages(chf_config(), messages).unwrap();
    let balances = reopened.balances();
    assert_eq!(balances[2], (Account::parse("user:bob").unwrap(), 300));
    assert_eq!(balances[3], (Account::parse("pos:shop1").unwrap(), 500));
}

#[test]
fn overflowing_fold_is_detected() {
    let cfg = chf_config();
    let messages = vec![
        Some(tx("source:cash", "user:alice", i32::MAX).commit_message(&cfg)),
        Some(tx("source:cash", "user:alice", i32::MAX).commit_message(&cfg)),
    ];
    let ledger = Ledger::from_messages(chf_config(), messages).unwrap();
    assert!(ledger.try_balances().is_none());
}

#[test]
fn transactions_are_materialized_in_order() {
    let ledger = Ledger::from_messages(chf_config(), seeded_messages()).unwrap();
    let txs = ledger.transactions();
    assert_eq!(txs.len(), 3);
    assert_eq!(txs[0].amount, 1000);
    assert_eq!(txs[1].amount, 500);
    assert_eq!(txs[2].amount, 300);
    assert_eq!(ledger.config().currency.code, "CHF");
}

#[test]
fn add_user_transaction_shape() {
    let t = add_user_transaction("carol").unwrap();
    assert_eq!(t.from, Account::parse("source:cash").unwrap());
    assert_eq!(t.to, Account::parse("user:carol").unwrap());
    assert_eq!(t.amount, 0);
    assert_eq!(t.description, Some("Create user carol".to_string()));
    assert!(t.meta.is_none());
    assert!(matches!(
        add_user_transaction("bad name"),
        Err(Error::ValidationError(_))
    ));
}

#[test]
fn payment_transaction_shape() {
    let till = Account::parse("pos:till1").unwrap();
    let t = payment_transaction("alice", &till, 250).unwrap();
    assert_eq!(t.from, Account::parse("user:alice").unwrap());
    assert_eq!(t.to, till);
    assert_eq!(t.amount, 250);
    assert!(t.description.is_none());
    assert!(matches!(
        payment_transaction("", &till, 250),
        Err(Error::ValidationError(_))
    ));
}

#[test]
fn cli_config_parses_and_checks_account_type() {
    let s = "repo_path = \"/tmp/ledger\"\naccount = \"pos:kasse1\"\ngit_name = \"Till\"\ngit_email = \"till@example.com\"";
    let c = Config::from_toml_str(s).unwrap();
    assert_eq!(c.repo_path, "/tmp/ledger");
    assert_eq!(c.account, Account::parse("pos:kasse1").unwrap());
    assert_eq!(c.git_name, "Till");
    assert_eq!(c.git_email, "till@example.com");

    let s = "repo_path = \"/tmp/ledger\"\naccount = \"user:bob\"\ngit_name = \"T\"\ngit_email = \"t@e.com\"";
    assert!(matches!(
        Config::from_toml_str(s),
        Err(Error::ValidationError(_))
    ));

    let s = "repo_path = \"/tmp/ledger\"\naccount = \"pos:kasse1\"";
    assert!(matches!(Config::from_toml_str(s), Err(Error::RepoError(_))));
}

#[test]
fn extract_accepts_crlf_line_endings() {
    let msg = "Transaction: x\r\n\r\n---\r\nfrom = \"user:alice\"\r\nto = \"pos:shop1\"\r\namount = 42\r\n---\r\n";
    let t = extract_transaction(msg).unwrap();
    assert_eq!(t.amount, 42);
    assert_eq!(t.from, Account::parse("user:alice").unwrap());
}

#[test]
fn extract_unescapes_quoted_values() {
    let msg = "Transaction: x\n\n---\nfrom = \"user:alice\"\nto = \"pos:shop1\"\namount = 1\ndescription = \"a \\\"b\\\" \\\\ c\\nd\"\n---";
    let t = extract_transaction(msg).unwrap();
    assert_eq!(t.description, Some("a \"b\" \\ c\nd".to_string()));
}

#[test]
fn extract_ignores_unknown_keys_and_blank_lines() {
    let msg = "Transaction: x\n\n---\nfrom = \"user:alice\"\n\nnote = \"whatever\"\nto = \"pos:shop1\"\n\namount = 7\n---";
    let t = extract_transaction(msg).unwrap();
    assert_eq!(t.amount, 7);
    assert!(t.meta.is_none());
}

#[test]
fn extract_rejects_leading_zero_amounts() {
    let msg = "Transaction: x\n\n---\nfrom = \"user:alice\"\nto = \"pos:shop1\"\namount = 007\n---";
    assert!(matches!(
        extract_transaction(msg),
        Err(Error::TransactionParseError(_))
    ));
}

#[test]
fn extract_rejects_duplicate_keys() {
    let msg = "Transaction: x\n\n---\nfrom = \"user:alice\"\nfrom = \"user:bob\"\nto = \"pos:shop1\"\namount = 1\n---";
    assert!(matches!(
        extract_transaction(msg),
        Err(Error::TransactionParseError(_))
    ));
}

#[test]
fn ledger_messages_start_with_the_marker() {
    let cfg = chf_config();
    let msg = tx("user:alice", "pos:shop1", 100).commit_message(&cfg);
    assert!(msg.starts_with("Transaction: "));
    let msg = tx("source:cash", "user:carol", 0).commit_message(&cfg);
    assert!(msg.starts_with("Transaction: "));
}
