use solana_balance_watcher::account::AccountId;
use solana_balance_watcher::program_accounts_balance::{
    ConfigError, FilterError, FilterPredicate, ProgramAccountsBalanceConfig,
};

const TOKEN_PROGRAM: &str = "TokenkegQfeZyiNwAJbNbGKPFXCWuBvf9Ss623VQ5DA";

#[test]
fn config_string_parses_to_watch_target() {
    let config = ProgramAccountsBalanceConfig::from_str(
        "treasury=TokenkegQfeZyiNwAJbNbGKPFXCWuBvf9Ss623VQ5DA size:165 b58:32:ABC123",
    )
    .unwrap();
    assert_eq!(config.name(), "treasury");
    assert_eq!(config.program(), AccountId::parse(TOKEN_PROGRAM).unwrap());
    assert_eq!(config.program().to_text(), TOKEN_PROGRAM);
    assert_eq!(
        config.filters(),
        &vec![
            FilterPredicate::ExactSize { size: 165 },
            FilterPredicate::ByteEquality {
                offset: 32,
                expected_bytes: bs58::decode("ABC123").into_vec().unwrap()
            },
        ]
    );
}

#[test]
fn config_without_filters_has_none() {
    let config =
        ProgramAccountsBalanceConfig::from_str("all=11111111111111111111111111111111").unwrap();
    assert_eq!(config.name(), "all");
    assert_eq!(config.program().to_bytes(), [0u8; 32]);
    assert!(config.filters().is_empty());
}

#[test]
fn config_keeps_the_order_of_filters() {
    let config = ProgramAccountsBalanceConfig::from_str(
        "t=11111111111111111111111111111111 b58:1:2 size:3 b58:4:5 size:6",
    )
    .unwrap();
    assert_eq!(
        config.filters(),
        &vec![
            FilterPredicate::ByteEquality { offset: 1, expected_bytes: vec![1] },
            FilterPredicate::ExactSize { size: 3 },
            FilterPredicate::ByteEquality { offset: 4, expected_bytes: vec![4] },
            FilterPredicate::ExactSize { size: 6 },
        ]
    );
}

#[test]
fn config_name_ends_at_the_first_separator() {
    let error = ProgramAccountsBalanceConfig::from_str(
        "a=b=TokenkegQfeZyiNwAJbNbGKPFXCWuBvf9Ss623VQ5DA",
    )
    .unwrap_err();
    assert_eq!(error, ConfigError::InvalidProgramId);
}

#[test]
fn config_without_separator_is_refused() {
    let error = ProgramAccountsBalanceConfig::from_str(
        "treasury TokenkegQfeZyiNwAJbNbGKPFXCWuBvf9Ss623VQ5DA size:165",
    )
    .unwrap_err();
    assert_eq!(error, ConfigError::MissingNameSeparator);
    assert_eq!(
        ProgramAccountsBalanceConfig::from_str("").unwrap_err(),
        ConfigError::MissingNameSeparator
    );
}

#[test]
fn config_without_name_is_refused() {
    let error = ProgramAccountsBalanceConfig::from_str(
        "=TokenkegQfeZyiNwAJbNbGKPFXCWuBvf9Ss623VQ5DA size:165",
    )
    .unwrap_err();
    assert_eq!(error, ConfigError::EmptyName);
    assert_eq!(ProgramAccountsBalanceConfig::from_str("=").unwrap_err(), ConfigError::EmptyName);
}

#[test]
fn config_without_params_misses_the_program() {
    assert_eq!(
        ProgramAccountsBalanceConfig::from_str("treasury=").unwrap_err(),
        ConfigError::MissingProgramId
    );
}

#[test]
fn config_with_bad_program_is_refused() {
    assert_eq!(
        ProgramAccountsBalanceConfig::from_str("treasury=ProgramXYZ size:165").unwrap_err(),
        ConfigError::InvalidProgramId
    );
    assert_eq!(
        ProgramAccountsBalanceConfig::from_str("treasury= size:165").unwrap_err(),
        ConfigError::InvalidProgramId
    );
    assert_eq!(
        ProgramAccountsBalanceConfig::from_str("treasury=size:165").unwrap_err(),
        ConfigError::InvalidProgramId
    );
}

#[test]
fn config_bad_program_counts_before_bad_filter() {
    assert_eq!(
        ProgramAccountsBalanceConfig::from_str("treasury=ProgramXYZ foo:1").unwrap_err(),
        ConfigError::InvalidProgramId
    );
}

#[test]
fn config_reports_the_first_bad_filter() {
    let first = ProgramAccountsBalanceConfig::from_str(
        "t=11111111111111111111111111111111 size:1 foo:2 size:x nocolon",
    )
    .unwrap_err();
    assert_eq!(first, ConfigError::Filter(FilterError::UnsupportedFilterKind));
    let second = ProgramAccountsBalanceConfig::from_str(
        "t=11111111111111111111111111111111 size:x foo:2",
    )
    .unwrap_err();
    assert_eq!(second, ConfigError::Filter(FilterError::ParseError));
    let third = ProgramAccountsBalanceConfig::from_str(
        "t=11111111111111111111111111111111 nocolon size:x",
    )
    .unwrap_err();
    assert_eq!(third, ConfigError::Filter(FilterError::MalformedParameter));
}

#[test]
fn config_empty_token_is_a_malformed_filter() {
    let doubled = ProgramAccountsBalanceConfig::from_str(
        "t=11111111111111111111111111111111  size:1",
    )
    .unwrap_err();
    assert_eq!(doubled, ConfigError::Filter(FilterError::MalformedParameter));
    let trailing =
        ProgramAccountsBalanceConfig::from_str("t=11111111111111111111111111111111 ").unwrap_err();
    assert_eq!(trailing, ConfigError::Filter(FilterError::MalformedParameter));
}

#[test]
fn config_from_parts_decides_by_what_was_read() {
    let program = AccountId::parse(TOKEN_PROGRAM);
    let built = ProgramAccountsBalanceConfig::from_parts(
        "t",
        program,
        Ok(vec![FilterPredicate::ExactSize { size: 1 }]),
    )
    .unwrap();
    assert_eq!(built.name(), "t");
    assert_eq!(built.program().to_text(), TOKEN_PROGRAM);
    assert_eq!(built.filters(), &vec![FilterPredicate::ExactSize { size: 1 }]);
    assert_eq!(
        ProgramAccountsBalanceConfig::from_parts("t", None, Ok(vec![])).unwrap_err(),
        ConfigError::InvalidProgramId
    );
    assert_eq!(
        ProgramAccountsBalanceConfig::from_parts("t", None, Err(FilterError::ParseError))
            .unwrap_err(),
        ConfigError::InvalidProgramId
    );
    assert_eq!(
        ProgramAccountsBalanceConfig::from_parts("t", program, Err(FilterError::ParseError))
            .unwrap_err(),
        ConfigError::Filter(FilterError::ParseError)
    );
}

#[test]
fn config_errors_have_messages() {
    assert_eq!(ConfigError::MissingProgramId.message(), "Program ID not found!");
    assert_eq!(
        ConfigError::Filter(FilterError::ParseError).message(),
        FilterError::ParseError.message()
    );
}
