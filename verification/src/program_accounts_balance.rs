//! Watching the accounts of a program: the filter language, the
//! configuration of one watch target, and the polling cycle that keeps the
//! target's total gauge.

use vstd::prelude::*;
use crate::account::{account_bytes_of, AccountId};
use crate::base58::{base58_decoded, base58_encoded, canonical_bytes, decode_canonical};
use crate::cycle::{DataEncoding, DataSlice, WatcherAction, WatcherState};
use crate::metrics::{
    remove_metric_total_balance_sol, total_labels, update_metric_total_balance_sol, MetricsStore,
};
use crate::sol::SolAmount;
use crate::text::{
    decimal_text, decimal_u64, head_of, is_digit, lemma_decimal_text_reads_back,
    lemma_not_decimal, lemma_split_join, lemma_split_on_len, lemma_split_unique, parse_u64,
    same_text, split_all, split_on, split_once, tail_of, views_of,
};

verus! {

/// One condition on the data of an account. The ledger applies all the
/// conditions of a target together.
#[derive(Debug, PartialEq, Eq)]
pub enum FilterPredicate {
    /// The data holds `expected_bytes` at `offset`.
    ByteEquality { offset: u64, expected_bytes: Vec<u8> },
    /// The data is `size` bytes long.
    ExactSize { size: u64 },
}

/// A filter predicate as a mathematical value.
pub enum FilterView {
    ByteEquality { offset: u64, expected_bytes: Seq<u8> },
    ExactSize { size: u64 },
}

impl View for FilterPredicate {
    type V = FilterView;

    open spec fn view(&self) -> FilterView {
        match self {
            FilterPredicate::ByteEquality { offset, expected_bytes } => FilterView::ByteEquality {
                offset: *offset,
                expected_bytes: expected_bytes@,
            },
            FilterPredicate::ExactSize { size } => FilterView::ExactSize { size: *size },
        }
    }
}

/// Why a filter token was refused.
#[derive(Clone, Copy, Debug, PartialEq, Eq, Structural)]
pub enum FilterError {
    /// The token has no `:` between kind and payload.
    MalformedParameter,
    /// The kind is neither `b58` nor `size`.
    UnsupportedFilterKind,
    /// The payload of a known kind could not be read.
    ParseError,
}

impl FilterError {
    /// What to tell the operator.
    pub open spec fn message_text(self) -> Seq<char> {
        match self {
            FilterError::MalformedParameter => "Malformed parameter, expected syntax: kind:value"@,
            FilterError::UnsupportedFilterKind => "Unsupported parameter type"@,
            FilterError::ParseError => "Failed to parse the value of the parameter"@,
        }
    }

    /// What to tell the operator.
    pub fn message(&self) -> (text: &'static str)
        ensures
            text@ == self.message_text(),
    {
        match self {
            FilterError::MalformedParameter => "Malformed parameter, expected syntax: kind:value",
            FilterError::UnsupportedFilterKind => "Unsupported parameter type",
            FilterError::ParseError => "Failed to parse the value of the parameter",
        }
    }
}

/// The kind of a byte-equality filter.
pub open spec fn byte_equality_kind() -> Seq<char> {
    seq!['b', '5', '8']
}

/// The kind of an exact-size filter.
pub open spec fn exact_size_kind() -> Seq<char> {
    seq!['s', 'i', 'z', 'e']
}

/// The filter that the payload of a `size` token stands for: the payload is
/// an unsigned decimal number.
pub open spec fn exact_size_of(payload: Seq<char>) -> Result<FilterView, FilterError> {
    match decimal_u64(payload) {
        Some(size) => Ok(FilterView::ExactSize { size }),
        None => Err(FilterError::ParseError),
    }
}

/// The filter that the payload of a `b58` token stands for: an unsigned
/// decimal offset, a `:`, and canonical base58 text for the expected bytes.
pub open spec fn byte_equality_of(payload: Seq<char>) -> Result<FilterView, FilterError> {
    if !payload.contains(':') {
        Err(FilterError::ParseError)
    } else {
        match (decimal_u64(head_of(payload, ':')), canonical_bytes(tail_of(payload, ':'))) {
            (Some(offset), Some(expected_bytes)) => Ok(
                FilterView::ByteEquality { offset, expected_bytes },
            ),
            _ => Err(FilterError::ParseError),
        }
    }
}

/// The filter that a token stands for. A token is a kind, a `:` and a
/// payload; the kind ends at the first `:`.
pub open spec fn filter_of(token: Seq<char>) -> Result<FilterView, FilterError> {
    if !token.contains(':') {
        Err(FilterError::MalformedParameter)
    } else if head_of(token, ':') == byte_equality_kind() {
        byte_equality_of(tail_of(token, ':'))
    } else if head_of(token, ':') == exact_size_kind() {
        exact_size_of(tail_of(token, ':'))
    } else {
        Err(FilterError::UnsupportedFilterKind)
    }
}

/// Whether a parsed filter is the one that `expected` describes.
pub open spec fn filter_result_is(
    result: Result<FilterPredicate, FilterError>,
    expected: Result<FilterView, FilterError>,
) -> bool {
    match result {
        Ok(filter) => expected == Ok::<FilterView, FilterError>(filter@),
        Err(error) => expected == Err::<FilterView, FilterError>(error),
    }
}

/// Makes a byte-equality filter of an offset and expected bytes that were
/// both read, and refuses with `ParseError` where either was not.
pub fn byte_equality_filter(offset: Option<u64>, expected_bytes: Option<Vec<u8>>) -> (result:
    Result<FilterPredicate, FilterError>)
    ensures
        match (offset, expected_bytes) {
            (Some(at), Some(bytes)) => result == Ok::<FilterPredicate, FilterError>(
                FilterPredicate::ByteEquality { offset: at, expected_bytes: bytes },
            ),
            _ => result == Err::<FilterPredicate, FilterError>(FilterError::ParseError),
        },
{
    match offset {
        Some(at) => match expected_bytes {
            Some(bytes) => Ok(FilterPredicate::ByteEquality { offset: at, expected_bytes: bytes }),
            None => Err(FilterError::ParseError),
        },
        None => Err(FilterError::ParseError),
    }
}

/// Reads the payload of a `b58` token, `<offset>:<base58>`.
pub fn parse_memcmp_base58_filter_type(param: &str) -> (result: Result<
    FilterPredicate,
    FilterError,
>)
    ensures
        filter_result_is(result, byte_equality_of(param@)),
{
    match split_once(param, ':') {
        Some((offset, bytes)) => byte_equality_filter(parse_u64(offset), decode_canonical(bytes)),
        None => Err(FilterError::ParseError),
    }
}

/// Reads the payload of a `size` token, a decimal number.
pub fn parse_data_size_filter_type(data_size: &str) -> (result: Result<
    FilterPredicate,
    FilterError,
>)
    ensures
        filter_result_is(result, exact_size_of(data_size@)),
{
    match parse_u64(data_size) {
        Some(size) => Ok(FilterPredicate::ExactSize { size }),
        None => Err(FilterError::ParseError),
    }
}

/// Reads one filter token, `<kind>:<payload>`.
pub fn parse_rpc_filter_type(param: &str) -> (result: Result<FilterPredicate, FilterError>)
    ensures
        filter_result_is(result, filter_of(param@)),
{
    match split_once(param, ':') {
        Some((key, value)) => {
            proof {
                reveal_strlit("b58");
                reveal_strlit("size");
                assert("b58"@ =~= byte_equality_kind());
                assert("size"@ =~= exact_size_kind());
            }
            if same_text(key, "b58") {
                parse_memcmp_base58_filter_type(value)
            } else if same_text(key, "size") {
                parse_data_size_filter_type(value)
            } else {
                Err(FilterError::UnsupportedFilterKind)
            }
        },
        None => Err(FilterError::MalformedParameter),
    }
}

/// A token made of the kind `size`, a `:` and a payload stands for what the
/// payload stands for: the size it writes, or `ParseError`.
pub proof fn lemma_exact_size_token(payload: Seq<char>)
    ensures
        filter_of(exact_size_kind() + seq![':'] + payload) == exact_size_of(payload),
{
    let kind = exact_size_kind();
    assert(!kind.contains(':')) by {
        if kind.contains(':') {
            let i = choose|i: int| 0 <= i < kind.len() && kind[i] == ':';
            assert(kind[i] != ':');
        }
    }
    lemma_split_unique(kind + seq![':'] + payload, ':', kind, payload);
    assert(kind != byte_equality_kind()) by {
        assert(kind.len() != byte_equality_kind().len());
    }
}

/// The token `size:<n>`, with `n` written in the usual way, stands for the
/// filter of exactly that size.
pub proof fn lemma_exact_size_of_number(size: u64)
    ensures
        filter_of(exact_size_kind() + seq![':'] + decimal_text(size as nat)) == Ok::<
            FilterView,
            FilterError,
        >(FilterView::ExactSize { size }),
{
    lemma_exact_size_token(decimal_text(size as nat));
    lemma_decimal_text_reads_back(size as nat);
}

/// The token `size:<payload>` is refused with `ParseError` where the payload
/// holds anything but digits behind an optional plus sign: a minus sign, a
/// letter, a space.
pub proof fn lemma_exact_size_refused(payload: Seq<char>, i: int)
    requires
        0 <= i < payload.len(),
        !is_digit(payload[i]),
        i > 0 || payload[0] != '+',
    ensures
        filter_of(exact_size_kind() + seq![':'] + payload) == Err::<FilterView, FilterError>(
            FilterError::ParseError,
        ),
{
    lemma_exact_size_token(payload);
    lemma_not_decimal(payload, i);
}

/// The token `b58:<offset>:<bytes>` stands for a byte-equality filter
/// wherever `<offset>` writes a number and `<bytes>` is canonical base58: the
/// filter has that number as its offset and the decoded bytes, and these
/// encode to `<bytes>` again.
pub proof fn lemma_byte_equality_token(offset_text: Seq<char>, bytes_text: Seq<char>)
    requires
        decimal_u64(offset_text) is Some,
        canonical_bytes(bytes_text) is Some,
    ensures
        filter_of(byte_equality_kind() + seq![':'] + offset_text + seq![':'] + bytes_text) == Ok::<
            FilterView,
            FilterError,
        >(
            FilterView::ByteEquality {
                offset: decimal_u64(offset_text)->0,
                expected_bytes: canonical_bytes(bytes_text)->0,
            },
        ),
        base58_encoded(canonical_bytes(bytes_text)->0) == bytes_text,
{
    let kind = byte_equality_kind();
    let payload = offset_text + seq![':'] + bytes_text;
    let token = kind + seq![':'] + offset_text + seq![':'] + bytes_text;
    assert(!kind.contains(':')) by {
        if kind.contains(':') {
            let i = choose|i: int| 0 <= i < kind.len() && kind[i] == ':';
            assert(kind[i] != ':');
        }
    }
    assert(!offset_text.contains(':')) by {
        if offset_text.contains(':') {
            let i = choose|i: int| 0 <= i < offset_text.len() && offset_text[i] == ':';
            if i > 0 || offset_text[0] != '+' {
                lemma_not_decimal(offset_text, i);
            }
        }
    }
    assert(token =~= kind + seq![':'] + payload);
    lemma_split_unique(token, ':', kind, payload);
    lemma_split_unique(payload, ':', offset_text, bytes_text);
}

/// A token that stands for a byte-equality filter is `b58:<offset>:<bytes>`,
/// where `<offset>` writes the filter's offset and `<bytes>` is the base58
/// text of the filter's bytes in both directions: it decodes to them, and
/// they encode to it.
pub proof fn lemma_byte_equality_round_trip(token: Seq<char>)
    requires
        filter_of(token) is Ok,
        filter_of(token)->Ok_0 is ByteEquality,
    ensures
        ({
            let payload = tail_of(token, ':');
            let offset_text = head_of(payload, ':');
            let bytes_text = tail_of(payload, ':');
            &&& token == byte_equality_kind() + seq![':'] + offset_text + seq![':'] + bytes_text
            &&& decimal_u64(offset_text) == Some(filter_of(token)->Ok_0->offset)
            &&& base58_decoded(bytes_text) == Some(filter_of(token)->Ok_0->expected_bytes)
            &&& base58_encoded(filter_of(token)->Ok_0->expected_bytes) == bytes_text
        }),
{
    let payload = tail_of(token, ':');
    lemma_split_join(token, ':');
    lemma_split_join(payload, ':');
    assert(token =~= byte_equality_kind() + seq![':'] + head_of(payload, ':') + seq![':']
        + tail_of(payload, ':'));
}

/// The filters in `filters`, each as a mathematical value.
pub open spec fn filter_views(filters: Seq<FilterPredicate>) -> Seq<FilterView> {
    Seq::new(filters.len(), |i: int| filters[i]@)
}

/// The filters that a list of tokens stands for, in the order of the tokens.
/// Where a token is refused, the error of the first such token.
pub open spec fn filters_of(tokens: Seq<Seq<char>>) -> Result<Seq<FilterView>, FilterError>
    decreases tokens.len(),
{
    if tokens.len() == 0 {
        Ok(Seq::empty())
    } else {
        match filters_of(tokens.drop_last()) {
            Err(error) => Err(error),
            Ok(filters) => match filter_of(tokens.last()) {
                Ok(filter) => Ok(filters.push(filter)),
                Err(error) => Err(error),
            },
        }
    }
}

/// An error among the first `k` tokens is the error of the whole list.
pub proof fn lemma_filters_first_error(tokens: Seq<Seq<char>>, k: int)
    requires
        0 <= k <= tokens.len(),
        filters_of(tokens.take(k)) is Err,
    ensures
        filters_of(tokens) == filters_of(tokens.take(k)),
    decreases tokens.len(),
{
    if k == tokens.len() {
        assert(tokens.take(k) == tokens);
    } else {
        assert(tokens.drop_last().take(k) == tokens.take(k));
        lemma_filters_first_error(tokens.drop_last(), k);
    }
}

/// Where every token stands for a filter, the list stands for those filters
/// in the same order; and only then does it stand for any.
pub proof fn lemma_filters_pointwise(tokens: Seq<Seq<char>>)
    ensures
        filters_of(tokens) is Ok <==> (forall|i: int|
            0 <= i < tokens.len() ==> filter_of(#[trigger] tokens[i]) is Ok),
        filters_of(tokens) matches Ok(filters) ==> filters.len() == tokens.len() && (forall|i: int|
            0 <= i < tokens.len() ==> filter_of(#[trigger] tokens[i]) == Ok::<
                FilterView,
                FilterError,
            >(filters[i])),
    decreases tokens.len(),
{
    if tokens.len() > 0 {
        let front = tokens.drop_last();
        lemma_filters_pointwise(front);
        assert(forall|i: int| 0 <= i < front.len() ==> front[i] == tokens[i]);
        assert(tokens.last() == tokens[tokens.len() - 1]);
        if filters_of(front) is Ok {
            if forall|i: int| 0 <= i < tokens.len() ==> filter_of(#[trigger] tokens[i]) is Ok {
                assert(filter_of(tokens[tokens.len() - 1]) is Ok);
            }
        } else {
            let i = choose|i: int| 0 <= i < front.len() && !(filter_of(#[trigger] front[i]) is Ok);
            assert(front[i] == tokens[i]);
        }
    }
}

/// Reads the filter tokens that stand at `from` and behind it.
fn parse_filters(tokens: &Vec<&str>, from: usize) -> (result: Result<
    Vec<FilterPredicate>,
    FilterError,
>)
    requires
        from <= tokens@.len(),
    ensures
        match result {
            Ok(filters) => filters_of(views_of(tokens@).skip(from as int)) == Ok::<
                Seq<FilterView>,
                FilterError,
            >(filter_views(filters@)),
            Err(error) => filters_of(views_of(tokens@).skip(from as int)) == Err::<
                Seq<FilterView>,
                FilterError,
            >(error),
        },
{
    let ghost texts = views_of(tokens@).skip(from as int);
    let n = tokens.len();
    let mut filters: Vec<FilterPredicate> = Vec::new();
    let mut i: usize = from;
    assert(texts.take(0) == Seq::<Seq<char>>::empty());
    assert(filter_views(filters@) == Seq::<FilterView>::empty());
    while i < n
        invariant
            n == tokens@.len(),
            texts == views_of(tokens@).skip(from as int),
            from <= i <= n,
            filters_of(texts.take(i - from)) == Ok::<Seq<FilterView>, FilterError>(
                filter_views(filters@),
            ),
        decreases n - i,
    {
        let ghost before = filter_views(filters@);
        proof {
            assert(texts.take(i - from + 1).drop_last() == texts.take(i - from));
            assert(texts.take(i - from + 1).last() == tokens@[i as int]@);
        }
        match parse_rpc_filter_type(tokens[i]) {
            Ok(filter) => {
                filters.push(filter);
                assert(filter_views(filters@) == before.push(filter@));
            },
            Err(error) => {
                proof {
                    lemma_filters_first_error(texts, i - from + 1);
                }
                return Err(error);
            },
        }
        i += 1;
    }
    assert(texts.take(n - from) == texts);
    Ok(filters)
}

/// Why a watch target could not be built from its configuration string.
#[derive(Clone, Copy, Debug, PartialEq, Eq, Structural)]
pub enum ConfigError {
    /// There is no `=` behind the name.
    MissingNameSeparator,
    /// Nothing stands before the `=`.
    EmptyName,
    /// Nothing stands behind the `=`.
    MissingProgramId,
    /// The first token behind the `=` names no account.
    InvalidProgramId,
    /// A filter token was refused.
    Filter(FilterError),
}

impl ConfigError {
    /// What to tell the operator.
    pub open spec fn message_text(self) -> Seq<char> {
        match self {
            ConfigError::MissingNameSeparator => "Cannot parse the configuration, expected syntax: name=params"@,
            ConfigError::EmptyName => "Name not found!"@,
            ConfigError::MissingProgramId => "Program ID not found!"@,
            ConfigError::InvalidProgramId => "Failed to parse program ID"@,
            ConfigError::Filter(error) => error.message_text(),
        }
    }

    /// What to tell the operator.
    pub fn message(&self) -> (text: &'static str)
        ensures
            text@ == self.message_text(),
    {
        match self {
            ConfigError::MissingNameSeparator => "Cannot parse the configuration, expected syntax: name=params",
            ConfigError::EmptyName => "Name not found!",
            ConfigError::MissingProgramId => "Program ID not found!",
            ConfigError::InvalidProgramId => "Failed to parse program ID",
            ConfigError::Filter(error) => error.message(),
        }
    }
}

/// A watch target as a mathematical value.
pub struct ConfigView {
    pub name: Seq<char>,
    pub program: Seq<u8>,
    pub filters: Seq<FilterView>,
}

/// One group of accounts to watch: the accounts of `program` that meet every
/// one of `filters`, shown under `name`.
#[derive(Debug)]
pub struct ProgramAccountsBalanceConfig {
    name: String,
    program: AccountId,
    filters: Vec<FilterPredicate>,
}

/// The watch target that a program, read or not, and a list of filters, read
/// or refused, make under `name`. A program that was not read counts before a
/// filter that was refused.
pub open spec fn config_from_parts(
    name: Seq<char>,
    program: Option<Seq<u8>>,
    filters: Result<Seq<FilterView>, FilterError>,
) -> Result<ConfigView, ConfigError> {
    match program {
        None => Err(ConfigError::InvalidProgramId),
        Some(program) => match filters {
            Err(error) => Err(ConfigError::Filter(error)),
            Ok(filters) => Ok(ConfigView { name, program, filters }),
        },
    }
}

/// The watch target that a configuration string stands for. The string is
/// `name=program filter filter ...`: the name ends at the first `=`, and what
/// follows is cut at every space.
pub open spec fn config_of(s: Seq<char>) -> Result<ConfigView, ConfigError> {
    if !s.contains('=') {
        Err(ConfigError::MissingNameSeparator)
    } else if head_of(s, '=').len() == 0 {
        Err(ConfigError::EmptyName)
    } else if tail_of(s, '=').len() == 0 {
        Err(ConfigError::MissingProgramId)
    } else {
        let tokens = split_on(tail_of(s, '='), ' ');
        config_from_parts(head_of(s, '='), account_bytes_of(tokens[0]), filters_of(tokens.skip(1)))
    }
}

/// Whether a parsed watch target is the one that `expected` describes.
pub open spec fn config_result_is(
    result: Result<ProgramAccountsBalanceConfig, ConfigError>,
    expected: Result<ConfigView, ConfigError>,
) -> bool {
    match result {
        Ok(config) => expected == Ok::<ConfigView, ConfigError>(config@),
        Err(error) => expected == Err::<ConfigView, ConfigError>(error),
    }
}

impl View for ProgramAccountsBalanceConfig {
    type V = ConfigView;

    closed spec fn view(&self) -> ConfigView {
        ConfigView {
            name: self.name@,
            program: self.program@,
            filters: filter_views(self.filters@),
        }
    }
}

impl ProgramAccountsBalanceConfig {
    /// The watch target of these parts.
    pub fn new(name: String, program: AccountId, filters: Vec<FilterPredicate>) -> (config:
        ProgramAccountsBalanceConfig)
        ensures
            config@ == (ConfigView {
                name: name@,
                program: program@,
                filters: filter_views(filters@),
            }),
    {
        ProgramAccountsBalanceConfig { name, program, filters }
    }

    /// The name under which the total is shown.
    pub fn name(&self) -> (name: &str)
        ensures
            name@ == self@.name,
    {
        self.name.as_str()
    }

    /// The program whose accounts are watched.
    pub fn program(&self) -> (program: AccountId)
        ensures
            program@ == self@.program,
    {
        self.program
    }

    /// The filters that an account has to meet, in the order they were given.
    pub fn filters(&self) -> (filters: &Vec<FilterPredicate>)
        ensures
            filter_views(filters@) == self@.filters,
    {
        &self.filters
    }

    /// Builds the watch target from a name and from what became of reading
    /// the program and the filters.
    pub fn from_parts(
        name: &str,
        program: Option<AccountId>,
        filters: Result<Vec<FilterPredicate>, FilterError>,
    ) -> (result: Result<ProgramAccountsBalanceConfig, ConfigError>)
        ensures
            match program {
                None => result == Err::<ProgramAccountsBalanceConfig, ConfigError>(
                    ConfigError::InvalidProgramId,
                ),
                Some(id) => match filters {
                    Err(error) => result == Err::<ProgramAccountsBalanceConfig, ConfigError>(
                        ConfigError::Filter(error),
                    ),
                    Ok(list) => result matches Ok(config) && config@ == (ConfigView {
                        name: name@,
                        program: id@,
                        filters: filter_views(list@),
                    }),
                },
            },
    {
        match program {
            None => Err(ConfigError::InvalidProgramId),
            Some(id) => match filters {
                Err(error) => Err(ConfigError::Filter(error)),
                Ok(list) => Ok(ProgramAccountsBalanceConfig::new(name.to_owned(), id, list)),
            },
        }
    }

    /// Reads a watch target from its configuration string,
    /// `name=program filter filter ...`.
    pub fn from_str(s: &str) -> (result: Result<ProgramAccountsBalanceConfig, ConfigError>)
        ensures
            config_result_is(result, config_of(s@)),
    {
        let (name, params) = match split_once(s, '=') {
            Some(parts) => parts,
            None => {
                return Err(ConfigError::MissingNameSeparator);
            },
        };
        if name.is_empty() {
            return Err(ConfigError::EmptyName);
        }
        if params.is_empty() {
            return Err(ConfigError::MissingProgramId);
        }
        let tokens = split_all(params, ' ');
        proof {
            lemma_split_on_len(params@, ' ');
        }
        let program = AccountId::parse(tokens[0]);
        let filters = parse_filters(&tokens, 1);
        ProgramAccountsBalanceConfig::from_parts(name, program, filters)
    }
}

/// The sum of the balances in `lamports`.
pub open spec fn sum_lamports(lamports: Seq<u64>) -> int
    decreases lamports.len(),
{
    if lamports.len() == 0 {
        0
    } else {
        sum_lamports(lamports.drop_last()) + lamports.last()
    }
}

/// The sum of the first `k` balances is at most the sum of all.
pub proof fn lemma_sum_lamports_prefix(lamports: Seq<u64>, k: int)
    requires
        0 <= k <= lamports.len(),
    ensures
        0 <= sum_lamports(lamports.take(k)) <= sum_lamports(lamports),
    decreases lamports.len(),
{
    if k == lamports.len() {
        assert(lamports.take(k) == lamports);
        if k > 0 {
            lemma_sum_lamports_prefix(lamports.drop_last(), k - 1);
            assert(lamports.drop_last().take(k - 1) == lamports.drop_last());
        }
    } else {
        assert(lamports.drop_last().take(k) == lamports.take(k));
        lemma_sum_lamports_prefix(lamports.drop_last(), k);
    }
}

/// What one poll found of a watch target: the balance of all its accounts
/// together, and how many there are.
#[derive(Clone, Copy, Debug, PartialEq, Eq, Structural)]
pub struct AggregateSample {
    pub total_lamports: u64,
    pub account_count: u64,
}

impl AggregateSample {
    /// Adds up the balances of the accounts that a poll returned, one entry
    /// for each account. `None` where the total does not fit in 64 bits.
    pub fn from_accounts(lamports: &Vec<u64>) -> (sample: Option<AggregateSample>)
        ensures
            sample is Some <==> sum_lamports(lamports@) <= u64::MAX,
            sample matches Some(found) ==> found.total_lamports == sum_lamports(lamports@)
                && found.account_count == lamports@.len(),
    {
        let n = lamports.len();
        let mut total: u64 = 0;
        let mut i: usize = 0;
        assert(lamports@.take(0) == Seq::<u64>::empty());
        while i < n
            invariant
                n == lamports@.len(),
                0 <= i <= n,
                total == sum_lamports(lamports@.take(i as int)),
            decreases n - i,
        {
            proof {
                assert(lamports@.take(i + 1).drop_last() == lamports@.take(i as int));
                lemma_sum_lamports_prefix(lamports@, i + 1);
            }
            total = match total.checked_add(lamports[i]) {
                Some(sum) => sum,
                None => {
                    return None;
                },
            };
            i += 1;
        }
        assert(lamports@.take(n as int) == lamports@);
        Some(AggregateSample { total_lamports: total, account_count: n as u64 })
    }
}

/// What a program-accounts watcher asks the ledger in one poll.
#[derive(Debug)]
pub struct ProgramAccountsRequest<'a> {
    /// The program whose accounts are asked for.
    pub program: AccountId,
    /// The conditions that the ledger applies, all together.
    pub filters: &'a Vec<FilterPredicate>,
    /// The part of each account's data to return.
    pub data_slice: DataSlice,
    /// How the data is to be written.
    pub encoding: DataEncoding,
}

/// The watcher of one watch target.
pub struct ProgramAccountsWatcher {
    /// What is watched. It never changes.
    pub config: ProgramAccountsBalanceConfig,
    /// Where the watcher stands in its cycle.
    pub state: WatcherState,
}

impl ProgramAccountsWatcher {
    /// A watcher of `config` whose first poll is due.
    pub fn new(config: ProgramAccountsBalanceConfig) -> (watcher: ProgramAccountsWatcher)
        ensures
            watcher.config == config,
            watcher.state == WatcherState::Polling,
    {
        ProgramAccountsWatcher { config, state: WatcherState::start() }
    }

    /// What the runner has to do next.
    pub fn next_action(&self) -> (action: WatcherAction)
        ensures
            action == self.state.action(),
    {
        self.state.next_action()
    }

    /// What to ask the ledger in a poll: the accounts of the target's program
    /// that meet the target's filters, in base64 and with none of their data.
    pub fn request(&self) -> (request: ProgramAccountsRequest<'_>)
        ensures
            request.program@ == self.config@.program,
            filter_views(request.filters@) == self.config@.filters,
            request.data_slice == DataSlice::empty(),
            request.encoding == DataEncoding::Base64,
    {
        ProgramAccountsRequest {
            program: self.config.program(),
            filters: self.config.filters(),
            data_slice: DataSlice::balance_only(),
            encoding: DataEncoding::Base64,
        }
    }

    /// Takes what a poll brought: the sample of the accounts it returned, or
    /// `None` where the ledger could not be asked.
    ///
    /// After a sample the target's total gauge shows the sample's total in
    /// SOL, and the long sleep is due. After a failure the target's total
    /// gauge is gone, and the short sleep is due. No other gauge changes.
    pub fn handle_response(&mut self, store: &mut MetricsStore, sample: Option<AggregateSample>)
        requires
            old(store).wf(),
        ensures
            final(store).wf(),
            final(self).config == old(self).config,
            final(self).state == WatcherState::after_poll(sample is Some),
            final(store).balance_sol@ == old(store).balance_sol@,
            final(store).total_balance_sol@ == (match sample {
                Some(found) => old(store).total_balance_sol@.insert(
                    total_labels(old(self).config@.name),
                    SolAmount::of_lamports(found.total_lamports),
                ),
                None => old(store).total_balance_sol@.remove(total_labels(old(self).config@.name)),
            }),
    {
        match sample {
            Some(found) => {
                let balance = SolAmount::from_lamports(found.total_lamports);
                update_metric_total_balance_sol(store, self.config.name(), balance);
                self.state = WatcherState::on_poll(true);
            },
            None => {
                remove_metric_total_balance_sol(store, self.config.name());
                self.state = WatcherState::on_poll(false);
            },
        }
    }

    /// Takes the end of a sleep: the next poll is due.
    pub fn wake(&mut self)
        ensures
            final(self).config == old(self).config,
            final(self).state == WatcherState::Polling,
    {
        self.state = self.state.on_wake();
    }
}

} // verus!
