//! The vocabulary of the engine: venues, accounts, orders, fills, positions, instruments.

use std::hash::BuildHasher;
use vstd::prelude::*;
use vstd::string::StringExecFns;
use crate::amount;
use crate::amount::{minus, round, round_down, times, QUANTITY_EPSILON};
use crate::table::{Key, Table};
use crate::text;
use crate::text::{hex_text, joined, starts_with};

verus! {

/// An instrument's name.
pub type Symbol = String;

/// Milliseconds since the epoch.
pub type Timestamp = u64;

/// Coins, in units of 10^-16. A position's sign is its direction.
pub type Quantity = i128;

/// What one coin costs, in units of 10^-8.
pub type Price = i128;

/// What a quantity at a price is worth, in units of 10^-24.
pub type Money = i128;

/// A number of lots, or coins per lot, in units of 10^-8.
pub type Lots = i128;

/// A venue.
#[derive(Clone, Copy, Debug, PartialEq, Eq, Hash, Structural)]
pub enum Exchange {
    Binance,
    OKX,
    Hyperliquid,
    IBKR,
}

/// The venue's name.
pub open spec fn exchange_name(exchange: Exchange) -> Seq<char> {
    match exchange {
        Exchange::Binance => "Binance"@,
        Exchange::OKX => "OKX"@,
        Exchange::Hyperliquid => "Hyperliquid"@,
        Exchange::IBKR => "IBKR"@,
    }
}

/// How the client order ids that this engine gives out on a venue begin.
pub open spec fn cli_order_prefix(exchange: Exchange) -> Seq<char> {
    match exchange {
        Exchange::Hyperliquid => "0x686674"@,
        _ => "hft"@,
    }
}

/// Digits of a client order id that come from one random number.
pub const CLI_ORDER_DIGITS: u32 = 13;

/// `RandomState::new` makes keys at random. Nothing is promised of them.
pub assume_specification[ std::collections::hash_map::RandomState::new ]() -> (keys: std::collections::hash_map::RandomState);

/// Calls `std::hash::BuildHasher::hash_one`: a number that depends on keys that are random.
/// Nothing is promised of it.
#[verifier::external_body]
fn hash_of_zero(keys: &std::collections::hash_map::RandomState) -> (n: u64) {
    keys.hash_one(0u64)
}

/// A fresh random number.
fn random_number() -> (n: u64) {
    let keys = std::collections::hash_map::RandomState::new();
    hash_of_zero(&keys)
}

impl Exchange {
    /// The venue's name.
    pub fn name(&self) -> (s: &'static str)
        ensures
            s@ == exchange_name(*self),
    {
        match self {
            Exchange::Binance => "Binance",
            Exchange::OKX => "OKX",
            Exchange::Hyperliquid => "Hyperliquid",
            Exchange::IBKR => "IBKR",
        }
    }

    /// The client order id that two random numbers give on this venue.
    pub fn cli_order_id(&self, a: u64, b: u64) -> (id: String)
        ensures
            id@ == cli_order_prefix(*self) + text::hex(a as nat, CLI_ORDER_DIGITS as nat) + text::hex(
                b as nat,
                CLI_ORDER_DIGITS as nat,
            ),
    {
        let prefix = match self {
            Exchange::Hyperliquid => "0x686674",
            _ => "hft",
        };
        let mut id = joined(prefix, hex_text(a, CLI_ORDER_DIGITS).as_str());
        id.append(hex_text(b, CLI_ORDER_DIGITS).as_str());
        id
    }

    /// A random client order id of this engine's on this venue.
    pub fn new_cli_order_id(&self) -> (id: String)
        ensures
            exists|a: u64, b: u64|
                id@ == cli_order_prefix(*self) + #[trigger] text::hex(a as nat, CLI_ORDER_DIGITS as nat)
                    + #[trigger] text::hex(b as nat, CLI_ORDER_DIGITS as nat),
            owns_id(*self, id@),
    {
        let a = random_number();
        let b = random_number();
        proof {
            own_ids_are_recognised(*self, a, b);
        }
        self.cli_order_id(a, b)
    }

    /// Whether a client order id was given out by this engine.
    pub fn owns_cli_order_id(&self, id: &str) -> (b: bool)
        ensures
            b == owns_id(*self, id@),
    {
        match self {
            Exchange::Hyperliquid => starts_with(id, "0x686674"),
            _ => starts_with(id, "hft"),
        }
    }
}

/// A client order id is this engine's when it begins as this engine's ids on the venue do.
pub open spec fn owns_id(exchange: Exchange, id: Seq<char>) -> bool {
    text::has_prefix(id, cli_order_prefix(exchange))
}

/// Every id that the engine gives out on a venue is recognised there as its own.
pub proof fn own_ids_are_recognised(exchange: Exchange, a: u64, b: u64)
    ensures
        owns_id(
            exchange,
            cli_order_prefix(exchange) + text::hex(a as nat, CLI_ORDER_DIGITS as nat) + text::hex(
                b as nat,
                CLI_ORDER_DIGITS as nat,
            ),
        ),
{
    let p = cli_order_prefix(exchange);
    let id = p + text::hex(a as nat, CLI_ORDER_DIGITS as nat) + text::hex(b as nat, CLI_ORDER_DIGITS as nat);
    assert(id.take(p.len() as int) =~= p);
}

impl Key for Exchange {
    type Id = Exchange;

    open spec fn id(&self) -> Exchange {
        *self
    }

    fn same(&self, other: &Self) -> (b: bool) {
        *self == *other
    }

    fn copy(&self) -> (k: Self) {
        *self
    }
}

/// A leg is one instrument on one venue.
impl Key for (Exchange, Symbol) {
    type Id = (Exchange, Seq<char>);

    open spec fn id(&self) -> (Exchange, Seq<char>) {
        (self.0, self.1@)
    }

    fn same(&self, other: &Self) -> (b: bool) {
        self.0 == other.0 && self.1 == other.1
    }

    fn copy(&self) -> (k: Self) {
        (self.0, self.1.clone())
    }
}

/// Whose money an order moves.
#[derive(Debug, PartialEq, Eq)]
pub enum AccountId {
    /// The real account.
    Live,
    /// A simulated account, by its label.
    Paper(String),
}

/// What identifies an account.
pub enum AccountKey {
    Live,
    Paper(Seq<char>),
}

impl View for AccountId {
    type V = AccountKey;

    open spec fn view(&self) -> AccountKey {
        match self {
            AccountId::Live => AccountKey::Live,
            AccountId::Paper(label) => AccountKey::Paper(label@),
        }
    }
}

impl Clone for AccountId {
    fn clone(&self) -> (r: Self)
        ensures
            r == *self,
    {
        match self {
            AccountId::Live => AccountId::Live,
            AccountId::Paper(label) => AccountId::Paper(label.clone()),
        }
    }
}

impl AccountId {
    /// Whether the account is simulated.
    pub fn is_paper(&self) -> (b: bool)
        ensures
            b == (*self is Paper),
    {
        match self {
            AccountId::Live => false,
            AccountId::Paper(_) => true,
        }
    }

    /// Whether the account is the real one.
    pub fn is_live(&self) -> (b: bool)
        ensures
            b == (*self is Live),
    {
        !self.is_paper()
    }

    /// The account as text: `live`, or `paper:` and the label.
    pub fn name(&self) -> (s: String)
        ensures
            s@ == account_name(self@),
    {
        match self {
            AccountId::Live => "live".to_owned(),
            AccountId::Paper(label) => joined("paper:", label.as_str()),
        }
    }
}

/// The account as text.
pub open spec fn account_name(account: AccountKey) -> Seq<char> {
    match account {
        AccountKey::Live => "live"@,
        AccountKey::Paper(label) => "paper:"@ + label,
    }
}

impl Key for AccountId {
    type Id = AccountKey;

    open spec fn id(&self) -> AccountKey {
        self@
    }

    fn same(&self, other: &Self) -> (b: bool) {
        match (self, other) {
            (AccountId::Live, AccountId::Live) => true,
            (AccountId::Paper(a), AccountId::Paper(b)) => *a == *b,
            _ => false,
        }
    }

    fn copy(&self) -> (k: Self) {
        self.clone()
    }
}

/// An account on a venue.
impl Key for (AccountId, Exchange) {
    type Id = (AccountKey, Exchange);

    open spec fn id(&self) -> (AccountKey, Exchange) {
        (self.0@, self.1)
    }

    fn same(&self, other: &Self) -> (b: bool) {
        self.0.same(&other.0) && self.1 == other.1
    }

    fn copy(&self) -> (k: Self) {
        (self.0.clone(), self.1)
    }
}

/// The direction of an order or a fill.
#[derive(Clone, Copy, Debug, PartialEq, Eq, Structural)]
pub enum Side {
    Long,
    Short,
}

/// How long a limit order waits.
#[derive(Clone, Copy, Debug, PartialEq, Eq, Structural)]
pub enum TimeInForce {
    GTC,
    IOC,
    PostOnly,
}

/// At what price an order may trade.
#[derive(Clone, Copy, Debug, PartialEq, Eq, Structural)]
pub enum OrderType {
    Market,
    Limit { price: Price, tif: TimeInForce },
}

/// What a strategy asks for. The quantity is in coins.
#[derive(Debug)]
pub struct Order {
    pub id: String,
    pub exchange: Exchange,
    pub symbol: Symbol,
    pub side: Side,
    pub order_type: OrderType,
    pub quantity: Quantity,
    pub reduce_only: bool,
    pub client_order_id: String,
}

impl Clone for Order {
    fn clone(&self) -> (r: Self)
        ensures
            r == *self,
    {
        Order {
            id: self.id.clone(),
            exchange: self.exchange,
            symbol: self.symbol.clone(),
            side: self.side,
            order_type: self.order_type,
            quantity: self.quantity,
            reduce_only: self.reduce_only,
            client_order_id: self.client_order_id.clone(),
        }
    }
}

/// What has become of an order.
#[derive(Debug, PartialEq, Eq)]
pub enum OrderStatus {
    Pending,
    PartiallyFilled,
    Filled,
    Cancelled,
    Rejected { reason: String },
    Error { reason: String },
}

impl Clone for OrderStatus {
    fn clone(&self) -> (r: Self)
        ensures
            r == *self,
    {
        match self {
            OrderStatus::Pending => OrderStatus::Pending,
            OrderStatus::PartiallyFilled => OrderStatus::PartiallyFilled,
            OrderStatus::Filled => OrderStatus::Filled,
            OrderStatus::Cancelled => OrderStatus::Cancelled,
            OrderStatus::Rejected { reason } => OrderStatus::Rejected { reason: reason.clone() },
            OrderStatus::Error { reason } => OrderStatus::Error { reason: reason.clone() },
        }
    }
}

/// A report on an order.
#[derive(Debug, PartialEq, Eq)]
pub struct OrderUpdate {
    /// The venue's id; empty where the venue gave none.
    pub order_id: String,
    pub client_order_id: Option<String>,
    pub exchange: Exchange,
    pub symbol: Symbol,
    pub side: Side,
    pub status: OrderStatus,
    pub quantity: Quantity,
}

/// The same optional text.
pub fn copy_option(s: &Option<String>) -> (r: Option<String>)
    ensures
        r == *s,
{
    match s {
        Some(t) => Some(t.clone()),
        None => None,
    }
}

impl Clone for OrderUpdate {
    fn clone(&self) -> (r: Self)
        ensures
            r == *self,
    {
        OrderUpdate {
            order_id: self.order_id.clone(),
            client_order_id: copy_option(&self.client_order_id),
            exchange: self.exchange,
            symbol: self.symbol.clone(),
            side: self.side,
            status: self.status.clone(),
            quantity: self.quantity,
        }
    }
}

/// Why a fill took place.
#[derive(Clone, Copy, Debug, PartialEq, Eq, Structural)]
pub enum FillReason {
    Normal,
    Liquidation,
}

/// An executed trade of ours.
#[derive(Debug, PartialEq, Eq)]
pub struct Fill {
    pub exchange: Exchange,
    pub symbol: Symbol,
    pub side: Side,
    pub price: Price,
    /// Coins, without a sign.
    pub size: Quantity,
    pub client_order_id: Option<String>,
    pub order_id: String,
    pub timestamp: Timestamp,
    pub fee: Money,
    pub reason: FillReason,
}

impl Clone for Fill {
    fn clone(&self) -> (r: Self)
        ensures
            r == *self,
    {
        Fill {
            exchange: self.exchange,
            symbol: self.symbol.clone(),
            side: self.side,
            price: self.price,
            size: self.size,
            client_order_id: copy_option(&self.client_order_id),
            order_id: self.order_id.clone(),
            timestamp: self.timestamp,
            fee: self.fee,
            reason: self.reason,
        }
    }
}

/// What a fill adds to the position.
pub open spec fn signed_size(side: Side, size: Quantity) -> int {
    match side {
        Side::Long => size as int,
        Side::Short => amount::clamp(-size),
    }
}

/// What a fill adds to the position.
pub fn signed(side: Side, size: Quantity) -> (r: Quantity)
    ensures
        r == signed_size(side, size),
{
    match side {
        Side::Long => size,
        Side::Short => minus(0, size),
    }
}

/// A holding on one leg.
#[derive(Debug, PartialEq, Eq)]
pub struct Position {
    pub exchange: Exchange,
    pub symbol: Symbol,
    pub size: Quantity,
}

/// A holding that is no larger than noise.
pub open spec fn is_empty_size(size: int) -> bool {
    amount::abs(size) <= QUANTITY_EPSILON
}

impl Clone for Position {
    fn clone(&self) -> (r: Self)
        ensures
            r == *self,
    {
        Position { exchange: self.exchange, symbol: self.symbol.clone(), size: self.size }
    }
}

impl Position {
    /// Whether nothing is held.
    pub fn is_empty(&self) -> (b: bool)
        ensures
            b == is_empty_size(self.size as int),
    {
        -QUANTITY_EPSILON <= self.size && self.size <= QUANTITY_EPSILON
    }
}

/// A holding as a venue's snapshot gave it, and when the snapshot was asked for.
#[derive(Debug, PartialEq, Eq)]
pub struct PositionBaseline {
    pub position: Position,
    pub snapshot_req_ts: Timestamp,
}

impl Clone for PositionBaseline {
    fn clone(&self) -> (r: Self)
        ensures
            r == *self,
    {
        PositionBaseline {
            position: self.position.clone(),
            snapshot_req_ts: self.snapshot_req_ts,
        }
    }
}

/// Rounds prices to a tick.
#[derive(Clone, Copy, Debug, PartialEq, Eq, Structural)]
pub struct StepFormatter {
    pub step: Price,
}

impl StepFormatter {
    /// A formatter for a tick.
    pub fn new(step: Price) -> (f: Self)
        ensures
            f.step == step,
    {
        StepFormatter { step }
    }
}

/// A venue's rules for one instrument.
#[derive(Debug)]
pub struct SymbolMeta {
    pub exchange: Exchange,
    pub symbol: Symbol,
    pub price_formatter: StepFormatter,
    /// Order quantities are multiples of this number of lots.
    pub size_step: Lots,
    /// The smallest order, in lots.
    pub min_order_size: Lots,
    /// Coins per lot.
    pub contract_size: Lots,
}

/// The rules of every known leg.
pub type SymbolMetas = Table<(Exchange, Symbol), SymbolMeta>;

impl Clone for SymbolMeta {
    fn clone(&self) -> (r: Self)
        ensures
            r == *self,
    {
        SymbolMeta {
            exchange: self.exchange,
            symbol: self.symbol.clone(),
            price_formatter: self.price_formatter,
            size_step: self.size_step,
            min_order_size: self.min_order_size,
            contract_size: self.contract_size,
        }
    }
}

/// The smallest tradable quantity of coins.
pub open spec fn coin_step(meta: SymbolMeta) -> int {
    amount::clamp(meta.size_step * meta.contract_size)
}

impl SymbolMeta {
    /// The smallest tradable quantity of coins: the step in lots times the coins per lot.
    pub fn coin_size_step(&self) -> (r: Quantity)
        ensures
            r == coin_step(*self),
    {
        times(self.size_step, self.contract_size)
    }

    /// A quantity of coins, cut down to what the venue can trade.
    pub fn round_coin_size_down(&self, quantity: Quantity) -> (r: Quantity)
        ensures
            r == amount::rounded_down(quantity as int, coin_step(*self)),
    {
        round_down(quantity, self.coin_size_step())
    }

    /// The tick that is nearest to a price.
    pub fn round_price(&self, price: Price) -> (r: Price)
        ensures
            r == amount::clamp(amount::rounded(price as int, self.price_formatter.step as int)),
    {
        round(price, self.price_formatter.step)
    }
}

/// Why a venue refused an order.
#[derive(Clone, Copy, Debug, PartialEq, Eq, Structural)]
pub enum RejectReason {
    /// It could only have reduced a position that is already gone.
    ReduceOnlyClosed,
    Other,
}

/// What went wrong at a venue.
#[derive(Debug, PartialEq, Eq)]
pub enum ExchangeError {
    OrderRejected(Exchange, RejectReason),
    Other(String),
}

impl Clone for ExchangeError {
    fn clone(&self) -> (r: Self)
        ensures
            r == *self,
    {
        match self {
            ExchangeError::OrderRejected(exchange, reason) => ExchangeError::OrderRejected(
                *exchange,
                *reason,
            ),
            ExchangeError::Other(text) => ExchangeError::Other(text.clone()),
        }
    }
}

/// The error as text.
pub open spec fn error_text(e: ExchangeError) -> Seq<char> {
    match e {
        ExchangeError::OrderRejected(exchange, reason) => "Order rejected by "@ + exchange_name(
            exchange,
        ) + (match reason {
            RejectReason::ReduceOnlyClosed => ": reduce-only, position already closed"@,
            RejectReason::Other => ""@,
        }),
        ExchangeError::Other(text) => text@,
    }
}

impl ExchangeError {
    /// The error as text.
    pub fn message(&self) -> (s: String)
        ensures
            s@ == error_text(*self),
    {
        match self {
            ExchangeError::OrderRejected(exchange, reason) => {
                let mut s = joined("Order rejected by ", exchange.name());
                s.append(
                    match reason {
                        RejectReason::ReduceOnlyClosed => ": reduce-only, position already closed",
                        RejectReason::Other => "",
                    },
                );
                s
            },
            ExchangeError::Other(text) => text.clone(),
        }
    }

    /// Whether an order was refused because the position it would have reduced is gone.
    pub fn is_reduce_only_closed(&self) -> (b: bool)
        ensures
            b == (self matches ExchangeError::OrderRejected(_, r) && r is ReduceOnlyClosed),
    {
        match self {
            ExchangeError::OrderRejected(_, RejectReason::ReduceOnlyClosed) => true,
            _ => false,
        }
    }
}

/// An event whose meaning only strategies and their observers know.
#[derive(Debug, PartialEq, Eq)]
pub struct CustomEvent {
    /// The leg it concerns, if it concerns one.
    pub scope: Option<(Exchange, Symbol)>,
    pub name: String,
}

impl Clone for CustomEvent {
    fn clone(&self) -> (r: Self)
        ensures
            r == *self,
    {
        CustomEvent {
            scope: match &self.scope {
                Some((exchange, symbol)) => Some((*exchange, symbol.clone())),
                None => None,
            },
            name: self.name.clone(),
        }
    }
}

/// What a strategy decides.
#[derive(Clone, Debug)]
pub enum OutcomeEvent {
    PlaceOrders { orders: Vec<Order>, comment: String },
    CancelOrder {
        exchange: Exchange,
        symbol: Symbol,
        order_id: String,
        client_order_id: String,
    },
    Emit(CustomEvent),
}

/// A purchase adds its size to what is held, a sale takes it away.
pub proof fn a_sale_is_a_purchase_with_the_other_sign(size: Quantity)
    ensures
        signed_size(Side::Long, size) == size,
        size > i128::MIN ==> signed_size(Side::Short, size) == -size,
{
}

/// A size counts as nothing exactly within noise of zero.
pub proof fn noise_counts_as_nothing(size: int)
    ensures
        is_empty_size(size) <==> -10_000 <= size <= 10_000,
{
}

/// The smallest quantity of coins is what the smallest number of lots comes to.
pub proof fn the_smallest_order_in_coins(meta: SymbolMeta)
    requires
        i128::MIN <= meta.size_step * meta.contract_size <= i128::MAX,
    ensures
        coin_step(meta) == meta.size_step * meta.contract_size,
{
}

/// The text of an error is what was told where there is nothing more to it, and names the venue where
/// that refused.
pub proof fn an_error_says_what_was_told(e: ExchangeError)
    ensures
        e matches ExchangeError::Other(told) ==> error_text(e) == told@,
        e matches ExchangeError::OrderRejected(exchange, _) ==> {
            let start = "Order rejected by "@ + exchange_name(exchange);
            error_text(e).len() >= start.len() && error_text(e).take(start.len() as int) == start
        },
{
    if let ExchangeError::OrderRejected(exchange, _) = e {
        let start = "Order rejected by "@ + exchange_name(exchange);
        assert(error_text(e).take(start.len() as int) =~= start);
    }
}

/// No two venues share a name.
pub proof fn venues_have_names_of_their_own(a: Exchange, b: Exchange)
    requires
        a != b,
    ensures
        exchange_name(a) != exchange_name(b),
{
    reveal_strlit("Binance");
    reveal_strlit("OKX");
    reveal_strlit("Hyperliquid");
    reveal_strlit("IBKR");
    assert(exchange_name(a).len() != exchange_name(b).len());
}

/// No two accounts share a name.
pub proof fn accounts_have_names_of_their_own(a: AccountKey, b: AccountKey)
    requires
        a != b,
    ensures
        account_name(a) != account_name(b),
{
    reveal_strlit("live");
    reveal_strlit("paper:");
    if let AccountKey::Paper(x) = a {
        assert(account_name(a)[0] == 'p');
        assert(account_name(a).skip(6) =~= x);
    }
    if let AccountKey::Paper(y) = b {
        assert(account_name(b)[0] == 'p');
        assert(account_name(b).skip(6) =~= y);
    }
    assert(account_name(AccountKey::Live)[0] == 'l');
}

/// The engine's ids start with the same three letters on every venue, spelled out as hexadecimal bytes
/// where the venue wants a number; there an id is a number of sixteen bytes.
pub proof fn own_ids_start_alike(exchange: Exchange)
    ensures
        !(exchange is Hyperliquid) ==> cli_order_prefix(exchange) == seq!['h', 'f', 't'],
        exchange is Hyperliquid ==> {
            let prefix = cli_order_prefix(exchange);
            &&& prefix[0] == '0' && prefix[1] == 'x'
            &&& prefix.skip(2) == text::hex('h' as nat, 2) + text::hex('f' as nat, 2) + text::hex('t' as nat, 2)
            &&& prefix.len() + 2 * CLI_ORDER_DIGITS == 2 + 2 * 16
        },
{
    reveal_strlit("hft");
    reveal_strlit("0x686674");
    reveal_with_fuel(text::hex, 3);
    if exchange is Hyperliquid {
        assert(cli_order_prefix(exchange).skip(2) =~= text::hex('h' as nat, 2) + text::hex('f' as nat, 2) + text::hex(
            't' as nat,
            2,
        ));
    } else {
        assert(cli_order_prefix(exchange) =~= seq!['h', 'f', 't']);
    }
}

} // verus!
