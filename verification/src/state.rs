//! What a strategy knows: positions from a baseline and fills, quotes, orders under way.

use vstd::prelude::*;
use crate::amount;
use crate::amount::plus;
use crate::domain;
use crate::domain::{signed, Exchange, Fill, Money, Order, OrderStatus, OrderUpdate, Position};
use crate::domain::{PositionBaseline, Quantity, Symbol, Timestamp};
use crate::event::{AccountData, IncomeEvent, MarketData, MarketStatus, BBO};
use crate::table::{Key, Table};
use crate::table;

verus! {

/// An order that has been asked for and is not known to be over.
#[derive(Debug)]
pub struct PendingOrder {
    pub order: Order,
    pub created_at: Timestamp,
    /// Whether the venue has reported on it.
    pub acknowledged: bool,
}

impl Clone for PendingOrder {
    fn clone(&self) -> (r: Self)
        ensures
            r == *self,
    {
        PendingOrder {
            order: self.order.clone(),
            created_at: self.created_at,
            acknowledged: self.acknowledged,
        }
    }
}

/// What is known of one instrument, over its venues.
#[verifier::ext_equal]
pub struct SymbolModel {
    /// Coins held.
    pub positions: Map<Exchange, Quantity>,
    /// When the snapshot that a position started from was asked for.
    pub seeded: Map<Exchange, Timestamp>,
    pub bbos: Map<Exchange, BBO>,
    /// By client order id.
    pub pending: Map<Seq<char>, PendingOrder>,
}

/// Nothing is known.
pub open spec fn unknown_symbol() -> SymbolModel {
    SymbolModel {
        positions: Map::empty(),
        seeded: Map::empty(),
        bbos: Map::empty(),
        pending: Map::empty(),
    }
}

/// Coins held on a venue; none where nothing is known.
pub open spec fn held(s: SymbolModel, exchange: Exchange) -> Quantity {
    if s.positions.dom().contains(exchange) {
        s.positions[exchange]
    } else {
        0
    }
}

/// The first baseline of a venue sets the position there; later ones change nothing.
pub open spec fn seeded(s: SymbolModel, position: Position, ts: Timestamp) -> SymbolModel {
    if s.seeded.dom().contains(position.exchange) {
        s
    } else {
        SymbolModel {
            positions: s.positions.insert(position.exchange, position.size),
            seeded: s.seeded.insert(position.exchange, ts),
            ..s
        }
    }
}

/// What a venue says is held is held, where no baseline is: from a baseline on only fills count.
pub open spec fn positioned(s: SymbolModel, position: Position) -> SymbolModel {
    if s.seeded.dom().contains(position.exchange) {
        s
    } else {
        SymbolModel { positions: s.positions.insert(position.exchange, position.size), ..s }
    }
}

/// Whether the baseline already holds a fill that reached the engine at `ts`.
pub open spec fn covered(s: SymbolModel, exchange: Exchange, ts: Timestamp) -> bool {
    s.seeded.dom().contains(exchange) && ts <= s.seeded[exchange]
}

/// A fill moves the position of its venue, unless the baseline already holds it.
pub open spec fn filled(s: SymbolModel, fill: Fill, ts: Timestamp) -> SymbolModel {
    if covered(s, fill.exchange, ts) {
        s
    } else {
        SymbolModel {
            positions: s.positions.insert(
                fill.exchange,
                amount::clamp(
                    held(s, fill.exchange) + domain::signed_size(fill.side, fill.size),
                ) as Quantity,
            ),
            ..s
        }
    }
}

/// Whether nothing more happens to an order.
pub open spec fn is_final(status: OrderStatus) -> bool {
    match status {
        OrderStatus::Pending => false,
        OrderStatus::PartiallyFilled => false,
        _ => true,
    }
}

/// A report on an order under way ends it, or acknowledges it.
pub open spec fn reported(s: SymbolModel, update: OrderUpdate) -> SymbolModel {
    match update.client_order_id {
        Some(id) => if !s.pending.dom().contains(id@) {
            s
        } else if is_final(update.status) {
            SymbolModel { pending: s.pending.remove(id@), ..s }
        } else {
            SymbolModel {
                pending: s.pending.insert(
                    id@,
                    PendingOrder { acknowledged: true, ..s.pending[id@] },
                ),
                ..s
            }
        },
        None => s,
    }
}

/// Whether an order that no venue has reported on has waited too long.
pub open spec fn overdue(p: PendingOrder, now: Timestamp, timeout: u64) -> bool {
    timeout > 0 && !p.acknowledged && now > p.created_at + timeout
}

/// Orders that have waited too long are given up.
pub open spec fn expired(s: SymbolModel, now: Timestamp, timeout: u64) -> SymbolModel {
    SymbolModel {
        pending: Map::new(
            |id: Seq<char>| s.pending.dom().contains(id) && !overdue(s.pending[id], now, timeout),
            |id: Seq<char>| s.pending[id],
        ),
        ..s
    }
}

/// What one event of the instrument changes.
pub open spec fn symbol_applied(s: SymbolModel, event: IncomeEvent) -> SymbolModel {
    match event {
        IncomeEvent::Market(e) => match e.data {
            MarketData::BBO(bbo) => SymbolModel { bbos: s.bbos.insert(bbo.exchange, bbo), ..s },
            _ => s,
        },
        IncomeEvent::Account(e) => match e.data {
            AccountData::Fill(fill) => filled(s, fill, e.local_ts),
            AccountData::OrderUpdate(update) => reported(s, update),
            AccountData::Position(position) => positioned(s, position),
            _ => s,
        },
    }
}

/// What is known of one instrument.
pub struct SymbolState {
    symbol: Symbol,
    positions: Table<Exchange, Quantity>,
    seeded: Table<Exchange, Timestamp>,
    bbos: Table<Exchange, BBO>,
    pending: Table<String, PendingOrder>,
}

impl View for SymbolState {
    type V = SymbolModel;

    closed spec fn view(&self) -> SymbolModel {
        SymbolModel {
            positions: self.positions@,
            seeded: self.seeded@,
            bbos: self.bbos@,
            pending: self.pending@,
        }
    }
}

impl SymbolState {
    /// The instrument's name.
    pub closed spec fn name(&self) -> Seq<char> {
        self.symbol@
    }

    /// The orders under way, in the order in which they were asked for.
    pub closed spec fn pending_list(&self) -> Seq<(String, PendingOrder)> {
        self.pending.entries()
    }

    /// The venues with a position, in the order in which they came.
    pub closed spec fn position_list(&self) -> Seq<(Exchange, Quantity)> {
        self.positions.entries()
    }

    /// Nothing is known of the instrument.
    pub fn new(symbol: Symbol) -> (s: Self)
        ensures
            s@ == unknown_symbol(),
            s.name() == symbol@,
    {
        SymbolState {
            symbol,
            positions: Table::new(),
            seeded: Table::new(),
            bbos: Table::new(),
            pending: Table::new(),
        }
    }

    /// Writes a baseline, unless the venue has one.
    pub fn seed_position(&mut self, position: &Position, ts: Timestamp)
        ensures
            final(self)@ == seeded(old(self)@, *position, ts),
            final(self).name() == old(self).name(),
            final(self).pending_list() == old(self).pending_list(),
    {
        if !self.seeded.contains_key(&position.exchange) {
            self.positions.insert(position.exchange, position.size);
            self.seeded.insert(position.exchange, ts);
        }
    }

    /// Whether the venue has a baseline.
    pub fn is_position_seeded(&self, exchange: Exchange) -> (b: bool)
        ensures
            b == self@.seeded.dom().contains(exchange),
    {
        self.seeded.contains_key(&exchange)
    }

    /// Coins held on the venue; none where nothing is known.
    pub fn position_size(&self, exchange: Exchange) -> (q: Quantity)
        ensures
            q == held(self@, exchange),
    {
        match self.positions.get(&exchange) {
            Some(q) => *q,
            None => 0,
        }
    }

    /// The positions of all venues that have one.
    pub fn positions(&self) -> (v: Vec<Position>)
        ensures
            v@.len() == self.position_list().len(),
            forall|i: int| 0 <= i < v@.len() ==> (#[trigger] v@[i]).exchange == self.position_list()[i].0
                && v@[i].size == self.position_list()[i].1 && v@[i].symbol@ == self.name()
                && self@.positions.dom().contains(v@[i].exchange)
                && self@.positions[v@[i].exchange] == v@[i].size,
            forall|e: Exchange| self@.positions.dom().contains(e) ==> exists|i: int|
                0 <= i < v@.len() && (#[trigger] v@[i]).exchange == e,
            forall|i: int, j: int| 0 <= i < j < v@.len() ==> (#[trigger] v@[i]).exchange != (#[trigger] v@[j]).exchange,
    {
        let n = self.positions.len();
        let mut v: Vec<Position> = Vec::new();
        let mut i: usize = 0;
        while i < n
            invariant
                i <= n,
                n == self.positions.entries().len(),
                self.positions.inv(),
                v@.len() == i,
                forall|j: int| 0 <= j < i ==> (#[trigger] v@[j]).exchange == self.positions.entries()[j].0
                    && v@[j].size == self.positions.entries()[j].1 && v@[j].symbol@ == self.symbol@,
            decreases n - i,
        {
            v.push(
                Position {
                    exchange: *self.positions.key_at(i),
                    symbol: self.symbol.clone(),
                    size: *self.positions.value_at(i),
                },
            );
            i = i + 1;
        }
        proof {
            let e = self.positions.entries();
            assert forall|i: int| 0 <= i < v@.len() implies self@.positions.dom().contains((#[trigger] v@[i]).exchange)
                && self@.positions[v@[i].exchange] == v@[i].size by {
                table::lemma_entry_in_map(e, i);
            }
            assert forall|x: Exchange| self@.positions.dom().contains(x) implies exists|i: int|
                0 <= i < v@.len() && (#[trigger] v@[i]).exchange == x by {
                let j = choose|j: int| #[trigger] table::names(e, j, x);
                assert(v@[j].exchange == x);
            }
            assert forall|i: int, j: int| 0 <= i < j < v@.len() implies (#[trigger] v@[i]).exchange != (#[trigger] v@[j]).exchange by {
                assert(e[i].0.id() != e[j].0.id());
            }
        }
        v
    }

    /// The venue's quote.
    pub fn bbo(&self, exchange: Exchange) -> (r: Option<&BBO>)
        ensures
            match r {
                Some(bbo) => self@.bbos.dom().contains(exchange) && *bbo == self@.bbos[exchange],
                None => !self@.bbos.dom().contains(exchange),
            },
    {
        self.bbos.get(&exchange)
    }

    /// The orders under way.
    pub fn pending_orders(&self) -> (v: Vec<PendingOrder>)
        ensures
            v@ == self.pending_list().map_values(|e: (String, PendingOrder)| e.1),
            table::lists(self.pending_list(), self@.pending),
    {
        proof {
            use_type_invariant(&self.pending);
        }
        let n = self.pending.len();
        let mut v: Vec<PendingOrder> = Vec::new();
        let mut i: usize = 0;
        while i < n
            invariant
                i <= n,
                n == self.pending.entries().len(),
                v@.len() == i,
                forall|j: int| 0 <= j < i ==> (#[trigger] v@[j]) == self.pending.entries()[j].1,
            decreases n - i,
        {
            v.push(self.pending.value_at(i).clone());
            i = i + 1;
        }
        assert(v@ =~= self.pending_list().map_values(|e: (String, PendingOrder)| e.1));
        v
    }

    /// How many orders are under way.
    pub fn pending_count(&self) -> (n: usize)
        ensures
            n == self@.pending.dom().len(),
    {
        proof {
            use_type_invariant(&self.pending);
            table::lemma_map_len(self.pending.entries());
        }
        self.pending.len()
    }

    /// Takes note of an order that is being asked for.
    pub fn add_pending_order(&mut self, order: Order, created_at: Timestamp)
        ensures
            final(self)@ == (SymbolModel {
                pending: old(self)@.pending.insert(
                    order.client_order_id@,
                    PendingOrder { order, created_at, acknowledged: false },
                ),
                ..old(self)@
            }),
            final(self).name() == old(self).name(),
            !old(self)@.pending.dom().contains(order.client_order_id@) ==> final(self).pending_list()
                == old(self).pending_list().push(
                (order.client_order_id, PendingOrder { order, created_at, acknowledged: false }),
            ),
    {
        let id = order.client_order_id.clone();
        self.pending.insert(id, PendingOrder { order, created_at, acknowledged: false });
    }

    fn apply_fill(&mut self, fill: &Fill, ts: Timestamp)
        ensures
            final(self)@ == filled(old(self)@, *fill, ts),
            final(self).name() == old(self).name(),
    {
        let covered = match self.seeded.get(&fill.exchange) {
            Some(at) => ts <= *at,
            None => false,
        };
        if !covered {
            let now = plus(self.position_size(fill.exchange), signed(fill.side, fill.size));
            self.positions.insert(fill.exchange, now);
        }
    }

    fn apply_order_update(&mut self, update: &OrderUpdate)
        ensures
            final(self)@ == reported(old(self)@, *update),
            final(self).name() == old(self).name(),
    {
        if let Some(id) = &update.client_order_id {
            let known = match self.pending.get(id) {
                Some(p) => Some(p.clone()),
                None => None,
            };
            if let Some(p) = known {
                let over = match &update.status {
                    OrderStatus::Pending => false,
                    OrderStatus::PartiallyFilled => false,
                    _ => true,
                };
                if over {
                    self.pending.remove(id);
                } else {
                    self.pending.insert(
                        id.clone(),
                        PendingOrder {
                            order: p.order,
                            created_at: p.created_at,
                            acknowledged: true,
                        },
                    );
                }
            }
        }
    }

    /// Takes in one event of this instrument.
    pub fn apply(&mut self, event: &IncomeEvent)
        ensures
            final(self)@ == symbol_applied(old(self)@, *event),
            final(self).name() == old(self).name(),
    {
        match event {
            IncomeEvent::Market(e) => match &e.data {
                MarketData::BBO(bbo) => {
                    self.bbos.insert(bbo.exchange, bbo.clone());
                },
                _ => {},
            },
            IncomeEvent::Account(e) => match &e.data {
                AccountData::Fill(fill) => self.apply_fill(fill, e.local_ts),
                AccountData::OrderUpdate(update) => self.apply_order_update(update),
                AccountData::Position(position) => {
                    if !self.seeded.contains_key(&position.exchange) {
                        self.positions.insert(position.exchange, position.size);
                    }
                },
                _ => {},
            },
        }
    }

    /// Gives up the orders that have waited too long for a report.
    pub fn expire(&mut self, now: Timestamp, timeout: u64)
        ensures
            final(self)@ == expired(old(self)@, now, timeout),
            final(self).name() == old(self).name(),
    {
        let ghost before = self@;
        let n = self.pending.len();
        let mut late: Vec<String> = Vec::new();
        let mut i: usize = 0;
        while i < n
            invariant
                i <= n,
                n == self.pending.entries().len(),
                self.pending.inv(),
                forall|j: int| 0 <= j < late@.len() ==> self.pending@.dom().contains((#[trigger] late@[j])@)
                    && overdue(self.pending@[late@[j]@], now, timeout),
                forall|k: int| 0 <= k < i && overdue((#[trigger] self.pending.entries()[k]).1, now, timeout)
                    ==> exists|j: int| 0 <= j < late@.len() && (#[trigger] late@[j])@ == self.pending.entries()[k].0@,
            decreases n - i,
        {
            let p = self.pending.value_at(i);
            let ghost old_late = late@;
            let ghost e = self.pending.entries();
            if timeout > 0 && !p.acknowledged && now > p.created_at && now - p.created_at > timeout {
                proof {
                    table::lemma_entry_in_map(e, i as int);
                }
                late.push(self.pending.key_at(i).clone());
                assert(late@[old_late.len() as int]@ == e[i as int].0@);
                assert forall|k: int| 0 <= k < i && overdue((#[trigger] e[k]).1, now, timeout) implies
                    exists|j: int| 0 <= j < late@.len() && (#[trigger] late@[j])@ == e[k].0@ by {
                    let j = choose|j: int| 0 <= j < old_late.len() && (#[trigger] old_late[j])@ == e[k].0@;
                    assert(late@[j]@ == e[k].0@);
                }
            }
            i = i + 1;
        }
        let ghost p0 = self.pending@;
        proof {
            let e = self.pending.entries();
            assert forall|id: Seq<char>| p0.dom().contains(id) && overdue(p0[id], now, timeout) implies
                #[trigger] crate::scope::listed(late@, id) by {
                let k = choose|k: int| #[trigger] table::names(e, k, id);
                table::lemma_entry_in_map(e, k);
                let j = choose|j: int| 0 <= j < late@.len() && (#[trigger] late@[j])@ == e[k].0@;
                assert(late@[j]@ == id);
            }
        }
        let mut k: usize = 0;
        while k < late.len()
            invariant
                k <= late.len(),
                self@.positions == before.positions,
                self@.seeded == before.seeded,
                self@.bbos == before.bbos,
                self.symbol == old(self).symbol,
                forall|id: Seq<char>| #[trigger] self.pending@.dom().contains(id) == (p0.dom().contains(id)
                    && !crate::scope::listed(late@.take(k as int), id)),
                forall|id: Seq<char>| #[trigger] self.pending@.dom().contains(id) ==> self.pending@[id] == p0[id],
            decreases late.len() - k,
        {
            self.pending.remove(&late[k]);
            proof {
                let was = late@.take(k as int);
                assert(late@.take(k + 1) =~= was.push(late@[k as int]));
                crate::scope::lemma_listed_push(was, late@[k as int]);
            }
            k = k + 1;
        }
        proof {
            assert(late@.take(k as int) =~= late@);
            assert forall|id: Seq<char>| #[trigger] self.pending@.dom().contains(id) == expired(before, now, timeout).pending.dom().contains(id) by {
                if crate::scope::listed(late@, id) {
                    let j = choose|j: int| 0 <= j < late@.len() && (#[trigger] late@[j])@ == id;
                }
            }
            assert(self.pending@ =~= expired(before, now, timeout).pending);
        }
    }
}

/// An account's standing on a venue.
#[derive(Clone, Copy, Debug, PartialEq, Eq, Structural)]
pub struct AccountInfo {
    pub equity: Money,
    pub notional: Money,
}

/// What a strategy knows.
#[verifier::ext_equal]
pub struct StateModel {
    /// By instrument.
    pub symbols: Map<Seq<char>, SymbolModel>,
    pub accounts: Map<Exchange, AccountInfo>,
    pub statuses: Map<Exchange, MarketStatus>,
    /// After how many milliseconds an order without a report is given up; never, if zero.
    pub order_timeout_ms: u64,
}

/// More instruments are followed; those that already were stay as they are.
pub open spec fn registered(s: StateModel, symbols: Seq<Symbol>) -> StateModel {
    StateModel {
        symbols: Map::new(
            |name: Seq<char>| s.symbols.dom().contains(name) || crate::scope::listed(symbols, name),
            |name: Seq<char>|
                if s.symbols.dom().contains(name) {
                    s.symbols[name]
                } else {
                    unknown_symbol()
                },
        ),
        ..s
    }
}

/// A baseline reaches its instrument, if that is followed.
pub open spec fn seeded_one(s: StateModel, b: PositionBaseline) -> StateModel {
    let name = b.position.symbol@;
    if s.symbols.dom().contains(name) {
        StateModel {
            symbols: s.symbols.insert(name, seeded(s.symbols[name], b.position, b.snapshot_req_ts)),
            ..s
        }
    } else {
        s
    }
}

/// The baselines, one after the other.
pub open spec fn seeded_all(s: StateModel, baselines: Seq<PositionBaseline>) -> StateModel
    decreases baselines.len(),
{
    if baselines.len() == 0 {
        s
    } else {
        seeded_one(seeded_all(s, baselines.drop_last()), baselines.last())
    }
}

/// What is known to be at stake on a venue; nothing, if nothing is known.
pub open spec fn at_stake(s: StateModel, exchange: Exchange) -> Money {
    if s.accounts.dom().contains(exchange) {
        s.accounts[exchange].notional
    } else {
        0
    }
}

/// What an event changes.
pub open spec fn applied(s: StateModel, event: IncomeEvent) -> StateModel {
    let to_leg = match crate::event::reach(event) {
        crate::event::Reach::Symbol(_, name) => if s.symbols.dom().contains(name) {
            StateModel {
                symbols: s.symbols.insert(name, symbol_applied(s.symbols[name], event)),
                ..s
            }
        } else {
            s
        },
        _ => s,
    };
    match event {
        IncomeEvent::Market(e) => match e.data {
            MarketData::ExchangeStatus { exchange, status } => StateModel {
                statuses: s.statuses.insert(exchange, status),
                ..s
            },
            MarketData::Clock => StateModel {
                symbols: s.symbols.map_values(
                    |m: SymbolModel| expired(m, e.local_ts, s.order_timeout_ms),
                ),
                ..s
            },
            _ => to_leg,
        },
        IncomeEvent::Account(e) => match e.data {
            AccountData::AccountInfo { exchange, equity, notional } => StateModel {
                accounts: s.accounts.insert(exchange, AccountInfo { equity, notional }),
                ..s
            },
            AccountData::Equity { exchange, equity } => StateModel {
                accounts: s.accounts.insert(exchange, AccountInfo { equity, notional: at_stake(s, exchange) }),
                ..s
            },
            _ => to_leg,
        },
    }
}

/// An order under way is noted with its instrument, if that is followed.
pub open spec fn with_pending(s: StateModel, order: Order, created_at: Timestamp) -> StateModel {
    let name = order.symbol@;
    if s.symbols.dom().contains(name) {
        StateModel {
            symbols: s.symbols.insert(
                name,
                SymbolModel {
                    pending: s.symbols[name].pending.insert(
                        order.client_order_id@,
                        PendingOrder { order, created_at, acknowledged: false },
                    ),
                    ..s.symbols[name]
                },
            ),
            ..s
        }
    } else {
        s
    }
}

/// The state that a strategy works on.
pub struct StateManager {
    symbols: Table<Symbol, SymbolState>,
    accounts: Table<Exchange, AccountInfo>,
    statuses: Table<Exchange, MarketStatus>,
    order_timeout_ms: u64,
}

/// The models of the instruments.
pub open spec fn models(m: Map<Seq<char>, SymbolState>) -> Map<Seq<char>, SymbolModel> {
    m.map_values(|s: SymbolState| s@)
}

/// Whether a list holds each instrument that is followed, once.
pub open spec fn lists_symbols(list: Seq<(Symbol, SymbolState)>, s: StateModel) -> bool {
    table::distinct_keys(list) && models(table::entries_map(list)) == s.symbols
}

impl View for StateManager {
    type V = StateModel;

    closed spec fn view(&self) -> StateModel {
        StateModel {
            symbols: models(self.symbols@),
            accounts: self.accounts@,
            statuses: self.statuses@,
            order_timeout_ms: self.order_timeout_ms,
        }
    }
}

impl StateManager {
    /// The instruments that are followed, in the order in which they came.
    pub closed spec fn list(&self) -> Seq<(Symbol, SymbolState)> {
        self.symbols.entries()
    }

    /// The accounts, in the order in which they came.
    pub closed spec fn account_list(&self) -> Seq<(Exchange, AccountInfo)> {
        self.accounts.entries()
    }

    /// Follows these instruments, of which nothing is known.
    pub fn new(symbols: &Vec<Symbol>, order_timeout_ms: u64) -> (s: Self)
        ensures
            s@ == registered(
                StateModel {
                    symbols: Map::empty(),
                    accounts: Map::empty(),
                    statuses: Map::empty(),
                    order_timeout_ms,
                },
                symbols@,
            ),
    {
        let mut s = StateManager {
            symbols: Table::new(),
            accounts: Table::new(),
            statuses: Table::new(),
            order_timeout_ms,
        };
        assert(models(s.symbols@) =~= Map::<Seq<char>, SymbolModel>::empty());
        s.register_symbols(symbols);
        s
    }

    /// Follows these instruments too.
    pub fn register_symbols(&mut self, symbols: &Vec<Symbol>)
        ensures
            final(self)@ == registered(old(self)@, symbols@),
    {
        let ghost before = self@;
        let mut i: usize = 0;
        assert(registered(before, symbols@.take(0)).symbols =~= before.symbols);
        while i < symbols.len()
            invariant
                i <= symbols.len(),
                self@ == registered(before, symbols@.take(i as int)),
            decreases symbols.len() - i,
        {
            let ghost done = symbols@.take(i as int);
            let ghost was = self@;
            if !self.symbols.contains_key(&symbols[i]) {
                self.symbols.insert(symbols[i].clone(), SymbolState::new(symbols[i].clone()));
                assert(self@.symbols =~= was.symbols.insert(symbols@[i as int]@, unknown_symbol()));
            }
            proof {
                assert(symbols@.take(i + 1) =~= done.push(symbols@[i as int]));
                crate::scope::lemma_listed_push(done, symbols@[i as int]);
                let next = registered(before, symbols@.take(i + 1)).symbols;
                assert forall|name: Seq<char>| #[trigger] next.dom().contains(name)
                    == self@.symbols.dom().contains(name) by {
                    assert(crate::scope::listed(done.push(symbols@[i as int]), name) == (
                    crate::scope::listed(done, name) || name == symbols@[i as int]@));
                }
                assert forall|name: Seq<char>| #[trigger] self@.symbols.dom().contains(name) implies next[name]
                    == self@.symbols[name] by {
                    assert(next.dom().contains(name));
                    assert(registered(before, done).symbols.dom().contains(name) ==> was.symbols[name]
                        == registered(before, done).symbols[name]);
                }
                assert(self@.symbols =~= next);
            }
            i = i + 1;
        }
        assert(symbols@.take(i as int) =~= symbols@);
    }

    /// Writes baselines; an instrument that is not followed, or a venue that has one, takes none.
    pub fn seed_positions(&mut self, baselines: &Vec<PositionBaseline>)
        ensures
            final(self)@ == seeded_all(old(self)@, baselines@),
    {
        let ghost before = self@;
        let mut i: usize = 0;
        while i < baselines.len()
            invariant
                i <= baselines.len(),
                self@ == seeded_all(before, baselines@.take(i as int)),
            decreases baselines.len() - i,
        {
            assert(baselines@.take(i + 1).drop_last() =~= baselines@.take(i as int));
            let ghost was = self@;
            let ghost m = self.symbols@;
            let b = &baselines[i];
            if let Some(at) = self.symbols.position(&b.position.symbol) {
                let mut s = self.symbols.replace_at(at, SymbolState::new(String::new()));
                s.seed_position(&b.position, b.snapshot_req_ts);
                self.symbols.replace_at(at, s);
                assert(models(self.symbols@) =~= models(m).insert(b.position.symbol@, s@));
            }
            assert(self@ =~= seeded_one(was, *b));
            i = i + 1;
        }
        assert(baselines@.take(i as int) =~= baselines@);
    }

    /// What is known of the instrument.
    pub fn symbol_state(&self, symbol: &Symbol) -> (r: Option<&SymbolState>)
        ensures
            match r {
                Some(s) => self@.symbols.dom().contains(symbol@) && s@ == self@.symbols[symbol@],
                None => !self@.symbols.dom().contains(symbol@),
            },
    {
        self.symbols.get(symbol)
    }

    /// How many instruments are followed.
    pub fn symbol_count(&self) -> (n: usize)
        ensures
            n == self.list().len(),
            lists_symbols(self.list(), self@),
    {
        self.symbols.len()
    }

    /// The name of an instrument by its place.
    pub fn symbol_at(&self, i: usize) -> (s: &Symbol)
        requires
            i < self.list().len(),
        ensures
            *s == self.list()[i as int].0,
    {
        self.symbols.key_at(i)
    }

    /// What is known of an instrument by its place.
    pub fn state_at(&self, i: usize) -> (s: &SymbolState)
        requires
            i < self.list().len(),
        ensures
            *s == self.list()[i as int].1,
    {
        self.symbols.value_at(i)
    }

    /// How many venues have reported on the account.
    pub fn account_count(&self) -> (n: usize)
        ensures
            n == self.account_list().len(),
            table::lists(self.account_list(), self@.accounts),
    {
        self.accounts.len()
    }

    /// The account's standing on a venue, by its place.
    pub fn account_at(&self, i: usize) -> (r: (Exchange, AccountInfo))
        requires
            i < self.account_list().len(),
        ensures
            r == self.account_list()[i as int],
    {
        (*self.accounts.key_at(i), *self.accounts.value_at(i))
    }

    /// Whether the venue can be traded on; closed, where nothing is known.
    pub fn market_status(&self, exchange: Exchange) -> (s: MarketStatus)
        ensures
            s == if self@.statuses.dom().contains(exchange) {
                self@.statuses[exchange]
            } else {
                MarketStatus::Closed
            },
    {
        match self.statuses.get(&exchange) {
            Some(s) => *s,
            None => MarketStatus::Closed,
        }
    }

    /// Takes note of an order that is being asked for.
    pub fn add_pending_order(&mut self, order: Order, created_at: Timestamp)
        ensures
            final(self)@ == with_pending(old(self)@, order, created_at),
    {
        let ghost was = self@;
        let ghost m = self.symbols@;
        if let Some(at) = self.symbols.position(&order.symbol) {
            let mut s = self.symbols.replace_at(at, SymbolState::new(String::new()));
            let ghost asked = order;
            s.add_pending_order(order, created_at);
            self.symbols.replace_at(at, s);
            assert(models(self.symbols@) =~= models(m).insert(asked.symbol@, s@));
            assert(self@ =~= with_pending(was, asked, created_at));
        }
    }

    fn apply_to_leg(&mut self, symbol: &Symbol, event: &IncomeEvent)
        ensures
            final(self)@ == (if old(self)@.symbols.dom().contains(symbol@) {
                StateModel {
                    symbols: old(self)@.symbols.insert(
                        symbol@,
                        symbol_applied(old(self)@.symbols[symbol@], *event),
                    ),
                    ..old(self)@
                }
            } else {
                old(self)@
            }),
    {
        let ghost m = self.symbols@;
        if let Some(at) = self.symbols.position(symbol) {
            let mut s = self.symbols.replace_at(at, SymbolState::new(String::new()));
            s.apply(event);
            self.symbols.replace_at(at, s);
            assert(models(self.symbols@) =~= models(m).insert(symbol@, s@));
        }
    }

    fn expire_all(&mut self, now: Timestamp)
        ensures
            final(self)@ == (StateModel {
                symbols: old(self)@.symbols.map_values(
                    |m: SymbolModel| expired(m, now, old(self)@.order_timeout_ms),
                ),
                ..old(self)@
            }),
    {
        let ghost before = self@;
        let ghost e0 = self.symbols.entries();
        let timeout = self.order_timeout_ms;
        let n = self.symbols.len();
        let mut i: usize = 0;
        while i < n
            invariant
                i <= n,
                n == e0.len(),
                self.symbols.entries().len() == n,
                timeout == before.order_timeout_ms,
                before.symbols == models(table::entries_map(e0)),
                table::distinct_keys(e0),
                self@.accounts == before.accounts,
                self@.statuses == before.statuses,
                self@.order_timeout_ms == before.order_timeout_ms,
                forall|j: int| 0 <= j < n ==> (#[trigger] self.symbols.entries()[j]).0 == e0[j].0,
                forall|j: int| i <= j < n ==> (#[trigger] self.symbols.entries()[j]).1@ == e0[j].1@,
                forall|j: int| 0 <= j < i ==> (#[trigger] self.symbols.entries()[j]).1@ == expired(e0[j].1@, now, timeout),
            decreases n - i,
        {
            let ghost was = self.symbols.entries();
            let mut s = self.symbols.replace_at(i, SymbolState::new(String::new()));
            assert(s@ == was[i as int].1@);
            s.expire(now, timeout);
            self.symbols.replace_at(i, s);
            assert(self.symbols.entries() =~= was.update(i as int, (was[i as int].0, s)));
            i = i + 1;
        }
        proof {
            use_type_invariant(&self.symbols);
            let e1 = self.symbols.entries();
            let want = before.symbols.map_values(|m: SymbolModel| expired(m, now, timeout));
            assert forall|name: Seq<char>| #[trigger] self@.symbols.dom().contains(name) == want.dom().contains(name) by {
                if self.symbols@.dom().contains(name) {
                    let j = choose|j: int| #[trigger] table::names(e1, j, name);
                    assert(e1[j].0 == e0[j].0);
                    assert(table::names(e0, j, name));
                }
                if table::entries_map(e0).dom().contains(name) {
                    let j = choose|j: int| #[trigger] table::names(e0, j, name);
                    assert(e1[j].0 == e0[j].0);
                    assert(table::names(e1, j, name));
                }
            }
            assert forall|name: Seq<char>| #[trigger] self@.symbols.dom().contains(name) implies self@.symbols[name] == want[name] by {
                let j = choose|j: int| #[trigger] table::names(e1, j, name);
                assert(e1[j].0 == e0[j].0);
                table::lemma_entry_in_map(e1, j);
                table::lemma_entry_in_map(e0, j);
            }
            assert(self@.symbols =~= want);
        }
    }

    /// Takes in one event.
    pub fn apply(&mut self, event: &IncomeEvent)
        ensures
            final(self)@ == applied(old(self)@, *event),
    {
        match event {
            IncomeEvent::Market(e) => match &e.data {
                MarketData::ExchangeStatus { exchange, status } => {
                    self.statuses.insert(*exchange, *status);
                },
                MarketData::Clock => {
                    self.expire_all(e.local_ts);
                },
                _ => {
                    if let crate::event::Delivery::Symbol(_, symbol) = event.delivery() {
                        self.apply_to_leg(&symbol, event);
                    }
                },
            },
            IncomeEvent::Account(e) => match &e.data {
                AccountData::AccountInfo { exchange, equity, notional } => {
                    self.accounts.insert(
                        *exchange,
                        AccountInfo { equity: *equity, notional: *notional },
                    );
                },
                AccountData::Equity { exchange, equity } => {
                    let notional = match self.accounts.get(exchange) {
                        Some(info) => info.notional,
                        None => 0,
                    };
                    self.accounts.insert(*exchange, AccountInfo { equity: *equity, notional });
                },
                _ => {
                    if let crate::event::Delivery::Symbol(_, symbol) = event.delivery() {
                        self.apply_to_leg(&symbol, event);
                    }
                },
            },
        }
    }
}

/// A venue's first baseline stands: a later one changes nothing.
pub proof fn first_baseline_stands(s: SymbolModel, a: Position, ta: Timestamp, b: Position, tb: Timestamp)
    requires
        a.exchange == b.exchange,
    ensures
        seeded(seeded(s, a, ta), b, tb) == seeded(s, a, ta),
{
}

/// A fill that the engine got no later than the baseline was asked for is in the baseline, and
/// is not counted again; a later one is counted in full.
pub proof fn fills_are_counted_once(s: SymbolModel, p: Position, at: Timestamp, fill: Fill, ts: Timestamp)
    requires
        !s.seeded.dom().contains(p.exchange),
        fill.exchange == p.exchange,
    ensures
        ts <= at ==> filled(seeded(s, p, at), fill, ts) == seeded(s, p, at),
        ts > at ==> held(filled(seeded(s, p, at), fill, ts), p.exchange) == amount::clamp(
            p.size + domain::signed_size(fill.side, fill.size),
        ),
{
}

/// Following an instrument again keeps all that is known of it.
pub proof fn registering_again_keeps_what_is_known(s: StateModel, symbols: Seq<Symbol>, name: Seq<char>)
    requires
        s.symbols.dom().contains(name),
    ensures
        registered(s, symbols).symbols.dom().contains(name),
        registered(s, symbols).symbols[name] == s.symbols[name],
{
}

/// Only fills move a position, and only that of their own leg, but where no baseline is: there it is
/// also what the venue says.
pub proof fn only_fills_of_the_leg_move_a_position(
    s: StateModel,
    event: IncomeEvent,
    name: Seq<char>,
    exchange: Exchange,
)
    requires
        s.symbols.dom().contains(name),
        !(event matches IncomeEvent::Account(e) && e.data matches AccountData::Fill(f) && f.exchange
            == exchange && f.symbol@ == name),
        !(event matches IncomeEvent::Account(e) && e.data matches AccountData::Position(p) && p.exchange
            == exchange && p.symbol@ == name && !s.symbols[name].seeded.dom().contains(exchange)),
    ensures
        applied(s, event).symbols.dom().contains(name),
        held(applied(s, event).symbols[name], exchange) == held(s.symbols[name], exchange),
        applied(s, event).symbols[name].seeded == s.symbols[name].seeded,
{
}

/// A fill moves what is held on its leg by its size, up if it bought and down if it sold, unless the
/// snapshot that the position started from was asked for later.
pub proof fn a_fill_moves_its_own_position(s: StateModel, e: crate::event::AccountEvent, fill: Fill)
    requires
        e.data == AccountData::Fill(fill),
        s.symbols.dom().contains(fill.symbol@),
    ensures
        ({
            let before = s.symbols[fill.symbol@];
            let after = applied(s, IncomeEvent::Account(e)).symbols[fill.symbol@];
            let known = before.seeded.dom().contains(fill.exchange) && e.local_ts <= before.seeded[fill.exchange];
            let coins = if fill.side is Long { fill.size as int } else { -fill.size };
            &&& known ==> after == before
            &&& !known && coins <= i128::MAX && i128::MIN <= held(before, fill.exchange) + coins <= i128::MAX
                ==> held(after, fill.exchange) == held(before, fill.exchange) + coins
            &&& !known ==> after.positions.dom().contains(fill.exchange)
            &&& after.seeded == before.seeded
            &&& after.bbos == before.bbos
            &&& after.pending == before.pending
        }),
{
}

/// What a venue says is held stands on its leg, as long as no snapshot was taken of it.
pub proof fn a_told_position_stands_until_a_snapshot(s: StateModel, e: crate::event::AccountEvent, p: Position)
    requires
        e.data == AccountData::Position(p),
        s.symbols.dom().contains(p.symbol@),
    ensures
        ({
            let before = s.symbols[p.symbol@];
            let after = applied(s, IncomeEvent::Account(e)).symbols[p.symbol@];
            &&& held(after, p.exchange) == if before.seeded.dom().contains(p.exchange) {
                held(before, p.exchange)
            } else {
                p.size
            }
            &&& after.seeded == before.seeded
            &&& after.bbos == before.bbos
            &&& after.pending == before.pending
        }),
{
}

/// The latest quote of a leg is kept, and no other quote moves.
pub proof fn the_latest_quote_is_kept(s: StateModel, e: crate::event::MarketEvent, bbo: BBO)
    requires
        e.data == MarketData::BBO(bbo),
        s.symbols.dom().contains(bbo.symbol@),
    ensures
        ({
            let before = s.symbols[bbo.symbol@];
            let after = applied(s, IncomeEvent::Market(e)).symbols[bbo.symbol@];
            &&& after.bbos.dom().contains(bbo.exchange)
            &&& after.bbos[bbo.exchange] == bbo
            &&& forall|other: Exchange| other != bbo.exchange ==> after.bbos.dom().contains(other)
                == before.bbos.dom().contains(other) && #[trigger] after.bbos[other] == before.bbos[other]
            &&& after.positions == before.positions
            &&& after.seeded == before.seeded
            &&& after.pending == before.pending
        }),
{
}

/// A quote moves with a quote of its leg alone.
pub proof fn only_quotes_of_the_leg_move_a_quote(s: StateModel, event: IncomeEvent, name: Seq<char>, exchange: Exchange)
    requires
        s.symbols.dom().contains(name),
        !(event matches IncomeEvent::Market(e) && e.data matches MarketData::BBO(b) && b.exchange == exchange
            && b.symbol@ == name),
    ensures
        applied(s, event).symbols[name].bbos.dom().contains(exchange) == s.symbols[name].bbos.dom().contains(exchange),
        applied(s, event).symbols[name].bbos[exchange] == s.symbols[name].bbos[exchange],
{
}

/// A report on an order under way: while the order lives it stays, as it was sent, and counts as known
/// to the venue; once it is over it leaves. No other order moves.
pub proof fn a_report_settles_its_own_order(s: StateModel, e: crate::event::AccountEvent, u: OrderUpdate, id: String)
    requires
        e.data == AccountData::OrderUpdate(u),
        u.client_order_id == Some(id),
        s.symbols.dom().contains(u.symbol@),
    ensures
        ({
            let before = s.symbols[u.symbol@];
            let after = applied(s, IncomeEvent::Account(e)).symbols[u.symbol@];
            let lives = u.status is Pending || u.status is PartiallyFilled;
            &&& after.pending.dom().contains(id@) == (before.pending.dom().contains(id@) && lives)
            &&& after.pending.dom().contains(id@) ==> {
                &&& after.pending[id@].order == before.pending[id@].order
                &&& after.pending[id@].created_at == before.pending[id@].created_at
                &&& after.pending[id@].acknowledged
            }
            &&& forall|other: Seq<char>| other != id@ ==> after.pending.dom().contains(other)
                == before.pending.dom().contains(other) && #[trigger] after.pending[other] == before.pending[other]
            &&& after.positions == before.positions
            &&& after.seeded == before.seeded
            &&& after.bbos == before.bbos
        }),
{
}

/// An order under way moves with a report under its own id, or is given up as time passes; nothing
/// else touches it.
pub proof fn only_reports_and_time_settle_an_order(s: StateModel, event: IncomeEvent, name: Seq<char>, id: Seq<char>)
    requires
        s.symbols.dom().contains(name),
        !(event matches IncomeEvent::Market(e) && e.data is Clock),
        !(event matches IncomeEvent::Account(e) && e.data matches AccountData::OrderUpdate(u)
            && u.client_order_id matches Some(given) && given@ == id && u.symbol@ == name),
    ensures
        applied(s, event).symbols[name].pending.dom().contains(id) == s.symbols[name].pending.dom().contains(id),
        applied(s, event).symbols[name].pending[id] == s.symbols[name].pending[id],
{
}

/// As time passes an order is given up exactly when orders are given up at all, the venue never
/// reported on it, and it is longer under way than allowed. Nothing else moves.
pub proof fn silent_orders_are_given_up_in_time(s: StateModel, e: crate::event::MarketEvent, name: Seq<char>, id: Seq<char>)
    requires
        e.data is Clock,
        s.symbols.dom().contains(name),
    ensures
        ({
            let before = s.symbols[name];
            let after = applied(s, IncomeEvent::Market(e));
            let p = before.pending[id];
            &&& after.symbols.dom() == s.symbols.dom()
            &&& after.symbols[name].pending.dom().contains(id) <==> before.pending.dom().contains(id) && (
            s.order_timeout_ms == 0 || p.acknowledged || e.local_ts <= p.created_at + s.order_timeout_ms)
            &&& after.symbols[name].pending.dom().contains(id) ==> after.symbols[name].pending[id] == p
            &&& after.symbols[name].positions == before.positions
            &&& after.symbols[name].seeded == before.seeded
            &&& after.symbols[name].bbos == before.bbos
            &&& after.accounts == s.accounts
            &&& after.statuses == s.statuses
            &&& after.order_timeout_ms == s.order_timeout_ms
        }),
{
    assert(applied(s, IncomeEvent::Market(e)).symbols.dom() =~= s.symbols.dom());
}

/// A venue's status is what was last told of it, and moves with nothing else.
pub proof fn a_status_is_as_last_told(s: StateModel, event: IncomeEvent, exchange: Exchange)
    ensures
        ({
            let after = applied(s, event);
            if event is Market && event->Market_0.data is ExchangeStatus && event->Market_0.data->ExchangeStatus_exchange
                == exchange {
                after.statuses.dom().contains(exchange) && after.statuses[exchange]
                    == event->Market_0.data->ExchangeStatus_status
            } else {
                after.statuses.dom().contains(exchange) == s.statuses.dom().contains(exchange)
                    && after.statuses[exchange] == s.statuses[exchange]
            }
        }),
{
}

/// An account's standing on a venue is what was last told of it; where only its equity is told, what
/// it has at stake stays as it was, nothing at first. It moves with nothing else.
pub proof fn a_standing_is_as_last_told(s: StateModel, event: IncomeEvent, exchange: Exchange)
    ensures
        ({
            let after = applied(s, event);
            match event {
                IncomeEvent::Account(e) => match e.data {
                    AccountData::AccountInfo { exchange: on, equity, notional } => on == exchange ==> {
                        &&& after.accounts.dom().contains(exchange)
                        &&& after.accounts[exchange].equity == equity
                        &&& after.accounts[exchange].notional == notional
                    },
                    AccountData::Equity { exchange: on, equity } => on == exchange ==> {
                        &&& after.accounts.dom().contains(exchange)
                        &&& after.accounts[exchange].equity == equity
                        &&& s.accounts.dom().contains(exchange) ==> after.accounts[exchange].notional
                            == s.accounts[exchange].notional
                        &&& !s.accounts.dom().contains(exchange) ==> after.accounts[exchange].notional == 0
                    },
                    _ => after.accounts == s.accounts,
                },
                IncomeEvent::Market(_) => after.accounts == s.accounts,
            }
        }),
        ({
            let told = event is Account && (event->Account_0.data is AccountInfo
                && event->Account_0.data->AccountInfo_exchange == exchange || event->Account_0.data is Equity
                && event->Account_0.data->Equity_exchange == exchange);
            !told ==> applied(s, event).accounts.dom().contains(exchange) == s.accounts.dom().contains(exchange)
                && applied(s, event).accounts[exchange] == s.accounts[exchange]
        }),
{
}

/// No event adds an instrument or drops one, nor changes how long orders are borne.
pub proof fn events_follow_no_other_instrument(s: StateModel, event: IncomeEvent)
    ensures
        applied(s, event).symbols.dom() == s.symbols.dom(),
        applied(s, event).order_timeout_ms == s.order_timeout_ms,
{
    assert(applied(s, event).symbols.dom() =~= s.symbols.dom());
}

/// An instrument taken on has no position, no quote and no order under way.
pub proof fn a_new_instrument_starts_blank(s: StateModel, symbols: Seq<Symbol>, i: int, name: Seq<char>)
    requires
        0 <= i < symbols.len(),
    ensures
        registered(s, symbols).symbols.dom().contains(symbols[i]@),
        !s.symbols.dom().contains(symbols[i]@) ==> {
            let new = registered(s, symbols).symbols[symbols[i]@];
            &&& new.positions.dom() == Set::<Exchange>::empty()
            &&& new.seeded.dom() == Set::<Exchange>::empty()
            &&& new.bbos.dom() == Set::<Exchange>::empty()
            &&& new.pending.dom() == Set::<Seq<char>>::empty()
        },
        registered(s, symbols).symbols.dom().contains(name) ==> s.symbols.dom().contains(name) || (exists|j: int|
            0 <= j < symbols.len() && (#[trigger] symbols[j])@ == name),
        registered(s, symbols).accounts == s.accounts,
        registered(s, symbols).statuses == s.statuses,
        registered(s, symbols).order_timeout_ms == s.order_timeout_ms,
{
    assert(crate::scope::listed(symbols, symbols[i]@));
}

/// Whether the baseline is the first of its leg.
pub open spec fn is_first_of_leg(baselines: Seq<PositionBaseline>, i: int) -> bool {
    forall|j: int|
        0 <= j < i ==> (#[trigger] baselines[j]).position.exchange != baselines[i].position.exchange
            || baselines[j].position.symbol@ != baselines[i].position.symbol@
}

proof fn lemma_seeds_leave_other_legs(s: StateModel, baselines: Seq<PositionBaseline>, name: Seq<char>, exchange: Exchange)
    requires
        forall|j: int|
            0 <= j < baselines.len() ==> (#[trigger] baselines[j]).position.exchange != exchange
                || baselines[j].position.symbol@ != name,
    ensures
        seeded_all(s, baselines).symbols.dom() == s.symbols.dom(),
        s.symbols.dom().contains(name) ==> {
            let before = s.symbols[name];
            let after = seeded_all(s, baselines).symbols[name];
            &&& held(after, exchange) == held(before, exchange)
            &&& after.seeded.dom().contains(exchange) == before.seeded.dom().contains(exchange)
            &&& after.seeded[exchange] == before.seeded[exchange]
        },
    decreases baselines.len(),
{
    if baselines.len() > 0 {
        let rest = baselines.drop_last();
        assert forall|j: int| 0 <= j < rest.len() implies (#[trigger] rest[j]).position.exchange != exchange
            || rest[j].position.symbol@ != name by {
            assert(rest[j] == baselines[j]);
        }
        lemma_seeds_leave_other_legs(s, rest, name, exchange);
        assert(baselines[baselines.len() - 1] == baselines.last());
        assert(seeded_all(s, baselines).symbols.dom() =~= seeded_all(s, rest).symbols.dom());
    }
}

/// Every leg starts from the first of its baselines: the size told there, as of when that snapshot was
/// asked for; a leg that has started already stays as it is.
pub proof fn every_leg_starts_from_its_first_baseline(s: StateModel, baselines: Seq<PositionBaseline>, i: int)
    requires
        0 <= i < baselines.len(),
        is_first_of_leg(baselines, i),
        s.symbols.dom().contains(baselines[i].position.symbol@),
    ensures
        ({
            let b = baselines[i];
            let before = s.symbols[b.position.symbol@];
            let after = seeded_all(s, baselines).symbols[b.position.symbol@];
            let on = b.position.exchange;
            &&& seeded_all(s, baselines).symbols.dom() == s.symbols.dom()
            &&& after.seeded.dom().contains(on)
            &&& !before.seeded.dom().contains(on) ==> held(after, on) == b.position.size && after.seeded[on]
                == b.snapshot_req_ts
            &&& before.seeded.dom().contains(on) ==> held(after, on) == held(before, on) && after.seeded[on]
                == before.seeded[on]
        }),
    decreases baselines.len(),
{
    let rest = baselines.drop_last();
    let b = baselines[i];
    let name = b.position.symbol@;
    let on = b.position.exchange;
    if i < baselines.len() - 1 {
        assert(rest[i] == b);
        assert forall|j: int| 0 <= j < i implies (#[trigger] rest[j]).position.exchange != rest[i].position.exchange
            || rest[j].position.symbol@ != rest[i].position.symbol@ by {
            assert(rest[j] == baselines[j]);
        }
        every_leg_starts_from_its_first_baseline(s, rest, i);
    } else {
        assert forall|j: int| 0 <= j < rest.len() implies (#[trigger] rest[j]).position.exchange != on
            || rest[j].position.symbol@ != name by {
            assert(rest[j] == baselines[j]);
        }
        lemma_seeds_leave_other_legs(s, rest, name, on);
    }
    assert(seeded_all(s, baselines).symbols.dom() =~= seeded_all(s, rest).symbols.dom());
}

/// What is held on a venue is what its position says, and nothing where it has none.
pub proof fn what_is_held_is_the_position(s: SymbolModel, exchange: Exchange)
    ensures
        s.positions.dom().contains(exchange) ==> held(s, exchange) == s.positions[exchange],
        !s.positions.dom().contains(exchange) ==> held(s, exchange) == 0,
{
}

/// An order that is sent is under way from then on, as it is and with no word from the venue, if its
/// instrument is followed; no other order moves.
pub proof fn an_order_sent_is_under_way(s: StateModel, order: Order, created_at: Timestamp, name: Seq<char>, id: Seq<char>)
    ensures
        ({
            let after = with_pending(s, order, created_at);
            let p = after.symbols[order.symbol@].pending;
            &&& after.symbols.dom() == s.symbols.dom()
            &&& s.symbols.dom().contains(order.symbol@) ==> {
                &&& p.dom().contains(order.client_order_id@)
                &&& p[order.client_order_id@].order == order
                &&& p[order.client_order_id@].created_at == created_at
                &&& !p[order.client_order_id@].acknowledged
            }
            &&& !s.symbols.dom().contains(order.symbol@) ==> after == s
            &&& s.symbols.dom().contains(name) && (name != order.symbol@ || id != order.client_order_id@) ==> {
                &&& after.symbols[name].pending.dom().contains(id) == s.symbols[name].pending.dom().contains(id)
                &&& after.symbols[name].pending[id] == s.symbols[name].pending[id]
            }
        }),
{
    assert(with_pending(s, order, created_at).symbols.dom() =~= s.symbols.dom());
}

/// A list of the instruments holds each of them once, with what is known of it.
pub proof fn listed_instruments_are_those_known(list: Seq<(Symbol, SymbolState)>, s: StateModel, i: int, name: Seq<char>)
    requires
        lists_symbols(list, s),
    ensures
        0 <= i < list.len() ==> s.symbols.dom().contains(list[i].0@) && s.symbols[list[i].0@] == list[i].1@,
        s.symbols.dom().contains(name) ==> exists|j: int| 0 <= j < list.len() && (#[trigger] list[j]).0@ == name,
{
    table::a_list_holds_each_entry_of_its_map(list, table::entries_map(list), i, name);
    if s.symbols.dom().contains(name) {
        let j = choose|j: int| 0 <= j < list.len() && (#[trigger] list[j]).0.id() == name;
        assert(list[j].0@ == name);
    }
}

} // verus!
