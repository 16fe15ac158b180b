//! The figures that the funding engine publishes.

use vstd::prelude::*;
use vstd::string::StringExecFns;
use crate::amount;
use crate::config::MetricsConfig;
use crate::domain;
use crate::domain::{Exchange, Money, Quantity, Side, Symbol};
use crate::event::{AccountData, IncomeEvent, MarketData};
use crate::funding::executor::{Feed, PrivateSinks, PublicSinks};
use crate::table;
use crate::table::{Key, Table};
use crate::text;
use crate::text::{joined, same_text};

verus! {

/// How the figures' names begin, and under which name they are pushed.
pub const METRIC_PREFIX: &'static str = "funding_arb";

/// Which figure.
#[derive(Clone, Copy, Debug, PartialEq, Eq, Structural)]
pub enum Metric {
    FundingRate,
    UsdtBalance,
    PositionSize,
}

/// What a figure is about.
#[derive(Debug)]
pub enum Labels {
    Venue(Exchange),
    Leg(Exchange, Symbol),
    Position(Exchange, Symbol, Side),
}

/// A figure with its value: a rate in units of 10^-8, money in units of 10^-24, coins in units of
/// 10^-16.
#[derive(Debug)]
pub struct Sample {
    pub metric: Metric,
    pub labels: Labels,
    pub value: i128,
}

/// A figure's name.
pub open spec fn metric_name(m: Metric) -> Seq<char> {
    match m {
        Metric::FundingRate => "funding_arb_funding_rate"@,
        Metric::UsdtBalance => "funding_arb_usdt_balance"@,
        Metric::PositionSize => "funding_arb_position_size"@,
    }
}

/// What a figure says.
pub open spec fn metric_help(m: Metric) -> Seq<char> {
    match m {
        Metric::FundingRate => "Funding rate for each exchange and symbol"@,
        Metric::UsdtBalance => "USDT balance for each exchange"@,
        Metric::PositionSize => "Position size for each exchange and symbol"@,
    }
}

/// The names of a figure's labels.
pub open spec fn label_names(m: Metric) -> Seq<Seq<char>> {
    match m {
        Metric::FundingRate => seq!["exchange"@, "symbol"@],
        Metric::UsdtBalance => seq!["exchange"@],
        Metric::PositionSize => seq!["exchange"@, "symbol"@, "side"@],
    }
}

impl Metric {
    /// The names of the figure's labels.
    pub fn labels(&self) -> (v: Vec<&'static str>)
        ensures
            v@.map_values(|s: &'static str| s@) == label_names(*self),
    {
        let mut v: Vec<&'static str> = Vec::new();
        v.push("exchange");
        match self {
            Metric::FundingRate => {
                v.push("symbol");
            },
            Metric::UsdtBalance => {},
            Metric::PositionSize => {
                v.push("symbol");
                v.push("side");
            },
        }
        assert(v@.map_values(|s: &'static str| s@) =~= label_names(*self));
        v
    }

    /// The figure's name.
    pub fn name(&self) -> (s: &'static str)
        ensures
            s@ == metric_name(*self),
    {
        match self {
            Metric::FundingRate => "funding_arb_funding_rate",
            Metric::UsdtBalance => "funding_arb_usdt_balance",
            Metric::PositionSize => "funding_arb_position_size",
        }
    }

    /// What the figure says.
    pub fn help(&self) -> (s: &'static str)
        ensures
            s@ == metric_help(*self),
    {
        match self {
            Metric::FundingRate => "Funding rate for each exchange and symbol",
            Metric::UsdtBalance => "USDT balance for each exchange",
            Metric::PositionSize => "Position size for each exchange and symbol",
        }
    }
}

/// A side as a label.
pub open spec fn side_text(side: Side) -> Seq<char> {
    match side {
        Side::Long => "long"@,
        Side::Short => "short"@,
    }
}

/// A side as a label.
pub fn side_label(side: Side) -> (s: &'static str)
    ensures
        s@ == side_text(side),
{
    match side {
        Side::Long => "long",
        Side::Short => "short",
    }
}

/// The labels as text.
pub open spec fn label_texts(l: Labels) -> Seq<Seq<char>> {
    match l {
        Labels::Venue(e) => seq![domain::exchange_name(e)],
        Labels::Leg(e, s) => seq![domain::exchange_name(e), s@],
        Labels::Position(e, s, side) => seq![domain::exchange_name(e), s@, side_text(side)],
    }
}

impl Labels {
    /// The labels as text.
    pub fn values(&self) -> (v: Vec<String>)
        ensures
            text::views(v@) == label_texts(*self),
    {
        let mut v: Vec<String> = Vec::new();
        match self {
            Labels::Venue(e) => {
                v.push(e.name().to_owned());
            },
            Labels::Leg(e, s) => {
                v.push(e.name().to_owned());
                v.push(s.clone());
            },
            Labels::Position(e, s, side) => {
                v.push(e.name().to_owned());
                v.push(s.clone());
                v.push(side_label(*side).to_owned());
            },
        }
        assert(text::views(v@) =~= label_texts(*self));
        v
    }
}

/// What a figure is about.
pub enum LabelKey {
    Venue(Exchange),
    Leg(Exchange, Seq<char>),
    Position(Exchange, Seq<char>, Side),
}

impl View for Labels {
    type V = LabelKey;

    open spec fn view(&self) -> LabelKey {
        match *self {
            Labels::Venue(e) => LabelKey::Venue(e),
            Labels::Leg(e, s) => LabelKey::Leg(e, s@),
            Labels::Position(e, s, side) => LabelKey::Position(e, s@, side),
        }
    }
}

impl Key for (Metric, Labels) {
    type Id = (Metric, LabelKey);

    open spec fn id(&self) -> (Metric, LabelKey) {
        (self.0, self.1@)
    }

    fn same(&self, other: &Self) -> (b: bool) {
        if self.0 != other.0 {
            return false;
        }
        match (&self.1, &other.1) {
            (Labels::Venue(a), Labels::Venue(b)) => *a == *b,
            (Labels::Leg(a, s), Labels::Leg(b, t)) => *a == *b && *s == *t,
            (Labels::Position(a, s, x), Labels::Position(b, t, y)) => *a == *b && *s == *t && *x == *y,
            _ => false,
        }
    }

    fn copy(&self) -> (k: Self) {
        let labels = match &self.1 {
            Labels::Venue(e) => Labels::Venue(*e),
            Labels::Leg(e, s) => Labels::Leg(*e, s.clone()),
            Labels::Position(e, s, side) => Labels::Position(*e, s.clone(), *side),
        };
        (self.0, labels)
    }
}

/// Whether a figure is about such a thing.
pub open spec fn suits(metric: Metric, labels: LabelKey) -> bool {
    match metric {
        Metric::FundingRate => labels is Leg,
        Metric::UsdtBalance => labels is Venue,
        Metric::PositionSize => labels is Position,
    }
}

/// A figure that suits its labels has a value for each of them.
pub proof fn a_sample_fills_its_labels(s: Sample)
    requires
        suits(s.metric, s.labels@),
    ensures
        label_texts(s.labels).len() == label_names(s.metric).len(),
{
}

/// The channels of instruments that carry one kind of thing.
pub open spec fn rate_feeds(exchange: Exchange, symbols: Seq<Symbol>) -> Seq<Feed> {
    symbols.map_values(|s: Symbol| Feed::FundingRate(exchange, s))
}

/// The channels of instruments that carry positions.
pub open spec fn position_feeds(exchange: Exchange, symbols: Seq<Symbol>) -> Seq<Feed> {
    symbols.map_values(|s: Symbol| Feed::Position(exchange, s))
}

/// The public channels that figures are taken from.
pub open spec fn public_sources(sinks: Seq<PublicSinks>) -> Seq<Feed>
    decreases sinks.len(),
{
    if sinks.len() == 0 {
        Seq::empty()
    } else {
        public_sources(sinks.drop_last()) + rate_feeds(sinks.last().exchange, sinks.last().funding_rate@)
    }
}

/// The private channels that figures are taken from.
pub open spec fn private_sources(sinks: Seq<PrivateSinks>) -> Seq<Feed>
    decreases sinks.len(),
{
    if sinks.len() == 0 {
        Seq::empty()
    } else {
        private_sources(sinks.drop_last()).push(Feed::Balance(sinks.last().exchange)) + position_feeds(
            sinks.last().exchange,
            sinks.last().position@,
        )
    }
}

/// What came out of a channel.
#[derive(Clone, Debug)]
pub enum Heard {
    FundingRate(i128),
    Balance { asset: String, available: Money },
    Position { side: Side, size: Quantity },
}

/// What an event says to the figures, if it says anything.
pub open spec fn is_heard(event: IncomeEvent, heard: Option<Heard>) -> bool {
    match event {
        IncomeEvent::Market(e) => match e.data {
            MarketData::FundingRate(rate) => heard == Some(Heard::FundingRate(rate.rate)),
            _ => heard is None,
        },
        IncomeEvent::Account(e) => match e.data {
            AccountData::Position(p) => heard == Some(
                Heard::Position {
                    side: if p.size < 0 {
                        Side::Short
                    } else {
                        Side::Long
                    },
                    size: amount::clamp(amount::abs(p.size as int)) as i128,
                },
            ),
            AccountData::Balance { asset, available, .. } => heard matches Some(
                Heard::Balance { asset: a, available: v },
            ) && a@ == asset@ && v == available,
            _ => heard is None,
        },
    }
}

/// Reads off an event what it says to the figures.
pub fn heard_in(event: &IncomeEvent) -> (heard: Option<Heard>)
    ensures
        is_heard(*event, heard),
{
    match event {
        IncomeEvent::Market(e) => match &e.data {
            MarketData::FundingRate(rate) => Some(Heard::FundingRate(rate.rate)),
            _ => None,
        },
        IncomeEvent::Account(e) => match &e.data {
            AccountData::Position(p) => {
                let side = if p.size < 0 {
                    Side::Short
                } else {
                    Side::Long
                };
                Some(Heard::Position { side, size: amount::size_of(p.size) })
            },
            AccountData::Balance { asset, available, .. } => {
                Some(Heard::Balance { asset: asset.clone(), available: *available })
            },
            _ => None,
        },
    }
}

/// The figures after something was heard on a channel. Of balances only USDT is published; on a
/// channel that carries something else nothing is.
pub open spec fn heard_on(
    m: Map<(Metric, LabelKey), i128>,
    feed: Feed,
    heard: Heard,
) -> Map<(Metric, LabelKey), i128> {
    match (feed, heard) {
        (Feed::FundingRate(e, s), Heard::FundingRate(rate)) => m.insert(
            (Metric::FundingRate, LabelKey::Leg(e, s@)),
            rate,
        ),
        (Feed::Position(e, s), Heard::Position { side, size }) => m.insert(
            (Metric::PositionSize, LabelKey::Position(e, s@, side)),
            size,
        ),
        (Feed::Balance(e), Heard::Balance { asset, available }) => if asset@ == "USDT"@ {
            m.insert((Metric::UsdtBalance, LabelKey::Venue(e)), available)
        } else {
            m
        },
        _ => m,
    }
}

/// The figures, each with its last value.
pub struct Metrics {
    values: Table<(Metric, Labels), i128>,
}

impl View for Metrics {
    type V = Map<(Metric, LabelKey), i128>;

    closed spec fn view(&self) -> Map<(Metric, LabelKey), i128> {
        self.values@
    }
}

impl Metrics {
    /// The figures, in the order in which they first got a value.
    pub closed spec fn list(&self) -> Seq<((Metric, Labels), i128)> {
        self.values.entries()
    }

    #[verifier::type_invariant]
    spec fn inv(self) -> bool {
        forall|k: (Metric, LabelKey)| #[trigger] self.values@.dom().contains(k) ==> suits(k.0, k.1)
    }

    /// No figure has a value.
    pub fn new() -> (m: Self)
        ensures
            m@ == Map::<(Metric, LabelKey), i128>::empty(),
    {
        Metrics { values: Table::new() }
    }

    fn set(&mut self, metric: Metric, labels: Labels, value: i128)
        requires
            suits(metric, labels@),
        ensures
            final(self)@ == old(self)@.insert((metric, labels@), value),
    {
        proof {
            use_type_invariant(&*self);
        }
        let mut values: Table<(Metric, Labels), i128> = Table::new();
        std::mem::swap(&mut values, &mut self.values);
        values.insert((metric, labels), value);
        self.values = values;
    }

    /// A funding rate, in units of 10^-8.
    pub fn set_funding_rate(&mut self, exchange: Exchange, symbol: &Symbol, rate: i128)
        ensures
            final(self)@ == old(self)@.insert((Metric::FundingRate, LabelKey::Leg(exchange, symbol@)), rate),
    {
        self.set(Metric::FundingRate, Labels::Leg(exchange, symbol.clone()), rate);
    }

    /// How much USDT there is on a venue.
    pub fn set_usdt_balance(&mut self, exchange: Exchange, balance: Money)
        ensures
            final(self)@ == old(self)@.insert((Metric::UsdtBalance, LabelKey::Venue(exchange)), balance),
    {
        self.set(Metric::UsdtBalance, Labels::Venue(exchange), balance);
    }

    /// How large a position is.
    pub fn set_position_size(&mut self, exchange: Exchange, symbol: &Symbol, side: Side, size: Quantity)
        ensures
            final(self)@ == old(self)@.insert(
                (Metric::PositionSize, LabelKey::Position(exchange, symbol@, side)),
                size,
            ),
    {
        self.set(Metric::PositionSize, Labels::Position(exchange, symbol.clone(), side), size);
    }

    /// Takes in what came out of a channel.
    pub fn hear(&mut self, feed: &Feed, heard: &Heard)
        ensures
            final(self)@ == heard_on(old(self)@, *feed, *heard),
    {
        match (feed, heard) {
            (Feed::FundingRate(e, s), Heard::FundingRate(rate)) => self.set_funding_rate(*e, s, *rate),
            (Feed::Position(e, s), Heard::Position { side, size }) => {
                self.set_position_size(*e, s, *side, *size);
            },
            (Feed::Balance(e), Heard::Balance { asset, available }) => {
                if same_text(asset.as_str(), "USDT") {
                    self.set_usdt_balance(*e, *available);
                }
            },
            _ => {},
        }
    }

    /// Each figure that has a value, with all of its labels.
    pub fn samples(&self) -> (v: Vec<Sample>)
        ensures
            v@.len() == self.list().len(),
            forall|i: int| 0 <= i < v@.len() ==> {
                let (key, value) = self.list()[i];
                #[trigger] v@[i] == (Sample { metric: key.0, labels: key.1, value })
            },
            table::lists(self.list(), self@),
            forall|i: int| 0 <= i < v@.len() ==> suits((#[trigger] v@[i]).metric, v@[i].labels@),
    {
        proof {
            use_type_invariant(self);
            use_type_invariant(&self.values);
        }
        let ghost all = self.values.entries();
        let n = self.values.len();
        let mut v: Vec<Sample> = Vec::new();
        let mut i: usize = 0;
        while i < n
            invariant
                i <= n,
                n == all.len(),
                all == self.values.entries(),
                v@.len() == i,
                forall|j: int| 0 <= j < i ==> #[trigger] v@[j] == (Sample { metric: all[j].0.0, labels: all[j].0.1, value: all[j].1 }),
            decreases n - i,
        {
            let (metric, labels) = self.values.key_at(i).copy();
            v.push(Sample { metric, labels, value: *self.values.value_at(i) });
            i = i + 1;
        }
        assert forall|i: int| 0 <= i < v@.len() implies suits((#[trigger] v@[i]).metric, v@[i].labels@) by {
            table::lemma_entry_in_map(all, i);
            assert(self.values@.dom().contains(all[i].0.id()));
        }
        v
    }

    /// How often figures are pushed, in seconds, if they are published at all.
    pub fn start(&self, config: &MetricsConfig) -> (r: Option<u64>)
        ensures
            r == (if config.enabled {
                Some(config.push_interval_secs)
            } else {
                None
            }),
    {
        if config.enabled {
            Some(config.push_interval_secs)
        } else {
            None
        }
    }

    /// The channels that figures are taken from: every funding rate, balance and position that is
    /// carried.
    pub fn start_subscription(&self, public_sinks: &Vec<PublicSinks>, private_sinks: &Vec<PrivateSinks>) -> (v: Vec<Feed>)
        ensures
            v@ == public_sources(public_sinks@) + private_sources(private_sinks@),
    {
        let mut v: Vec<Feed> = Vec::new();
        let mut i: usize = 0;
        while i < public_sinks.len()
            invariant
                i <= public_sinks.len(),
                v@ == public_sources(public_sinks@.take(i as int)),
            decreases public_sinks.len() - i,
        {
            assert(public_sinks@.take(i + 1).drop_last() =~= public_sinks@.take(i as int));
            let sinks = &public_sinks[i];
            let ghost start = v@;
            let mut k: usize = 0;
            while k < sinks.funding_rate.len()
                invariant
                    k <= sinks.funding_rate.len(),
                    v@ == start + rate_feeds(sinks.exchange, sinks.funding_rate@.take(k as int)),
                decreases sinks.funding_rate.len() - k,
            {
                v.push(Feed::FundingRate(sinks.exchange, sinks.funding_rate[k].clone()));
                assert(v@ =~= start + rate_feeds(sinks.exchange, sinks.funding_rate@.take(k + 1)));
                k = k + 1;
            }
            assert(sinks.funding_rate@.take(k as int) =~= sinks.funding_rate@);
            i = i + 1;
        }
        assert(public_sinks@.take(i as int) =~= public_sinks@);
        let ghost public = v@;
        i = 0;
        assert(v@ =~= public + private_sources(private_sinks@.take(0)));
        while i < private_sinks.len()
            invariant
                i <= private_sinks.len(),
                v@ == public + private_sources(private_sinks@.take(i as int)),
            decreases private_sinks.len() - i,
        {
            assert(private_sinks@.take(i + 1).drop_last() =~= private_sinks@.take(i as int));
            let sinks = &private_sinks[i];
            v.push(Feed::Balance(sinks.exchange));
            let ghost start = v@;
            let mut k: usize = 0;
            while k < sinks.position.len()
                invariant
                    k <= sinks.position.len(),
                    v@ == start + position_feeds(sinks.exchange, sinks.position@.take(k as int)),
                decreases sinks.position.len() - k,
            {
                v.push(Feed::Position(sinks.exchange, sinks.position[k].clone()));
                assert(v@ =~= start + position_feeds(sinks.exchange, sinks.position@.take(k + 1)));
                k = k + 1;
            }
            assert(sinks.position@.take(k as int) =~= sinks.position@);
            assert(v@ =~= public + private_sources(private_sinks@.take(i + 1)));
            i = i + 1;
        }
        assert(private_sinks@.take(i as int) =~= private_sinks@);
        v
    }
}

/// Whether a channel carries what a figure says.
pub open spec fn carries(feed: Feed, k: (Metric, LabelKey)) -> bool {
    match feed {
        Feed::FundingRate(e, s) => k == (Metric::FundingRate, LabelKey::Leg(e, s@)),
        Feed::Position(e, s) => k.0 == Metric::PositionSize && (k.1 == LabelKey::Position(e, s@, Side::Long) || k.1
            == LabelKey::Position(e, s@, Side::Short)),
        Feed::Balance(e) => k == (Metric::UsdtBalance, LabelKey::Venue(e)),
        _ => false,
    }
}

/// What comes out of a channel leaves every figure alone that the channel does not carry.
pub proof fn figures_are_kept_apart(
    m: Map<(Metric, LabelKey), i128>,
    feed: Feed,
    heard: Heard,
    k: (Metric, LabelKey),
)
    requires
        !carries(feed, k),
    ensures
        heard_on(m, feed, heard).dom().contains(k) == m.dom().contains(k),
        m.dom().contains(k) ==> heard_on(m, feed, heard)[k] == m[k],
{
}

/// Where figures are pushed.
pub fn push_url(pushgateway_url: &str) -> (s: String)
    ensures
        s@ == pushgateway_url@ + "/metrics/job/"@ + METRIC_PREFIX@,
{
    let mut s = joined(pushgateway_url, "/metrics/job/");
    s.append(METRIC_PREFIX);
    s
}

/// What an HTTP status with this number is called.
pub uninterp spec fn status_reason(code: u16) -> Seq<char>;

/// Calls `reqwest::StatusCode::is_success`: whether a status number says that the request
/// succeeded, which those from 200 to 299 do. A number below 100 or above 999 is no status.
#[verifier::external_body]
fn is_success(code: u16) -> (r: Option<bool>)
    ensures
        r == (if 100 <= code <= 999 {
            Some(200 <= code <= 299)
        } else {
            None
        }),
{
    reqwest::StatusCode::from_u16(code).ok().map(|s| s.is_success())
}

/// Calls the `Display` of `reqwest::StatusCode`: the status as text, which is its number, a space
/// and what it is called. What each number is called is left to that crate. A number below 100 or
/// above 999 is no status.
#[verifier::external_body]
fn status_text(code: u16) -> (s: Option<String>)
    ensures
        match s {
            Some(s) => 100 <= code <= 999 && s@ == text::digits(code as nat) + " "@ + status_reason(code),
            None => !(100 <= code <= 999),
        },
{
    reqwest::StatusCode::from_u16(code).ok().map(|s| s.to_string())
}

/// How it is told that figures were not taken.
pub fn push_error(status: &str) -> (s: String)
    ensures
        s@ == "Pushgateway returned status: "@ + status@,
{
    joined("Pushgateway returned status: ", status)
}

/// What the answer to a push means.
pub fn push_outcome(code: u16) -> (res: Result<(), String>)
    requires
        100 <= code <= 999,
    ensures
        match res {
            Ok(()) => 200 <= code <= 299,
            Err(s) => !(200 <= code <= 299) && s@ == "Pushgateway returned status: "@ + (text::digits(code as nat) + " "@
                + status_reason(code)),
        },
{
    let ok = match is_success(code) {
        Some(b) => b,
        None => false,
    };
    if ok {
        return Ok(());
    }
    match status_text(code) {
        Some(status) => Err(push_error(status.as_str())),
        None => Err(push_error("")),
    }
}

/// What is heard of a position is its size and which side it is on: nothing or more is long, less than
/// nothing short.
pub proof fn a_position_is_heard_by_its_side(event: IncomeEvent, heard: Option<Heard>)
    requires
        is_heard(event, heard),
    ensures
        (event is Account && event->Account_0.data is Position && event->Account_0.data->Position_0.size > i128::MIN) ==> {
            let size = event->Account_0.data->Position_0.size;
            &&& heard is Some
            &&& heard->0 is Position
            &&& heard->0->Position_size >= 0
            &&& domain::signed_size(heard->0->Position_side, heard->0->Position_size) == size
            &&& size == 0 ==> heard->0->Position_side is Long
        },
        event is Market && event->Market_0.data is FundingRate ==> heard == Some(
            Heard::FundingRate(event->Market_0.data->FundingRate_0.rate),
        ),
        event is Account && event->Account_0.data is Balance ==> {
            &&& heard is Some
            &&& heard->0 is Balance
            &&& heard->0->Balance_available == event->Account_0.data->Balance_available
            &&& heard->0->Balance_asset@ == event->Account_0.data->Balance_asset@
        },
{
}

/// A figure that is heard is kept under its own name and labels: a rate under its leg, a position under
/// its leg and side, and a balance under its venue where it is of USDT, and not at all where it is not.
pub proof fn a_figure_is_kept_where_it_belongs(m: Map<(Metric, LabelKey), i128>, feed: Feed, heard: Heard)
    ensures
        feed is FundingRate && heard is FundingRate ==> {
            let k = (Metric::FundingRate, LabelKey::Leg(feed->FundingRate_0, feed->FundingRate_1@));
            heard_on(m, feed, heard).dom().contains(k) && heard_on(m, feed, heard)[k] == heard->FundingRate_0
        },
        feed is Position && heard is Position ==> {
            let k = (
                Metric::PositionSize,
                LabelKey::Position(feed->Position_0, feed->Position_1@, heard->Position_side),
            );
            heard_on(m, feed, heard).dom().contains(k) && heard_on(m, feed, heard)[k] == heard->Position_size
        },
        feed is Balance && heard is Balance && heard->Balance_asset@ == "USDT"@ ==> {
            let k = (Metric::UsdtBalance, LabelKey::Venue(feed->Balance_0));
            heard_on(m, feed, heard).dom().contains(k) && heard_on(m, feed, heard)[k] == heard->Balance_available
        },
        feed is Balance && heard is Balance && heard->Balance_asset@ != "USDT"@ ==> heard_on(m, feed, heard) == m,
{
}

/// No two figures share a name.
pub proof fn figures_have_names_of_their_own(a: Metric, b: Metric)
    requires
        a != b,
    ensures
        metric_name(a) != metric_name(b),
{
    reveal_strlit("funding_arb_funding_rate");
    reveal_strlit("funding_arb_usdt_balance");
    reveal_strlit("funding_arb_position_size");
    assert(metric_name(Metric::FundingRate)[12] == 'f');
    assert(metric_name(Metric::UsdtBalance)[12] == 'u');
    assert(metric_name(Metric::PositionSize)[12] == 'p');
}

/// The figures listen to the funding rates and the positions of every instrument, and to the balance of
/// every venue, that there are channels for.
pub proof fn figures_listen_to_every_channel(
    public_sinks: Seq<PublicSinks>,
    private_sinks: Seq<PrivateSinks>,
    i: int,
    j: int,
)
    ensures
        0 <= i < public_sinks.len() && 0 <= j < public_sinks[i].funding_rate@.len() ==> public_sources(
            public_sinks,
        ).contains(Feed::FundingRate(public_sinks[i].exchange, public_sinks[i].funding_rate@[j])),
        0 <= i < private_sinks.len() ==> private_sources(private_sinks).contains(
            Feed::Balance(private_sinks[i].exchange),
        ),
        0 <= i < private_sinks.len() && 0 <= j < private_sinks[i].position@.len() ==> private_sources(
            private_sinks,
        ).contains(Feed::Position(private_sinks[i].exchange, private_sinks[i].position@[j])),
    decreases public_sinks.len() + private_sinks.len(),
{
    if public_sinks.len() > 0 {
        let rest = public_sinks.drop_last();
        let earlier = public_sources(rest);
        let all = public_sources(public_sinks);
        if i < rest.len() {
            figures_listen_to_every_channel(rest, private_sinks.take(0), i, j);
            assert(0 <= i ==> rest[i] == public_sinks[i]);
            lemma_still_there(earlier, all);
        } else if i == rest.len() && 0 <= j < public_sinks[i].funding_rate@.len() {
            assert(public_sinks[i] == public_sinks.last());
            assert(all[earlier.len() + j] == Feed::FundingRate(public_sinks[i].exchange, public_sinks[i].funding_rate@[j]));
        }
    }
    if private_sinks.len() > 0 {
        let rest = private_sinks.drop_last();
        let earlier = private_sources(rest);
        let all = private_sources(private_sinks);
        if i < rest.len() {
            figures_listen_to_every_channel(public_sinks.take(0), rest, i, j);
            assert(0 <= i ==> rest[i] == private_sinks[i]);
            lemma_still_there(earlier, all);
        } else if i == rest.len() {
            assert(private_sinks[i] == private_sinks.last());
            assert(all[earlier.len() as int] == Feed::Balance(private_sinks[i].exchange));
            if 0 <= j < private_sinks[i].position@.len() {
                assert(all[earlier.len() + 1 + j] == Feed::Position(
                    private_sinks[i].exchange,
                    private_sinks[i].position@[j],
                ));
            }
        }
    }
}

proof fn lemma_still_there(earlier: Seq<Feed>, all: Seq<Feed>)
    requires
        earlier.len() <= all.len(),
        forall|p: int| 0 <= p < earlier.len() ==> all[p] == #[trigger] earlier[p],
    ensures
        forall|f: Feed| #[trigger] earlier.contains(f) ==> all.contains(f),
{
    assert forall|f: Feed| #[trigger] earlier.contains(f) implies all.contains(f) by {
        let p = choose|p: int| 0 <= p < earlier.len() && earlier[p] == f;
        assert(all[p] == earlier[p]);
    }
}

} // verus!
