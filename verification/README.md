# hft_engine

A trading engine for several venues, with what it decides verified by Verus.

- `src/` is the library. Its functions have contracts, and Verus proves that the code keeps them, but
  for the calls named at the end. Of a strategy, a policy or a source of ids that a user implements,
  the library knows no more than what their own spec functions (`may_want`, `may_decide`, `may_give`
  and the like) say; by default that is nothing. The library does no I/O and waits for nothing: where
  the engine has to ask a venue, start a task or let time pass, a function says what is to be done,
  and another takes in what came of it.
- `app/` runs the library: actors, buses, timers, files, gauges and the traits that a venue's adapter
  implements.
- `tests/` runs the library on concrete values.

## Amounts

Nothing in the library is a floating-point number. An amount is a whole number of its smallest unit:

| what                     | unit    |
|--------------------------|---------|
| coins (`Quantity`)       | 10^-16  |
| prices, rates and lots   | 10^-8   |
| money (`Money`)          | 10^-24  |

A price times a quantity is money, exactly. The middle of a quote may lie between two units of a
price; what is held is valued at it all the same, to the unit of money. Sums and products that leave
the range of an `i128` stop at its ends.

## The parts

| module                          | what it decides |
|---------------------------------|-----------------|
| `domain`, `event`, `subscription` | what is traded, what is said about it, and which streams carry it |
| `amount`, `text`, `table`       | numbers, text and maps with exact contracts |
| `state`, `stats`                | what a strategy knows, and what an account has traded |
| `strategy`, `strategy_runner`   | what a strategy is asked, and what becomes of its orders |
| `scope`, `live::income_processor` | who hears an event |
| `live::outcome_processor`       | how orders reach a venue, and what its answers mean |
| `sim`, `live::paper_counter`    | simulated venues for simulated accounts |
| `live::position_reconcile`, `live::position_polling` | whether what the engine believes of its positions is still to be trusted |
| `live::metrics`                 | the figures of a running engine |
| `live::manager`                 | start and stop of the engine; how strategies are put to work and taken back |
| `live::supervisor`              | which instruments trade for real |
| `engine`, `funding`, `actor`, `coordinator` | the other forms of the engine |
| `bootstrap`                     | when the process ends, and with what result |

## What is trusted

Five calls are not proved: two of the standard library that make a random number, of which nothing is
promised; one that writes a text as a literal; and two on `reqwest::StatusCode` that say whether an
HTTP status is a success and how it is written.
