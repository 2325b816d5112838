# dhancred_trading_app

Market data feeds of four brokers (Delta, Fyers, DBInternational and Angel One), candles made
from their ticks, and backtests over those candles.

- `src/` is the library: what is decided and reckoned, with contracts that Verus proves.
  - `feeder/` has instruments, prices, candles, sessions of exchanges and the universe of
    instruments that is followed.
  - `adapters/` has what is particular to a broker: its logins, its master of instruments, its
    messages, and the loop over its ticks as steps.
  - `backtest/` has the positions, the candles and the reports of a backtest.
  - `admin`, `login_scheduler`, `startup`, `config`, `dotenv` have the rules of the program
    around the feeds.
  - `text`, `bytes`, `order`, `pairs`, `json`, `binary64`, `calendar`, `encodings` are what
    the rest is built on.
- `app/` is the program: files, sockets, threads, the database and floating-point arithmetic.
- `tests/` runs the library on concrete values.

Floating-point numbers are held by their bits (`binary64::Real`). They are compared in the
library; sums, products and quotients are computed in `app/` and handed in.
