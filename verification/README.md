# heston_calibration

Calibration of the Heston stochastic volatility model on an implied
volatility surface: Black-Scholes pricing and implied volatility, Heston
pricing by Fourier inversion (Carr-Madan) with the composite Simpson rule,
and a grid search followed by Nelder-Mead local searches.

Layout:

- `src/` — the verified library: everything of the program that is
  not floating-point arithmetic.
  - `calibration` — the search plan (grid sizes, number of local searches,
    iteration budget), the walk over the parameter grid, the choice of the
    starting points (the lowest costs, stable among ties) and of the winning
    local search (a scan that keeps the current run unless the next one is
    strictly cheaper or either cost is not a number); costs enter as integer
    keys that order as the costs do.
  - `simpson` — sub-interval count and weights of the Simpson rule, with the
    proof that the rule is exact for polynomials up to degree three.
  - `cli` — the command line (`--help`/`-h`, `--ticker SYMBOL`,
    `--realistic`) and the choice of the market data source.
  - `text` — trimming as `str::trim` does it, and the `SPOT=` line of the
    quote fetcher's report.
  - `surface_file` — the quote file (`strike,tau,implied_vol`), read and
    written through the `csv` crate, with the proof that reading a saved
    file gives back the saved quotes.
- `app/` — the program: the floating-point models (Black-Scholes, Heston,
  Fourier pricing, the calibration objective and Nelder-Mead through
  `argmin`), file and process I/O, and `main`.
- `tests/` — tests of the library on concrete values.
