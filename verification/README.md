# plato_anomaly

Anomaly detection for tile streams (z-score, IQR, MAD, Grubbs, rolling,
contextual, spectral, seasonal and ensemble detectors).

- `src/` is the verified library (Verus): the discrete decisions of the
  detectors — rolling-window and trend-window geometry, when a seasonal
  decomposition applies, how the trend edges are filled, how many points fall
  on each phase, quartile and median positions, which detector each ensemble
  method runs, vote tallying and the majority rule — with their contracts and
  the laws they obey.
- `app/` holds the numeric detectors on `f64` values, which call the library
  for those decisions, and the serialisable types.
- `tests/` exercises the library.
