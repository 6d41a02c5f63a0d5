# adc_oversampling_enob

Simulator of ideal ADC quantization, analog dither and block averaging
(oversampling), which reports how averaging changes the effective resolution.

## Layout

- `src/` — the verified library: everything that decides or computes on
  integers and text.
  - `rng` — SplitMix64 generator, with proofs that its output mixer is a bijection.
  - `cli` — command-line parsing: options, integer values, comma-separated ratio
    lists and error messages; floating-point values are handed back as text.
  - `config` — default settings and the ordered validation of a configuration,
    including the sorted, duplicate-free ratio list that always holds the baseline 1.
  - `adc` — the resolution range and the largest code of an N-bit converter.
  - `signal`, `oversample`, `histogram`, `experiment` — ramp positions, block counts,
    histogram bin counting and the summary of raw codes.
  - `report`, `svg` — noise names, which error histograms are drawn, markup escaping.
- `app/` — the program: floating-point signal, noise, quantization, statistics,
  CSV and SVG output, and file I/O, built on the library.
- `tests/` — tests of the library.
