# tape-decode

Decoding of analogue video tape: what a decoder reads, which pulses of the
demodulated signal are which, where fields and lines begin, in what order fields
are put out, and the canonical numeric plans that carry a decoder's filters from
one machine to another bit for bit.

- `src/` is the library, verified with Verus. Samples, levels and filter
  coefficients are held as IEEE 754 bit patterns; `ieee.rs` orders them. Bounds
  that stand for real numbers are handed in as the whole numbers around them.
- `tests/` runs the library on concrete values.
- `app/` is ordinary Rust around the library: filter design and the other
  floating-point arithmetic, requests as JSON, plan files on disk, and the decode
  loop. Routines that are tuned to a machine (filter kernels, block
  demodulation, resampling) are supplied by the caller through a trait.
