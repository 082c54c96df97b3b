# beacon

Firmware logic of a satellite payload that photographs with an RGB and a thermal
camera and sends the pictures down as slow-scan television. It takes commands and
firmware updates over a CSP link that runs on KISS-framed serial lines.

- `src/` is the library. Everything in it is verified with Verus: each function
  carries a contract, and the properties that span functions stand as public
  proof functions whose names begin with `law_`.
  `src/timeline.rs` puts the uses of cameras, audio channel, link and clock in
  one order, over which the downlink is specified.
- `tests/` runs the library on concrete values, with the real SSTV encoder and
  decoder linked.
- `app/` is the program around the library: peripherals, flash, logging, and the
  floating-point tone curves and exposure control.

The library trusts a handful of items, each described where it is declared: the
Robot 36 encoder and decoder of the `sstv` crate, the triangle filter of the
`image` crate, and two functions of the standard library (`String::push`,
`sort_unstable`).
