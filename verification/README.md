# HouseOS desktop, verified

The desktop of a small hobby operating system, written in Verus: the window
manager and its applications (command console, calculator, notepad, file
explorer with a recycle bin, clipboard viewer, web page viewer), a FAT32
reader, a baseline JPEG decoder, the boot-information parser, and the
drawing code behind them.

- `src/` is the library. Every function in it is verified: free of panics
  and overflow, and held to a contract over mathematical models (spec
  functions, `Seq`, views of the data types). Laws that relate several
  functions stand as public proof functions beside them.
- `app/` is the kernel around the library: the entry point, port I/O, the
  interrupt and device set-up, the event loop, and the few steps that use
  floating point. It hands the library plain values and acts on what the
  library decides.
- `tests/` runs the library on concrete inputs.

Verify with Verus on `src/lib.rs`; build and test with cargo.
