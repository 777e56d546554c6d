# core-probe

A Linux tool that finds unstable CPU cores on AMD systems: it runs mprime
on one physical core at a time, watches mprime's results file and the
kernel's machine-check log, and reports which cores fail, numbered as the
BIOS Curve Optimizer numbers them.

## Layout

- `src/` is the library, written in Verus. Every function carries a
  contract and is proved against it: the parsers (mprime results, kernel
  MCE lines, `/proc/cpuinfo`, CPU lists, HII form packages, AOD_SETUP
  Curve Optimizer bytes), the test-cycle and benchmark state machines, the
  report and benchmark table renderers, the command-line option handling
  and the front end's state updates and texts. The public `lemma_*` proof
  functions state properties that span several functions (BIOS numbering
  round trip, test order covering every core, invariants kept by every
  step of the state machines, the benchmark winner being the fastest
  preset, and so on).
- `app/` is the program around the library: argument parsing, file and
  process I/O, signals, threads and logging. It performs the actions the
  library's state machines ask for and hands back what happened.
- `tests/` holds the tests of the library.

Calls into outside crates (`regex`, `uuid`, `fast_qr`, `semver`) sit behind
small trusted wrappers whose contracts say what the crates document.
