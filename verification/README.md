# adsmt-emit-rocq

Writes a certificate of the adsmt SMT solver as a Rocq (Coq) source file. The file re-states every
proof step as a Rocq hypothesis or theorem, so that Rocq checks the proof again.

- `src/` is the emitter, verified with Verus. `document` puts the file together from
  `declarations` (sorts, datatypes, functions), `steps` (proof steps and their oracles), `symbols`
  (what the certificate mentions) and `term` (terms and types); `certificate` holds the data, `text`
  the operations on characters, `protocol` what an emitter program reports. Each function's contract
  gives the emitted text character by character. `laws` proves what holds of every file.
- `tests/` runs the emitter on concrete certificates.
- `app/` is the program around it: it reads a certificate in CBOR from standard input and writes the
  prover source to standard output. It needs the crates `adsmt-cert`, `adsmt-core` and
  `adsmt-emit-isabelle` of the adsmt project, which know the certificate's wire format, the kernel's
  terms and the classical modules.

The emitted files need Rocq 8.10 or later, and Ltac2 is the language of every proof in them.
