# librepat

A verified library for portable appliance test (PAT) jobs. Tester exports
(Fluke FLK text, Seaward PrimeTest ASCII, Kewtech KT74/77 ASCII) are read by
one shared labelled-text pipeline whose behaviour is stated line by line as a
state machine; the job model, bulk date edits, appliance ordering and
selection, and the text that reports and certificates print are specified in
the same way and proved with Verus.

- `src/` is the library. Every function in it is verified except a few
  small wrappers that call std, `time` and `sha2` (marked
  `#[verifier::external_body]`), whose contracts are trusted.
- `tests/` exercises the library on concrete inputs.
- `app/` is a small command-line front end that imports an export and prints
  the report rows, the certificate content and the import warnings. It has
  no desktop window, PDF output or saved job files: the GUI toolkit, the PDF
  writer and the job storage crate are not available to this build, so the
  library states what the reports and certificate contain and leaves the
  drawing and storage out.
