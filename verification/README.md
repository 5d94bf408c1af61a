# tetanes

Memory, bank switching and localized text lookup for a NES emulator, verified with Verus.

- `src/mem/` — `RamState` (start-up fill of RAM), `Memory` (ROM/RAM bytes),
  `ConstSlice` (fixed arrays indexed modulo a power-of-two length), `Banks`
  (address-to-page translation with per-slot access rights), and the `Read`/`Write`
  traits. `BanksView` is the abstract state that the contracts and the proof
  functions of `banks.rs` speak of.
- `src/localization.rs` — translation documents (`TextTree`) parsed from JSON through
  `serde_json`, path splitting, lookups and the text cache (`LocalizedTexts`).
- `src/text.rs` — string equality.
- `app/` — serde and `Display` forms of the library's types, reading the translation
  files, and the process-wide translation state.
- `tests/` — tests run against the compiled library.
