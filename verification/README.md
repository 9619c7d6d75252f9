# codeg

The verified core of the codeg desktop application's helpers.

- `src/text.rs` — string model (split, join, trim, ASCII case, decimal
  digits) with verified operations and the few trusted std wrappers.
- `src/shortcut.rs` — conversion between the frontend shortcut notation
  (`mod+shift+g`) and the `global_hotkey` notation (`CmdOrCtrl+Shift+KeyG`),
  and the decisions of the global-shortcut commands.
- `src/shortcut_laws.rs` — round-trip and stability laws of the conversion.
- `src/error.rs` — the command error type.
- `src/process.rs` — Windows `.cmd` shims, UTF-8 environment hints, `PATH`
  membership and Homebrew directories.
- `src/order.rs`, `src/version.rs`, `src/node_search.rs` — listing orders
  (by name bytes, or newest version first) and the order in which Node.js
  installations are searched.
- `app/` — the Tauri commands and process/`PATH` I/O around the library.
