# highlight_notifier

The verified core of a desktop notifier that pops up highlighted chat
messages in small always-on-top windows.

- `src/` is the library, verified with Verus: cleaning copied text
  (`text`), escaping it for HTML and building the clipboard HTML (`html`,
  `clipboard`), decoding form-encoded image addresses (`url`), base64 `data:`
  addresses for fetched images (`encoding`), popup window labels and the
  store of popup data (`popup`, `store`), window geometry decisions
  (`window`) and tray menu decisions (`tray`).
- `app/` is the Tauri shell around it: commands, windows, tray, HTTP and the
  system clipboard.
- `tests/` runs the library on concrete values.
