# snack

The core of Snack, a Slack desktop client, written in Verus: every function
in `src/` carries a contract that the verifier proves.

## Layout

- `src/` — the verified library.
  - Slack data: `models` (API shapes, JSON values held as text plus shallow
    content), `request` (form fields of every Web API call), `channels`,
    `keyed` (id-keyed tables).
  - Workspace state: `state` (boot, counts, DMs, typing, presence, huddles,
    read state, VIPs), `timeline` (ordered message lists with optimistic
    sends), `reactions`, `sections` (Slack's linked list of sidebar
    sections), `sidebar` (which section lists a channel, which channels show,
    natural-order sorting).
  - Text and time: `text`, `ts`, `ts_order`, `dates`, `clock`, `emoji`,
    `urls`, `files`, `attachments`, `labels`, `mpdm`, `size`, `offsets`.
  - The UI's decisions: `composer` (formatting marks), `keys` (shortcuts),
    `message_view`, `selectable`, `activity`, `dms`, `panels`, `theme`,
    `bundle`.
- `tests/` — the library run on concrete values.
- `app/` — the program around the library: serde mirrors of the API types,
  floating-point geometry and colours, visit scores, and the macOS bundle
  check.

Outside crates are reached through small trusted wrappers whose contracts
state what the crates document: `chrono` (local and UTC dates), `emojis`
(shortcodes), `unicode-segmentation` (grapheme clusters), `uuid` (request
ids) and `serde_json` (string quoting).
