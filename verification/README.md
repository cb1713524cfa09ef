# skirk_desktop

The verified core of the Skirk desktop client, written in Verus.

`src/` is the library. Its functions carry contracts that Verus proves,
except for a few trusted items at the edge to other code, whose contracts
Verus takes as given:

- `text::push_char`, over `String::push`;
- `config_json::json_check` and `config_json::json_string_at`, over
  `serde_json::from_str`, `Value::pointer` and `Value::as_str`; their results
  are stated through the names `json_parse_error` and `json_str_at`;
- `json::json_pretty`, over `serde_json::to_string_pretty`, stated through
  the name `pretty_json`, and `json::to_serde_value`, which copies a
  document into a `serde_json::Value` and states nothing;
- the declaration of the type `serde_json::Value`.

The modules:

- `text`: character sequences, trimming, searching, splitting, decimal text.
- `inline_config`: finding a one-line `skirk:` configuration in pasted text.
- `performance`: the polling and worker presets and the custom ranges.
- `ip`, `ipv6`: parsing IP address text and its canonical display, and the
  proof that canonical text reads back as the same address.
- `net`: listener, LAN and loopback addresses and the Google control IP.
- `profile`: profiles and settings: import, replace, delete, select.
- `config_json`: fields read out of a client configuration (through
  `serde_json`).
- `platform`: per-platform sidecar names, VPN availability and privileges.
- `paths`: joining and comparing paths as each platform does (Windows
  prefixes included), and the client's file paths.
- `sidecar`: where the client and tunnel sidecars are looked for.
- `json`: a JSON document as the library builds it; its text is written
  by `serde_json`.
- `tunnel`: the VPN tunnel sidecar's configuration document.
- `runtime`: the connection state machine and the outside steps that each
  transition asks for.

`app/` is the Tauri shell around the library: commands, files, processes,
sockets and the Windows system proxy. `tests/` exercises the library.
