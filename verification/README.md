# neutrino

The decisions of a small Matrix homeserver, written and proved in Verus.

- `src/` is the library. Every public function has a contract. It works on plain values: strings,
  JSON values and the types of the library. What it needs from other crates (JSON text,
  identifiers, redaction, addresses, an ordered map) it calls through a few declared items, whose
  doc comments say what is taken on trust.
- `app/` is the server around it: locks, tasks, the store and HTTP.
- `tests/` runs the library on examples.

| module | what it decides |
| --- | --- |
| `validate`, `event`, `event_view` | which texts are events, and how they are shown to clients |
| `reception`, `send`, `inbound`, `edus` | what becomes of a transaction of another server |
| `client`, `join`, `engine` | what is sent to other servers, and what their answers mean |
| `key_store`, `e2ee`, `fed_keys` | device keys, one-time keys and messages to devices |
| `directory`, `query_directory` | aliases of rooms |
| `account_data`, `ephemeral`, `legacy_sync` | what a sync carries |
| `reply` | answers and errors |
| `json`, `codec`, `ids`, `text`, `strmap`, `lists` | values, texts and identifiers |

Functions named `law_...` state what holds over several calls.
