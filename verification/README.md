# agentmsg

Cross-host messaging between agents over MQTT. Every message carries an
ML-DSA-65 signature that the receiver checks against its own trust store; the
broker is trusted with nothing. Payloads can be sealed with ML-KEM-768 and
AES-256-GCM, and a human authority can attach single-use grants.

The library under `src/` is written in Verus: what each function returns or
changes is stated in its contract and proved.

| Modules | What they hold |
|---|---|
| `wire`, `json` | wrapper and inner message, their exact bytes, key ids and fingerprints |
| `crypto`, `kem`, `clock` | signatures, encryption, time |
| `identity`, `authority`, `token`, `pair` | keys, the tokens that carry them, pairing codes |
| `trust`, `grant`, `names` | known agents and authorities, grants, the sorted map behind them |
| `message` | building messages, and the verification that every inbound one passes |
| `store` | messages, cursors, outbox, rejections, presence, used grants, retention |
| `daemon`, `presence`, `stream`, `mqtt`, `ipc` | what the daemon does about payloads and requests, its session and its local protocol |
| `cli`, `render`, `config`, `paths`, `text`, `error` | commands, what is printed, configuration |

Public `proof fn`s state what holds across functions: a sent message arrives as
it was written, a receipt marks its message, a grant works once, a cursor never
moves back, what awaits a receipt is never evicted, and so on.

Calls into other crates stand in small functions marked
`#[verifier::external_body]`, each with a comment that says what is taken for
granted about the call.

`app/` is the program around the library: files, sockets, the SQLite database,
the MQTT client and the command line. `tests/` runs the library with the real
crates.
