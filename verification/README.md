# Vartalaap

Serverless, end-to-end encrypted chat on the local network. Peers find each
other with mDNS, talk over QUIC, encrypt with the Olm double ratchet, and keep
everything in a vault that is sealed with a passphrase.

## Layout

- `src/` is the library, verified with Verus. It decides and computes; it does
  no I/O. A node is a state machine: frames and payloads go in, a new state and
  a list of actions come out.
- `tests/` runs the library, with the real cryptography, on nodes that share a
  network in memory.
- `app/` is the program around the library: the database, the endpoint, the
  desktop shell, and the JSON encoding of what is sent and stored.

## Modules of the library

| Modules | Subject |
| --- | --- |
| `bytes`, `order`, `keyed` | byte strings, sorting, maps and sets with byte keys |
| `sync`, `conversation`, `convergence` | messages, conversations that merge, and why replicas converge |
| `secret`, `crypto`, `ratchet`, `identity`, `json`, `hexid` | keys, sealing, sessions, signatures, ids |
| `protocol`, `contact`, `state` | what is sent, who is known, what a node knows |
| `node`, `lifecycle`, `frames`, `exchange`, `delivery`, `sending`, `queries` | what a node does and answers |
| `blobs`, `transfer`, `net` | files and frames on the wire |
| `store`, `engine`, `persist` | the vault |
| `bridge` | what the user interface is told |
| `laws` | what holds of a node as a whole |

Calls into other crates stand behind small trusted functions. Each says in its
doc comment which function it calls and what is claimed of it.
