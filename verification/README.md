# hivemind

Mail between the machines of a group of people, and between the programs that
run on them. Each machine runs a node. A node keeps its own mailboxes, knows the
members of its group by their certificates, and hands mail over directly: there
is no server in the middle.

The library in `src/` is what a node decides and remembers, verified with Verus.
It does no input or output. A node is a value, `service::MailService`; every
operation on it is stated over a mathematical picture of the node,
`service::ServiceV`, as the node afterwards and the answer. The time, fresh ids,
signatures, the verdict on a proof of the group key, digests of bytes and
full-text hits are handed in as plain values. What is to be written to disk or
announced comes out as a list of effects, in order.

| module | what it is about |
|---|---|
| `text`, `encoding`, `time`, `table`, `sorting` | characters and numbers, hexadecimal and base 32, moments and spans, ordered maps, stable sorting |
| `ids` | node ids, digests, message ids, group keys, and their texts |
| `message`, `store` | messages, drafts and their limits; mailboxes and envelopes |
| `peerbook` | peers and the addresses they were reached at |
| `service` | the node: sending, receiving, reading, receipts, files, peers, groups, presence, sessions, conversations |
| `outbox`, `presence`, `discovery`, `freshness` | what is waiting, when a round is due, whom to greet, which binary runs |
| `peer` | what a node answers to other nodes |
| `local`, `openapi` | what it answers to its own machine, and the document of that |
| `web` | the pages a browser is shown |
| `problem` | how a failure is told |

`app/` is ordinary Rust around it: the two HTTP listeners, the templates, and
the workers that say hello, look for peers, deliver mail and fetch files. What
it needs of the machine (keys, disk, network) is the trait `platform::Platform`.

`tests/` runs the library.

## Failures

Failures are told as RFC 9457 documents. The `type` member is stable:

| type | title | status |
|---|---|---|
| `/problems/message-not-found` | No such message | 404 |
| `/problems/ambiguous-id` | Id matches more than one message | 422 |
| `/problems/invalid-query` | Query is not one this endpoint understands | 400 |
| `/problems/invalid-message` | Message is not acceptable | 422 |
| `/problems/no-recipients` | Message has no recipients | 422 |
| `/problems/not-paired` | Not paired | 403 |
| `/problems/already-in-group` | Already in a group | 409 |
| `/problems/invalid-group-code` | Not a group code | 422 |
| `/problems/identity-mismatch` | Identity does not match the certificate | 400 |
| `/problems/bad-signature` | Signature does not verify | 400 |
| `/problems/peer-unreachable` | Peer could not be reached | 502 |
| `/problems/blob-not-found` | No such attachment | 404 |
| `/problems/blob-too-large` | Attachment is too large | 413 |
| `/problems/unsafe-attachment-name` | Attachment name is not a file name | 422 |
| `/problems/addr-not-found` | No such address | 404 |
| `/problems/internal` | Internal error | 500 |
