# roleplay_core

The verified core of a role-play chat engine, written in Verus.

- `src/memory_builder.rs` turns a game's dialogue lines into the message list
  the LLM of one character receives: its own lines become `assistant`
  messages, what it perceived becomes `user` messages, its persona line the
  one `system` message, and tool calls stay paired with their results.
  `src/memory_laws.rs` proves what holds of every such list.
- `src/possession.rs`, `src/identity.rs` and `src/dialogue.rs` hold the
  decisions of possession, player identities and the AI dialogue script event.
- `src/text.rs`, `src/types.rs` and `src/tool_result.rs` are the string
  helpers, the data types and the decoding of tool-result payloads.
- `app/` is the unverified side: the serializable copies of the types, the
  decoding of tool-call JSON, and the asynchronous orchestration against the
  host application's services.
