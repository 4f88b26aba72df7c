# workbench

The logic of an editor's workbench, verified with Verus:

- `theme`: checks theme family files against the keys that the editor knows. Which colour keys a
  theme leaves out or invents, which of them are deprecated, and which syntax captures it leaves
  without a style of their own or of an ancestor.
- `review`: keeps the comments of reviews of changes that an agent made, and how far their delivery
  has come. Interrupted deliveries are recovered, and what is done with is removed.
- `session`: knows what the last session left behind, and decides which windows and groups of window
  tabs are to be remembered.
- `lsp`: requests and notifications to language servers that go beyond the protocol.
- `tool`: what a tool for a language model says of itself.
- `text`, `key_set`, `json`, `ids`, `clock`: what the others are made of.

`src/` is the library; every function of it states what it does, and is proved. Calls into other
crates stand behind small functions marked with `#[verifier::external_body]`, or are given a contract
by an `assume_specification`; each says in words what it claims of the call. `tests/` runs the library. `app/` is the program `check-theme-keys`
around it, with the modules that connect the library to a database, to windows and to servers.
