# rata_tea

The Elm Architecture for terminal applications, with its core verified by
Verus.

- `src/` is the verified library: subscription identifiers and how they
  combine (`sub_id`), lists of commands and subscriptions (`work`), the
  running subscriptions and how they are rebuilt after each update
  (`active`), the listeners of the event bus (`bus`), the decisions of the
  application loop (`event_loop`), the view trait (`tea`), which terminal
  events the key subscriptions pass on (`terminal`), and properties
  that relate several of these (`laws`).
- `app/` is the asynchronous runtime around it: commands and subscriptions
  as boxed futures, the typed event bus, the terminal, and the runner that
  carries out what the loop decides.
- `tests/` exercises the library on concrete values.
