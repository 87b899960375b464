# Kafkamitter

A Kafka client for macOS: connections, topics, messages, sending, and consumer groups.

The logic is a library that Verus verifies. The contracts of its public functions state what they
return or change, and public proof functions state what holds of the library as a whole. What
depends on the machine, such as its time zone or the version of the client library that is linked,
is stated as far as it holds everywhere.

- `src/model/` holds the data: connections and their properties files, key stores, messages and the
  store that keeps the newest of them, searching, JSON, lag, and settings.
- `src/kafka/` holds what is decided around requests to a cluster: configurations, where a reader
  starts, the loop that reads a topic, the scan of consumer groups, and what answers mean.
- `src/ui/` holds what each view shows and how it reacts.
- `src/app.rs` holds the window: its tabs, its connections, and what is shown of them.
- `src/cli.rs` holds the command line.
- `src/text.rs`, `src/text_map.rs`, `src/order.rs`, `src/path.rs` and `src/wire.rs` hold what the
  others share.
- `tests/` runs the library.
- `app/` is the application around it: files, the keychain, threads, the client library's calls, and
  the window on macOS.

Outside crates are called through declarations whose contracts are believed without proof. Each of
them names the function it stands for and says what is claimed of it.
