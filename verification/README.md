# shepherd

The services that run a robot in the arena: a web app that takes start and
stop requests, a runner that tracks the robot's run state, and a websocket
relay that forwards MQTT messages, robot logs and camera images.

- `src/` is the verified library (Verus): the run-state machine and the
  events control messages raise, the configuration and its defaults, the MQTT
  handler registry and what the event loop does with each event, the log
  buffer, the newline framing of camera images and the websocket topic filter.
- `app/` is the asynchronous plumbing around it: HTTP routes, MQTT polling
  and publishing, pipes, websockets, GPIO and the TOML/JSON forms of the
  library's types. `app/main.rs` starts one service, named by its first
  argument: `app`, `run` or `ws`.
- `tests/` runs the library on concrete values.
