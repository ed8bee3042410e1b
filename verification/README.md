# wakeupLLM

A proxy that starts local model servers when a request first needs them, forwards
OpenAI-style requests to them, and stops them when they are idle. A small window shows the
models and lets the user start, stop and tune them.

## Layout

- `src/` is the library. It holds every decision of the program, with contracts that Verus
  proves:
  - `text`, `json`: text as the proxy reads and writes it, and JSON documents by `serde_json`;
  - `http`, `replies`, `body`: the messages that pass through, what the proxy answers itself, and
    the parameters that a profile adds to a request;
  - `config`, `manager`, `netstat`: the models, their servers, and processes on their ports;
  - `proxy`: one connection, as a machine from events to actions;
  - `selections`, `dashboard`, `card`, `tray`: what is kept between runs and what the user sees;
  - `http_laws`, `proxy_laws`: what holds of all messages and all connections. Laws about one
    module stand in that module, under names that begin with `law_`.
- `app/` runs the library: sockets, processes, files and the window. It asks a machine of the
  library what to do, does it, and hands back what happened.
- `tests/` runs the library on concrete values.

Functions marked `external_body`, and the items that begin with `assume_specification`, say what
is believed of `serde_json` and of the standard library; everything else in `src/` is proved.
