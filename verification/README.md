# swiboe

Swiboe is the core of an editor in which everything is a plugin. A server,
the switchboard, routes layered RPCs between connected clients: several
clients may offer a function under the same name, each at a priority, and a
call goes to the implementation with the lowest priority value first, then
on to the next one as long as each answers that it did not handle the call.

## Layout

- `src/` is the library, written in Verus and verified:
  - `rpc`, `ipc`: the protocol values and the length-prefixed framing;
  - `server`: the switchboard's routing decisions (`swiboe`), its table of
    functions (`api_table`), the bookkeeping of its connections
    (`ipc_bridge`), the core functions (`plugin_core`) and the laws that tie
    them together (`laws`);
  - `client`: the state of the calls that a client makes and serves, and the
    decisions of its routing loop;
  - `plugin`: the buffer, log, logger and file-listing plugins;
  - `gui`: key mappings, views of buffers and the terminal front end's
    decisions;
  - `c_api`: the codes of the C interface.
- `tests/` runs the library on concrete values.
- `app/` is the runtime around it: sockets (mio), threads, JSON (serde), the
  plugins' file access and the C interface.
