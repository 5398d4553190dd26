# hongbao_telnet

A telnet server that hands out a red envelope (hongbao), with its codec and
its session logic proved against their specifications.

- `src/codes.rs`: telnet command and option bytes.
- `src/data.rs`: the items of a telnet stream and subnegotiation answers.
- `src/decode.rs`, `src/encode.rs`: the codec over a `BytesMut` buffer, each
  function stated against a specification of the wire format.
- `src/laws.rs`: what is written is read back; what reading takes.
- `src/session_laws.rs`: what holds of a session over a whole connection.
- `src/service.rs`: the session as a state machine from events to actions.
- `app/`: the TCP server, the codec traits of `tokio_util`, and the screens.
