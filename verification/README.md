# fm350d

Backend daemon and command line for the Fibocom FM350 5G modem on OpenWrt
(the data side of `luci-app-fm350`).

- `src/` is the library, verified with Verus: AT response parsing, the IMEI
  guard and Luhn check, SMS PDU encoding and decoding, IPv4/IPv6 address
  handling, the UCI and shell commands that bring the interfaces up, the
  API routes, and the daemon's watchers as state machines (decisions from
  state and observation to next state and action).
- `app/` is the program around it: the serial port, the HTTP server, `uci`
  and `ip` invocations, the daemon loop and the command line. It performs
  what the library decides.
- `tests/` exercise the library on concrete inputs.
