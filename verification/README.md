# sshttp

An HTTP `CONNECT` proxy that tunnels every request through a single SSH session:
like `ssh -D`, but it speaks HTTP instead of SOCKS5, so any tool that honors
`https_proxy` can use it directly. What the proxy decides is written in Verus
and proved against its contracts.

## Run

```
sshttp [OPTIONS] <user@host[:port]>

  -L, --listen <ADDR>              HTTP CONNECT bind address [default: 127.0.0.1:8080]
  -i, --identity <PATH>            Private key file (repeat for multiple keys)
      --passphrase-stdin           Read key passphrase from stdin instead of prompting
      --agent                      Use ssh-agent
      --password                   Use password auth
      --password-stdin             Read password from stdin
      --known-hosts <PATH>         [default: ~/.ssh/known_hosts]
      --accept-new-host-keys       Trust unknown server keys on first use (TOFU)
      --keepalive-interval <SECS>  Seconds between keepalives [default: 15]
      --keepalive-max <COUNT>      Missed keepalives that end the session [default: 3]
      --no-keepalive               Disable SSH and TCP keepalives
  -v, --verbose...                 -v info, -vv debug, -vvv trace
```

Auth methods are tried in order: keys, agent, password.

A host in brackets, as in `me@[2001:db8::1]:2222`, may hold colons; without a
port it is reached on port 22 like any other. The passphrase of an encrypted key
is prompted for on the terminal, unless it is to be read from stdin. Where there
is no terminal the key is tried without one.

- Only HTTPS-style `CONNECT` is supported. Plain HTTP forward proxying is not.
- The server's host key must be in `known_hosts`; otherwise pass
  `--accept-new-host-keys` for trust on first use.
- Bind to loopback. There is no proxy authentication.

## Layout

- `src/` is the verified library.
  - `text`: searching and trimming text, decimal numbers, ports.
  - `files`: paths and the home directory.
  - `cli`: what the options ask for.
  - `http`: reading a request, and the replies to it.
  - `connection`: one client connection, from its first byte to the end.
  - `ssh`: login methods, the check of the server key, tunnels.
  - `plan`: from the options to the ways to log in.
  - `auth`: trying those ways in order.
  - `session`: reaching the server and logging in.
  - `server`: the listener, and the keepalive of what it accepts.
- `app/` is the program: sockets, russh, stdin and logging around the library.
- `tests/` run the library.

Whatever alternates with the outside world is a state: each state is what has to
be done next, and its `step` takes in what came of it. The contract of `step` is
a function from state and event to the next state, and the proof functions named
`law_..` say what holds of every run.
