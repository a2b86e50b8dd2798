# jackmute

A JACK client that toggles and switches JACK connections by shortcut characters.

- `src/` is the verified library:
  - `config/` reads the groups of the config file (ports, connections, muteable and
    switchable connections), with every refusal worded and stated exactly;
    `config/laws.rs` proves that the order of a group's attributes does not matter.
  - `connections/` holds the connections and the runs that toggle, switch and connect them.
    A run asks the audio server one request at a time and takes its reply, so the decisions
    are verified apart from the server; `connections/server_model.rs` proves what the runs do
    against a server that carries out every request (toggling twice restores the links, a
    switch leaves exactly one of its connections linked, and so on).
  - `status.rs` builds the status screen; `program.rs` wires config and connections together
    and reads a line of user input.
- `app/` is the program around it: the config file on disk, the JACK client and its audio
  callback, the terminal and socket input, and the server loop that feeds the runs the JACK
  server's replies.
- `tests/` runs the library on concrete values.
