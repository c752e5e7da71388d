# captive_portal_finder

Detects captive-portal login URLs on a Linux network and prints a ranked
list of them.

- `src/` is the verified library. `detectors/` holds one module per
  detection strategy (DHCP option 114 in lease files, NetworkManager device
  state, HTTP redirect probes, NetworkManager connectivity configuration,
  a probe of the default gateway, `nmcli` status, `wpa_cli` status); each
  turns what was read from the system into portal URLs or status notes.
  `output.rs` ranks and de-duplicates the candidates and renders the text
  or JSON report, and states the laws of that ranking. `install.rs` decides
  which optional tools are missing and how each package manager installs
  them. `text.rs` holds the character-level helpers (trimming, lines,
  words, decimal digits) and `urls.rs` the calls into the `url` crate.
- `app/` is the program around it: argument parsing, file and directory
  reads, subprocesses, HTTP requests and printing.
- `tests/` exercises the library on concrete inputs.
