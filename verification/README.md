# uulp

Small Unix system programs — a file copier and lister, a working-directory
printer, terminal-settings and curses demos, prompting shells and a small
shell with variables, pipe and redirection demos, a calculator front end for
`dc`, time, remote-`ls` and web servers, datagram programs, and a ticket
based license server with its clients.

The decisions and the text these programs produce live in a library whose
behaviour is specified and proved with Verus; the programs themselves are a
thin layer of I/O around it.

## Layout

- `src/` — the verified library, one module per topic:
  - `text` — whitespace, trimming, word splitting, decimal and octal
    formatting, number parsing, byte offsets in UTF-8 text;
  - `shell` — the shell's variable table and its command decisions;
    `psh` — the argument collector of the prompting shells;
  - `ls`, `fileinfo`, `pwd`, `tty`, `wait` — file modes and listing lines,
    status lines, path assembly, terminal flags, child status words;
  - `bounce` — the state of the terminal animations and their keys;
  - `calc` — reading `number op number` lines and talking to `dc`;
  - `webserv`, `remote` — request routing and replies of the servers;
  - `tickets`, `counted`, `client` — the license servers' ticket tables
    and protocol, and the clients' side of it.
- `tests/` — tests of the library on concrete values.
- `app/` — the programs: `app <program> [args...]` runs one of them.

Each public function states its result in `ensures`; the properties that
relate several functions (a parsed number reads back as formatted, an issued
ticket validates, a returned ticket no longer does, the animations stay on
screen, and so on) are proof functions named `law_*`.
