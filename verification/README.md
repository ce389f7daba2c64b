# meow

A small package manager for Arch Linux repositories.

- `src/` is the verified library: reading repository `desc` records and
  mirror lists, searching a repository database for a package, the layout
  of the local package database, the addresses of mirrors and of the
  archlinux.org package search, choosing what an installation or an upgrade
  fetches, reading the command line, decompressing downloaded packages,
  repository databases and mtree files, and reading the list of files a
  package installs from its mtree file.
- `app/` is the `meow` program around it: the configuration file, the disk,
  the network, archives unpacked to the file system, and the terminal.
- `tests/` runs the library on concrete inputs.
