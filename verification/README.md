# sysadmin

A command-line helper for an AlmaLinux server: it declares BIND master zones,
writes zone files and adds records to them, sets up Apache virtual hosts,
manages `/etc/exports`, and runs tar/rsync backups and RAID 5 creation.

- `src/` is the verified library. It computes every text the tool writes and
  every command line it runs: `named_conf` (edits of `named.conf`), `zone_file`
  (zone files, records and SOA serial numbers), `httpd` (virtual hosts and the
  `Listen` directive), `nfs` (`/etc/exports`), `backup`, `raid` and `command`
  (the programs to run), `text` (the string functions they rest on), and the
  trusted boundaries to the `regex` crate (`pattern`) and to `chrono`'s clock
  (`clock`).
- `app/main.rs` parses the arguments with `clap`, reads and writes the files,
  reads the local time for backup names, and runs the planned commands.
- `tests/` exercises the library on concrete configurations.
