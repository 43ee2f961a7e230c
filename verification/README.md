# vora_recon

A monitor of the local network on the terminal, with its logic verified by
Verus: what packets say, what hosts announce, which devices a scan finds, what
is alerted, and what the panels and the session report show.

## Layout

- `src/` is the library. Every function in it states what it gives or changes,
  and Verus proves that it does. Laws that hold of several functions together
  are the public proof functions whose names begin with `law_`.
- `app/` is the program around it: the terminal, sockets, files, threads, the
  tables of the system, and what is floating point.
- `tests/` runs the library on concrete values.

## The library

| Modules | What they hold |
|---------|----------------|
| `text`, `bytes`, `table`, `net`, `order` | texts, numbers in bytes, tables and sets, addresses, lists in order |
| `packet`, `dns`, `tls`, `http`, `dhcp`, `capture` | what a captured frame says |
| `traffic`, `flows`, `names`, `fingerprint`, `watch`, `rules`, `alerts`, `state` | what packets add to the state, and the alerts that they raise |
| `mdns`, `announce`, `probe`, `ssdp`, `banner`, `arp`, `naming`, `vendor`, `apple` | how devices are asked, and what they answer |
| `scan`, `board`, `enrich`, `judge`, `category`, `pairing`, `control`, `device` | a scan from its first reply to the devices that are kept |
| `hostname`, `hosts`, `geoip`, `process` | names, places and programs of addresses |
| `formatting`, `screen`, `panels`, `inventory`, `detail`, `radar`, `drawing` | what is shown |
| `session`, `report` | keys, other threads, and the report of a session |

## Time

The library has no clock. Times of the steady clock are nanoseconds since the
program began, times of the wall clock nanoseconds or seconds since the epoch;
callers hand them in.

## What is trusted

A few small functions call other crates, and Verus believes what they state:
`pnet` takes frames apart and puts address requests together, `regex` matches
the patterns of host names, `dashmap` holds devices and programs, and
`unicode-segmentation`, `unicode-truncate` and
`unicode-width` take texts apart and measure them. Each says in its comment
what it claims.

## Data files

The program reads `oui.txt`, the list of hardware address prefixes and their
makers, and `laptopbraille.txt`, the picture of the own host, from the
directory of its executable. Without them makers are unknown, and the picture is
empty.
