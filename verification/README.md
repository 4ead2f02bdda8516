# Valve Server Manager

A terminal UI that blocks and unblocks Steam Datagram Relay (SDR) regions
in the system firewall, so that matchmaking picks the regions you prefer.

The project is split in two:

- `src/` is the library, written in Verus and verified: the relay-region
  data and its grouping by region, the reading of `ping` output, the
  iptables and netsh drivers (which commands they run and how they read
  the replies), and the state machine of the terminal UI (what each key
  does to the selection, the blocked set and the settings).
- `app/` is the program around it: terminal drawing with ratatui, the event
  loop, the background pinger threads, reading and writing the settings
  file, fetching the SDR configuration over HTTP, and running commands.

## Layout of `src/`

| module | contents |
| --- | --- |
| `text` | character-level helpers: search, line splitting, trimming |
| `sdr` | PoPs, the PoP map, the filtering of a fetched configuration, regions |
| `config` | the settings and where they are stored |
| `ping` | ping targets, batches, and the round-trip time of a reply |
| `firewall` | the driver interface, the platform dispatch, a recording executor |
| `firewall::linux` | the `VSM_BLOCKS` iptables chain |
| `firewall::windows` | one netsh rule per PoP |
| `tui` | the UI state, the sorted PoP list, the key handling |
| `tui::ui` | the text of what the screen shows |

Each driver keeps, as ghost state, the commands it ran with their replies
and the requests made of it with its answers; the contracts of the drivers and of the UI
state are stated over them.

## Tests

`tests/` holds the tests, which run the library against a recording
executor instead of the system firewall.
