# bls

`bls` copies Bluetooth pairing keys and device information that a dual-boot
Windows installation saved in its `SYSTEM` registry hive into BlueZ's key
files on Linux.

The library under `src/` holds the logic, verified with Verus: every public
function has a contract over mathematical models (`Seq`, `Map`, spec
functions), and the properties that span several operations are public proof
functions (`law_*`).

- `text`, `order`, `strmap`: character-level text operations, the order of
  texts, and an ordered map keyed by text.
- `address`: Bluetooth addresses in canonical `AA:BB:CC:DD:EE:FF` form.
- `ini`: BlueZ key files: reading, writing, and the updates a sync makes.
- `registry`: registry values, the `Hive` a walk of the hive fills, and how
  values are read (`bytes`, `dword`, names, service UUIDs).
- `metadata`: Windows device metadata, Classic key types and long-term keys
  as BlueZ stores them.
- `bonds`: the `BTHPORT` pairing records and the key-file updates for
  Classic and LE bonds; `plan`: the work a sync finds in those records.
- `config`, `options`, `report`, `mount`: `/etc/bls.conf`, the command-line
  options, the `info` report, and the mounting decisions.
- `laws`: properties of the library as a whole.

`app/` is the command-line program around the library: argument dispatch,
file and process I/O, and the native registry-hive reader.
