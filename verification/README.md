# openixcli

Verified core of a command-line flasher for Allwinner SoCs (FEL/FES over USB).

- `src/` — the library, verified with Verus:
  - `bytes` — little-endian fields in byte buffers.
  - `config::gpt_parser` — CRC-32, GPT header and entry-array parsing, UTF-16
    partition names, lookup by name.
  - `config::boot_header` — offsets and magics of the sunxi boot0 / u-boot headers.
  - `flash::logic_offset` — FES logical-sector compensation (mod 2^32).
  - `flash::raw_image` — locating boot0/u-boot in a raw disk image, and the
    flash-raw decisions (how to reach FES, where to write, post action).
  - `flash::partition_flash` — the flash-part decisions and where the GPT is read.
  - `flash::raw_writer` — chunking, sector addressing, read-back verdicts and
    the write/verify cycle.
  - `flash::device_session`, `flash::fel_bootstrap`, `flash::fel_handler` —
    device selection, FES entry and the FEL bootstrap runner.
  - `firmware` — IMAGEWTY bootstrap repacking and sparse-image detection.
- `app/` — the binary: argument handling, USB transfers through `libefex`,
  progress bars, memory-mapped files.
- `tests/` — tests of the library.
