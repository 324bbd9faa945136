# trex

Verified core of the T-REX antenna controller and its host tools.

`src/` (verified with Verus):

- `protocol` – the firmware-update wire format: header types, the
  serializer, and the receiver that finds headers in a byte stream; laws on
  reading back what was written.
- `manager` – what the device does with each header, chunk and digest;
  firmware is only written or applied once the running firmware is validated.
- `session` – the device side of an update connection as a byte-driven state
  machine, and the law that a validated device writes exactly the image the
  host flashes.
- `image` – flattening the loadable segments of an ELF file into one image
  and checking it against the flash configuration.
- `flash` – the frames the host sends to flash an image.
- `digest` – the BLAKE3 digest (through the `blake3` crate).
- `logger` – the frame buffer of the TCP log transport (frames are encoded
  by `defmt`, whose rzCOBS encoder state is tracked alongside), whole frames
  ending in the separator, and the drop count.
- `logview` – the host log viewer's set-up from a firmware image (its defmt
  table, through `defmt-decoder`) and its decisions on decoder outcomes.
- `stepper` – the step counter's position arithmetic and the law that the
  position is the signed sum of the runs.
- `control`, `telemetry` – the control loop's command handling and the
  telemetry state cell.

`app/` is the `trex-probe` command-line tool (network I/O, ELF file reading,
defmt log decoding) and the floating-point motion logic.
