# feo

A small system monitor for Linux (CPU and GPU temperature, CPU load, RAM and
swap use, uptime), split in two:

- `src/` is the verified library. It reads the text of the kernel's reports
  (`/proc/meminfo`, `/proc/stat`, `/proc/uptime`, the output of `nproc` and
  `vcgencmd`) and lays out what the monitor shows: CPU load gauges, memory in
  use with a binary unit, uptime as hours, minutes and seconds, colour
  schemes. Memory amounts are computed with integers that hold exactly the
  values the monitor's `f32` arithmetic gives, for every amount the report
  writes as an integer numeral; `Memory::fields` hands other numerals to
  the program, which reads them as floating-point numbers.
  - `text`: numerals, column alignment, splitting, trimming, number parsing.
  - `memory`: the `f32` model of amounts, `Memory` and its display.
  - `system_info`: reading CPU counts, CPU times and the report fields.
  - `monitor`: the display lines, the command-line arguments and the delay.
  - `colors`: colour schemes. `error`: why a report could not be read.
- `app/` is the program: command line, file and process I/O, temperatures
  (floating point), colours on the terminal, and the update loop.
