# mcconvert_core

Converts Minecraft: Java Edition worlds saved by 26.1 or later into the layout and NBT
formats that 1.21.11 down to 1.18.2 read.

- `src/` is the verified library. NBT values are modelled by `nbt::Nbt` (compounds as
  ordered lists of named entries, floats by their bit patterns); every conversion rule
  is an executable function whose contract states its result through a spec function
  over that model. Modules: `downgrade` (item stacks, entities, block entities),
  `level_dat`, `data_files`, `chunk`, `mapping`, `layout`, `pipeline`, `version`,
  `codec` (gzip/zlib through flate2), `nbt_bytes` (NBT bytes read and written by
  fastnbt), `report`, `error`, `text`, `ieee`, `keymap`.
- `app/` is the `mcconvert` command line: argument parsing (clap), file and region I/O
  (fastanvil), the model's floats rebuilt for writing, parallel region rewriting
  (rayon) and the error type with `Display` (thiserror).
- `tests/` runs the library on concrete worlds' data.
