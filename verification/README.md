# alloy_project

A small voxel sandbox built on bevy. The library in `src/` holds the game's
rules, each proved with Verus:

- `grid`: the sparse world grid (bevy's `HashMap` from block position to the
  block id and the entity that shows it), the starting ground, and the box
  query that collision uses. The save-then-load law is stated and proved here.
- `world_file`: the world file format, one `x y z id` line per block, how it
  is written and read, and the proof that reading gives back what was written.
- `decimal`, `text`: integer text as `Display` writes it and `FromStr` reads it,
  whitespace tokens and line pieces.
- `commands`: the console commands.
- `textures`: which files of the asset folder are blocks. Every `name.png`
  is the block `name`; `0.png` is the ground, block 0. The other blocks get
  the ids from 1 up in the order of their names (shorter first, so numbered
  textures keep their numbers), whatever order the folder lists them in.
- `blocks`: the block selected with the mouse wheel, the labels, and what a
  click on a block does.
- `player`: flight and noclip modes, landing and jumping, the mouse cursor.

`app/main.rs` is the bevy game around the library: window, rendering, input,
files, and the floating-point parts (movement, camera, ray casting).
