# egui_skia

Paints [egui](https://github.com/emilk/egui) with Skia.

The crate under `src/` is the part that decides. It takes a frame as egui gives it (textures to
set and to free, meshes, callbacks) and returns the list of commands that paint it. It is
verified with Verus, with one function taken on trust: `egui_split_to_u16` in `mesh` calls
`egui::Mesh::split_to_u16`, which cuts a mesh into pieces with 16-bit indices. Of that function it
is believed that its result depends on the indices and the vertices alone; that up to 65535
vertices are one piece with the indices unchanged; that the pieces together pick the vertices of
the mesh in its order; and that each piece has at most 65535 neighboring vertices, indices that
stay within them, and, where the mesh had to be cut, at least one index.

- `painter`: the `Painter`, which keeps track of the textures and turns frames into commands.
- `frame`: what a frame is, which commands it becomes, and when it can be painted.
- `command`: the commands, and how a mesh is prepared for drawing.
- `texture`: what has to be done to create or patch a texture.
- `mesh`: meshes, and cutting them into pieces with 16-bit indices.
- `runs`: cutting a mesh where it changes between solid color and glyphs.
- `color`: vertex colors without premultiplied alpha, in exact single-precision steps.
- `geometry`: coordinates, held as the bit patterns of floats.
- `raster`: sizes and pixels of raster surfaces.
- `laws`: what holds of every frame.

`app/` is the backend: it converts the values of egui, and carries out the commands on a Skia
canvas.

## Raster surfaces

Skia fetches no color from a texture where all texture coordinates of a mesh are equal, which is
what egui uses for solid colors. On raster surfaces this shows. `Painter::with_cpu_fix(true)` works
around it: meshes of the font atlas are cut into runs, those at `(0, 0)` are painted plain white,
and textures are sampled without filtering.
