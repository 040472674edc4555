# kmlcli

A KML/KMZ viewer for the terminal: a braille map with a vector-tile
background, a floating feature tree, and non-interactive `info`, `list` and
`tree` subcommands.

The logic is a Verus library under `src/`, each function proved against its
contract:

- `model`, `parser`, `text_map`, `text`: the document model, the conversion of
  a KML element tree into it (styles, StyleMap resolution), lookups and counts.
- `commands`: what the `info`, `list` and `tree` subcommands report.
- `tiles`: Mapbox vector tile decoding (command streams, tags), tile ranges,
  background segments and labels, the template of a TileJSON document, tile
  URLs and payloads, and the LRU store of rendered tiles.
- `tui`: the key and mouse maps, tree-panel navigation and layout, the rows
  of the tree view, the details panel, and what the map draws for the
  document.
- `clip`: the decisions of Cohen-Sutherland line clipping.

`app/` holds the program around it: the command line, file and network I/O,
threads, floating-point projection, and drawing with ratatui.
