# kitty_graphics

The Kitty graphics protocol for a terminal multiplexer, verified with Verus.

An application sends images in APC sequences. `dispatch` classifies the body of
such a sequence. `KittyGrid` keeps the images and placements of one grid and
says which of them a viewport shows. `KittyRenderState` writes the sequences
that transmit, place and delete them in the outer terminals of the clients.

- `src/` holds the library. Each operation has a contract over the view of its
  type; the `*_laws` modules prove what relates several operations.
- `tests/` runs it on concrete values.

Two functions are believed rather than proved: `std::str::from_utf8`, which
accepts exactly valid UTF-8, and `base64::decode`, whose result is only named.
