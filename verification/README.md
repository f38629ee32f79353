# waveshare-epaper

Driver core for the Waveshare 4.2" e-paper module (400 x 300, 1 bit per pixel) and
the "now playing" music server that renders screens for it, with their behaviour
stated in contracts and proved with Verus.

- `src/` — the verified library
  - `framebuffer` — pixel layout of the 15000-byte framebuffer, painting, laws
  - `bus` — the operation plans drivers emit, SPI framing and payload laws, busy-line polling
  - `ssd1683`, `il0398` — the two panel controllers: exact command sequences of init,
    refreshes and sleep, as plans; a model of the SSD1683's two image RAMs
  - `canvas`, `render` — grayscale canvas, album art, progress bar, screen text,
    time formatting, title shortening, packing into the framebuffer
  - `backend` — Navidrome/Spotify request parameters and reply interpretation
  - `firmware` — the display client's refresh cadence and server base URL
- `app/` — the HTTP server, HTTP clients, glyph drawing and dithering (floating point),
  and the `embedded-hal` executors that carry out driver plans on hardware
- `tests/` — tests of the library
