# rp2350_touch

Pong on a round touch-screen AMOLED board, with a core that is verified with
[Verus](https://github.com/verus-lang/verus).

- `src/` is the verified library. It holds what the firmware decides and computes
  on integers: frame buffer and shapes (`canvas`, `color`, `geometry`), the traffic
  to the panel (`bus`, `display`), the touch controller (`touch`), the field
  (`arena`, `field`, `score`), the screens (`screens`, `text`, `battery`), the
  rules of a match and the timing of the screens (`game`), the fireworks after a
  won match (`fireworks`) and the random numbers (`rng`).
- `app/` is the firmware around it: the hardware, the loops that perform what the
  library decides, and the flight of ball and sparks in floating point.
- `tests/` runs the library on concrete values.

A frame is a sequence of RGB565 pixels, row by row. What a drawing function does
is stated by the pixels that take a new colour; all others keep theirs. Traffic
to the panel and the touch controller is a sequence of steps, which the firmware
performs one after the other.

Text is drawn with `embedded-graphics`. That call is the one place where a
contract is believed and not proved: see `text::render`.
