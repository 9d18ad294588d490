# kernel

The verified core of a small x86_64 hobby kernel's console and frame
bookkeeping, written in Verus.

- `src/types` – the pixel colour and the named colours.
- `src/font` – glyphs of the Noto Sans Mono bitmap font (through the
  `noto-sans-mono-bitmap` crate), tinting a glyph pixel, and the sequence of
  pixel writes that drawing a glyph performs.
- `src/framebuffer` – a framebuffer addressed by pixel, drawing 16-pixel text.
- `src/graphics` – the framebuffer the terminal draws on (pixels, clearing,
  scrolling) and the text terminal itself: cursor movement, newline, tab,
  backspace, scrolling at the bottom, and coloured log lines.
- `src/memory` – counting physical frames through the boot loader's memory map.
- `src/mem`, `src/cpu` – heap placement, interrupt vectors, the double-fault
  stack, and PS/2 keyboard decoding (through the `pc-keyboard` crate) with
  the decoded keys written to the terminal.

`app/` is the boot glue around the library: boot-loader requests, page
tables, descriptor tables, interrupt handlers, locks, and copying the drawn
pixels to video memory.
