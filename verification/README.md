# sgtop

Live terminal dashboard for a sglang inference server: prefill and decode rates,
memory pools, latency percentiles, stalls. The logic is a library whose behaviour
is stated in contracts and proved with Verus; the program around it reads the
command line, talks to the endpoint and paints the terminal.

## Layout

- `src/` is the library. `src/lib.rs` says which module does what. Contracts stand
  over spec functions of the same module; properties that relate several functions
  are public proof functions whose names start with `law_`.
- `app/` is the program: options, the connection, floating-point arithmetic, colors,
  and the painting of the library's drawing operations.
- `tests/` runs the library on concrete payloads, with `f64` arithmetic and, for the
  screen, a real terminal buffer.

## Numbers

The library holds readings as binary64 bit patterns. Comparing, clamping and
truncating them is verified. Adding, dividing, reading and printing them is asked of
functions that the caller hands in: `calc`, `read` and `show`. A contract such as

```
forall|m: Model| num::models(calc, m) ==> r == stalls_of(m, flags, dt, w)
```

says that the result is the stated composition of whatever `calc` computes.

## What is taken on trust

- `String::push` of the standard library appends one character (`src/text.rs`).
- `Layout::split` of ratatui divides an area into one part per size, none of which
  leaves the area (`src/screen.rs`). Which division it picks where the sizes cannot
  all be met is left open: what is drawn is stated for every division.

## Keys

| Key | Action |
|---|---|
| `q` / `Esc` | quit |
| `space` | pause scraping |
| `c` | toggle compact / full layout |
| `g` | toggle graphs |
| `1` `2` `3` | focus the 5s / 15s / 60s window |
| `t` | cycle theme (gruvbox, catppuccin, tokyonight) |
| `e` | explain screen |
| `?` | keymap |
| `+` / `-` | poll interval (0.5 to 10 s) |
| up / down | scroll the explain screen |
