# notes

A terminal viewer for a vault of markdown notes with images and LaTeX
formulas, whose core is verified with Verus.

```text
vault/
├── notes/      markdown notes with optional YAML frontmatter (title, tags)
└── images/
```

## Run

The program takes `--vault <dir>` (default `vault`) and `--debug`, which
appends a log to `~/.cache/notes-rs/log/notes-tui.log`.

## Layout

- `src/` — the verified library (`notes`):
  - `text.rs` — characters, whitespace, trimming, words, lexicographic order;
  - `frontmatter.rs` — tag normalization (trimmed, deduplicated ignoring case,
    sorted), with its laws;
  - `parser.rs` — image links and the blocks a note body splits into;
  - `vault.rs` — a note assembled from its file's frontmatter and body, the
    `.md` rule and the order of the note list;
  - `formula.rs` — formulas prepared for MathJax, SVG tinting, the formula
    cache's file names;
  - `math.rs` — inline `$..$` TeX as readable Unicode text;
  - `markdown.rs` — markdown events rendered to styled lines and tables;
  - `viewer.rs` — cell geometry, image heights, the tag search;
  - `preview.rs` — the blocks of a note's preview and where each is drawn;
  - `browser.rs` — the viewer's state and how keys and clicks change it.
- `app/` — the terminal program: reading the vault from disk, MathJax and
  resvg rendering, drawing with ratatui, the event loop.
- `tests/` — tests of the library.

## Controls

| Action | Keys / mouse |
|--------|--------------|
| Search by tags | `/` or click the search field |
| Exit search | `Esc` or `Enter` |
| Quit | `q` outside search, `Ctrl+Q` anywhere |
| Show all tags | `t` |
| Select note | `↑/↓`, `j/k`, click |
| Page through note list | `PgUp/PgDn` (with list focused) |
| Scroll preview | scroll wheel, `Space/b`, `Ctrl+D/Ctrl+U` |
| Focus the note list | `Ctrl+L` |
| Reload vault | `Ctrl+R` |
| Cycle images in the note | `[` / `]`, `Ctrl+↑/↓` |
| Open selected image externally | `o` or `Ctrl+O` |
| Fullscreen image | click image, `Esc` to close |
