# music_db

A music library: songs mined from MP3 tags into SQLite, browsed, searched and
played in a GTK window. The search language and everything around it that
computes is a verified Verus library under `src/`; `app/` holds the program
(GTK, GStreamer, SQLite, file system).

## Search language

    expr := and ("+" and)*        or
    and  := not ("^" not)*        and
    not  := "~" not | atom        not
    atom := "(" expr ")" | field ":" value

Fields are `title`, `album`, `performer`, `year`, `genre` and `track`; a value
is a word or text between double quotes.

## Layout of `src/`

- `lexer`: tokens with their byte spans (`tokenizar`).
- `ast`, `parser`: the expression tree and the parser (`parsear`).
- `query_builder`: the `WHERE` clause with numbered placeholders (`expr_a_sql`).
- `dao`: SQL of the song listings and of a search (`preparar_busqueda`).
- `player`: playlist position (`next`, `prev`, `play_index`).
- `minero`, `arte`, `vista`: songs from tags, cover cache paths, texts of the window.
- `texto`: decimal and hexadecimal rendering, UTF-8 widths.

Each module states its functions' contracts over spec functions and proves
its laws (functions named `ley_*`).
