# cwbot

The logic of a Discord bot that trains Morse code (CW), verified with Verus.

- `src/levenshtein.rs` — edit distance in which spaces are inserted and
  deleted for free, the alignment found by tracing back through the table,
  and the laws that tie them together (the alignment spells both inputs, it
  costs exactly the distance, no alignment costs less, spaces are free).
- `src/lesson_long.rs` — lesson texts (`alpha`, `koch:<level>`), the
  normalization of a copied text, and the reply that compares it with the
  text that was keyed.
- `src/bot.rs` — the calls the bot takes part in, by guild, and their modes.
- `src/commands.rs` — slash-command names and the `/neko` reply.
- `src/text.rs`, `src/rng.rs` — characters, trimming, splitting, number
  parsing, and random draws.
- `app/` — Discord glue (serenity): command definitions, option readers, the
  shared registry behind a lock, and the long lesson's message handler.
