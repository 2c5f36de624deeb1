# hibi-nuku

A sentence-mining backend for Japanese video: it imports a video with its
Japanese subtitle track, parses the subtitles (SRT, WebVTT, ASS),
segments lines against JMDict, asks a language model for English glosses
of each line, and mines a chosen line into a Hibi flash card (audio clip,
still frame, furigana, glosses, kanji with WaniKani levels).

## Layout

- `src/` — the library, verified with Verus: subtitle parsers, the
  JMDict XML reader and index, deinflection and segmentation, furigana
  alignment, track selection, ffmpeg command lines, prompt and cache-key
  construction, batching of model requests and reading the model's
  reply, merging frequency term banks, the bearer-token gate,
  upload naming, configuration, and the rules of the known-words cache.
  Each public function states its result in its contract; the
  properties that relate several calls are proof functions beside them.
- `app/` — the server around the library: HTTP routes, SQLite, running
  ffprobe/ffmpeg, the import pipeline (extracting, parsing, tokenizing,
  translating), the Hibi and OpenRouter clients, the morphological
  tokenizer, the JSON shapes of the library's types, and the
  `build-frequency` command that writes the frequency bundle.
- `tests/` — tests of the library on concrete inputs.
