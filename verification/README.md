# nekonote

The verified core of a Discord bot that reposts Amazon Japan product links
as embeds, offers buttons that show every image of an embedded tweet,
previews linked Discord messages, decodes percent-encoded EUC-JP text and
relays like/retweet requests to an external API.

- `src/` is the library, verified with Verus: link patterns (`patterns`),
  text operations (`text`), decoders (`decoder`, `percent_encoding`), product
  page reading and embeds (`amazon`), tweet image grouping (`twitter`),
  message links and previews (`message_url`), command requests and replies
  (`commands`), and the decisions taken on events (`event`, `webhook`).
- `app/` is the Discord client around it: it talks to Discord and the web
  and hands the library plain values.
- `tests/` runs the library on concrete inputs.
