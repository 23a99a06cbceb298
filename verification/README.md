# potabot

The verified core of Potabot, a Discord bot that plays the tracks of a local
music folder in voice channels and answers the messages that mention it
through a local language model.

- `src/` is the library, verified with Verus: how generated replies are cut
  down to one message (`response`), how user mentions are found and replaced
  by display names (`mentions`), how the prompt is built from a chain of
  replies (`prompt`), when the bot may join a voice channel (`voice`), the
  playback answers, play order and presence (`playback`), help texts
  (`commands`) and the reactions to messages (`events`).
- `app/` is the bot itself: Discord, voice, the model's HTTP API, files, and
  the per-track volume, which is a float.
- `tests/` runs the library on concrete values.
