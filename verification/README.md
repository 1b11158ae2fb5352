# pot

The logic of a small Discord moderation bot, verified with Verus.

- `src/` is the library: command parsing and routing, permission levels,
  the warning list (`!warn`, `!rm`, `!ls`), dice rolls, the automatic replies
  and the rotating status, each with its contract.
- `app/` is the bot around it: configuration and warning files, the Discord
  gateway, and the calls that send messages.
- `tests/` runs the library on concrete values.
