# bautista_bot

A home assistant that switches smart plugs on in the cheapest hours of the
day's electricity prices and answers a few chat commands.

- `src/` is the verified library: the choice of the cheapest hours
  (`rules::util`), the device rules and their whole-day patterns (`rules`),
  the prices held and when they are due (`prices`), the configuration model
  (`config`), the wished state of each plug and the bridge protocol
  (`devices`), the chat requests and messages (`telegram`), the persistent
  status (`status`), the chat commands (`commands`) and the report text
  (`report`), with small helpers for text, dates and string-keyed maps.
- `app/` is the program around it: reading the configuration and status
  files, talking to the price service, the tide service, the Telegram API and
  the plug bridge, and the main loop.
- `tests/` runs the library on concrete values.
