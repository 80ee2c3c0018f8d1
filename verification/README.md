# teamwork_launcher

The model of a launcher for Team Fortress 2 that lists the servers known to
teamwork.tf, verified with Verus.

- `src/` is the library: the servers and their filters, the sort orders, the
  blacklist and its text format, the bookmarks, the sources of servers, the
  notifications, the views, the thumbnails cache, the mods registry, and the
  launcher's state with the way it reacts to each message. Verus proves every
  function against its contract, except a few small trusted items that call
  std or an outside crate (reading the clock, building a `String`, looking up
  a country's name, parsing a URL): their contracts are believed.
- `app/` is the program around it: reading and writing the settings files,
  finding the game's directories, reading commands from the console and
  carrying out what the library asks for.
- `tests/` runs the library on concrete cases.
