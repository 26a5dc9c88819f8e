# mcdougs

A browser for live McDougall auction lots in the terminal, with its logic proved in Verus.

It shows the lots of one city, Saskatoon unless another is named, and hides those that have
closed unless they are asked for. A click on a lot opens it in the web browser.

## Layout

- `src/` is the library: text and numbers (`text`, `numbers`), reading the listings (`markup`,
  `listing`, `details`, `cleaning`, `fields`, `moments`, `links`, `paging`), sorting and choosing (`ranking`, `catalog`), what is
  kept on disk (`cache`, `preview`), what is fetched and made in the background (`keys`,
  `table`, `desk`, `gallery`, `fetching`, `work`, `queues`, `answers`, `upkeep`), and the screen
  (`browser`, `layout`, `pointer`, `keyboard`, `screen`, `drawing`, `frames`, `profile`). Every
  function states in its contract what it returns or changes; which pixels a picture has once it
  is decoded or scaled is left open, as that rests on the machine.
- `app/` is the program around it: the command line, the network, the disk, the threads, the
  terminal, and what is computed in floating point.
- `tests/` runs the library on examples.
