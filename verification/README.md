# botsim

A touch demo in which a swarm of bots draws a start menu and then runs as a
simulation. The crate is split in two:

- `src/` is the verified library (Verus): the decisions of the start menu
  (`MenuLogic`, `Clicker`), which bot is placed on which pixel of the menu
  (`menu_slots`, `NumberDigits`, `grid_extent`), how many vertices the drawing
  takes (`vertices`), the rows of the log files (`csv`), and a counting
  iterator wrapper (`IteratorCounter`).
- `app/` is ordinary Rust around it: everything that works on `f32`
  positions and forces (the bot physics, the spatial tree from
  `dinotree_alg`, wrap-around, drawing) and the file output.
