# snake

A snake game in which the head, the apple and every tail segment are
windows of their own, moved across the screen.

- `src/` is the game's logic, verified with Verus: grid cells and steps
  (`grid`), the snake and its numbered tail windows (`snake`), the game and
  its rules (`game`), the screen positions and window events (`screen`),
  the keyboard (`controls`), the stored high score (`score`), descriptions
  (`text`, `errors`) and the random numbers it draws (`random`).
- `app/` is the program: the windows (winit, wgpu), the keyboard loop, the
  game thread and the high-score file.
- `tests/` runs the library on concrete games.
