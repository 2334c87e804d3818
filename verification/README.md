# interface

Front end of a path-planning simulator: a menu, a 2D map on which the user
places a start, a goal and obstacles, and a panel that follows the planner
running behind a ROS bridge.

- `src/` is the verified library (Verus): screen navigation, the 2D simulation
  state and how clicks and planner messages change it, the requests sent to
  the bridge, the rewrite of the navigation parameters file, and the text
  helpers these rest on. Coordinates and costs are carried as the bit
  patterns of their floats, so the library never computes with floats.
- `app/` is the Bevy program around it: windows, rendering, input, the
  bridge's socket thread, JSON encoding and decoding, files, and the float
  work (snapping clicks, distances, scrolling, the camera).
- `tests/` runs the library on concrete values.
