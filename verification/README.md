# deformpath

Tooling for planning the trajectory of a tool that reshapes terrain: a heightmap deformation
page draws trenches, circles and rectangles into heightmaps, and a path generation page finds
the deformed shapes in a difference map, places points inside them and orders those points
into a trajectory.

The library under `src/` is verified with Verus:

- `grid` — occupancy grids (which cells of a heightmap hold a shape), with connectivity of
  cells that share a side.
- `pathgen`, `trajectorygen` — shape types, edge detection (one shape, or every connected
  shape), and point generation inside shapes (regular spacing, random scattering, and
  Lloyd relaxation over voronoi cells).
- `update` — the command line: key handling, splitting and lower-casing of commands, and the
  parsing of the commands of both pages into actions.
- `app` — the deformation kinds and the number of tabs.

`app/` is the terminal program around it: heightmap files, drawing of deformations, world-space
waypoints and their ordering, and the user interface.
