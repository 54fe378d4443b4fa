# weather_landscape

A weather landscape drawn on an HTML canvas: the ground follows the forecast
temperatures, rain, snow and clouds fall over each forecast hour, trees bend
with the wind, and a small read-out shows the temperature in sprite digits.

- `src/` is the verified library (Verus): sprite keys (`sprites`), the
  temperature read-out glyphs (`glyphs`), the plan of the ground line
  (`terrain`), the hour strips, precipitation cells, clouds, trees and flower
  frames (`weather`), and the landscape's seeded random generator
  (`landscape`).
- `app/` is the WebAssembly front end: it deserialises the forecast, does the
  floating-point work (temperature scaling, Bezier curves, random offsets and
  densities) and draws on the canvas.
- `tests/` runs the library on concrete scenes.
