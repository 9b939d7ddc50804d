# stargaze

An observatory on a planet, looking out at a star system, and a puzzle: draw the
orbits that you believe you see, and have the theory scored.

`src/` is the library, proved with Verus. Floating-point values enter it as bit
patterns (`Number`), which it orders, bounds and hands on; the arithmetic on them
is the program's.

| Module | Purpose |
| --- | --- |
| `number`, `text`, `order`, `input` | ordered numbers, text, stable sorting, hit tests |
| `sim`, `presets`, `config` | scenes, the built-in systems, scene files |
| `topology`, `board`, `game` | orbit trees and their score, the diagram, the notebook |
| `state`, `sight`, `stars`, `pathtracer` | telescope, visibility, star grid, accumulation |
| `menu`, `ui`, `shell`, `startup` | map browser, toolbar and font atlas, input routing, command line |

Every public function states what it returns or changes; proof functions named
`law_…` state what holds across them.

`app/` is the program around the library: window, GPU, files and floating-point
geometry. It reads scene files from `configs/` and WGSL shaders from `shaders/`
beside `Cargo.toml`.
