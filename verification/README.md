# fast-reform

Apply bone-like deformation to point clouds quickly, with the per-point arithmetic
verified in Verus.

A pose graph gives one SE(3) correction per keyframe. `fast-reform` spreads those
corrections across the points themselves: each point is moved by a blend of the node
deltas, weighted by closeness in both space and time,

```
w_i = exp(-d^2 / 2 sigma^2) * exp(-dt^2 / 2 time_sigma^2)
```

normalized, with `nlerp` on rotations and a weighted mean on translations. A dense graph
can be thinned to a node count (`sparsify`) or to an error budget
(`sparsify_within_error`), and a `Reformer` caches the blend of a correction that is
applied many times. The per-point loop runs on rayon's thread pool.

Fallbacks: without timestamps the blend is spatial only; a point far from every node takes
its nearest node's delta; an empty cloud or an empty correction is a pass-through.

## Numbers

Everything is generic over a `Scalar`. Its operations are named by the spec functions of
`Arith`, and nothing is asked of them but that a result depends on the operands alone. So
the contracts say exactly which operations are performed, on what and in which order, and
hold under any rounding. What the formulas mean is proved over the mathematical reals, in
`exact`. `Fixed` is a verified fixed-point scalar, with bounds on how far its exponential
and sine are off in `fixed::accuracy`; `app/` supplies double precision.

## Layout

| module | contents |
| --- | --- |
| `scalar`, `fixed` | the arithmetic interface, and fixed-point numbers |
| `sequence`, `selection`, `order` | sums and extremes; index lists and flags; stable orders |
| `math`, `graph`, `point_cloud` | vectors and quaternions; corrections and their blend form; clouds |
| `warp`, `parallel` | the per-point warp, and the loop that runs it |
| `sparsify`, `reformer` | greedy decimation, and the stateful handle |
| `synthetic`, `demo` | drifted loop scenes, and the buffers of the web demo |
| `field`, `thinning` | laws of every warp and of every thinning |
| `sweep`, `open_loop` | laws of scaling a correction: to the last digit, and under rounding |
| `exact` | laws of the formulas under exact arithmetic |

`app/` holds the double-precision scalar and the C-ABI surface of the web demo.
