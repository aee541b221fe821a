# trop

A verified core for the TROP (Triply Robust Panel) estimator: treatment effects
in a panel of units and periods, estimated by weighted two-way fixed effects
with a low-rank component, tuned by leave-one-out cross-validation, with
bootstrap and survey-weighted inference.

`src/` is the library, verified with Verus.  It decides which cells enter a fit
or a score, which parameters are tried and selected, which units a replicate
consists of, how weights are laid out and stored, when an iteration ends and
which arguments are refused.  Numbers are carried as the bits of IEEE-754
binary64 values.  Floating-point arithmetic, decompositions and solvers are
passed in as functions; the contracts say what they are applied to.

`app/` is ordinary Rust around it: the arithmetic, the linear algebra, the
thread pool and the C interface.

| module | content |
| --- | --- |
| `bits`, `matrix`, `panel`, `tuning`, `error` | encodings, tables, treatment, parameters, status codes |
| `arithmetic` | signatures of the functions passed in |
| `distance`, `weights`, `kernels` | distances between units, kernel weights |
| `estimation`, `fit`, `model`, `alternating` | layout and control flow of the fits |
| `twostep`, `joint` | fits of a cell and of a panel under their weights |
| `loocv`, `crossval`, `workers` | leave-one-out criterion |
| `search`, `minimum`, `caching`, `selection`, `tuned` | search of the parameter grids |
| `rng`, `bootstrap`, `replication` | resampling and estimates on replicates |
| `survey`, `rao_wu` | survey designs and their resampling |
| `inference`, `variance` | summaries of replicates, bootstrap runs |
| `determined`, `joint_determined` | that the data of a panel determine its fits |
| `agreement` | laws that relate runs to each other |
| `entry` | checks and outputs of the C interface |
