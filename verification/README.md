# stepci

Runs GitHub Actions workflows on the local machine, one step at a time, and
shows what each step changed.

`src/` is the library. It is written in Verus: every function states in
`requires` and `ensures` what it takes and what it gives back, and Verus proves
it. `app/` is the program around it: the command line, processes, files, and
the conversion of floating point numbers.

| Module | What it holds |
| --- | --- |
| `expr` | the `${{ }}` language: tokens, grammar, evaluation, interpolation |
| `model`, `parse` | workflows and actions, and how they are read |
| `exec` | the order of jobs, matrices, contexts, steps, actions, the run itself |
| `envfile`, `wfcmd`, `secrets` | the formats that steps and users write |
| `diff`, `record`, `report` | what changed, what is kept of a run, how it is shown |
| `artifact`, `cache`, `fetch` | what the well-known actions and remote actions need |
| `value`, `members`, `json`, `double`, `numeral`, `numtext` | values and numbers |
| `text`, `scan`, `order`, `table`, `strmap`, `tables`, `paths`, `relpath`, `digest`, `results` | the ground below |

Functions named `law_*` are statements about the library as a whole: that a
value written to an environment file is read back, that jobs run after the jobs
they need, that no secret is left in a masked line.

Where the library calls another crate or a part of the standard library that
Verus knows nothing of, the call stands in a small function marked
`external_body`, whose contract is believed. Each such function says what it
claims.

A number whose reading or printing needs floating point is not computed in the
library: an evaluation that meets one reports what it needs (`numeral::Need`),
the caller supplies it, and the evaluation is made again.
