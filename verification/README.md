# kctx

A fast, read-only Kubernetes context switcher and inspector. It finds the contexts of all local
kubeconfigs, lets the user pick one, and takes a read-only look at the cluster behind it. It never
modifies Kubernetes resources and never writes to a kubeconfig.

Everything that decides is a library verified with [Verus](https://github.com/verus-lang/verus);
the program around it performs I/O.

| Path | What it holds |
| --- | --- |
| `src/kubeconfig` | discovery, contexts, the effective context, ambiguity |
| `src/kubernetes` | failures, what is asked of a cluster, snapshots, health observations |
| `src/filter.rs`, `src/app.rs` | searching and the interactive state with its snapshot cache |
| `src/ui` | key presses and what the screen says |
| `src/output.rs`, `src/cli.rs`, `src/logging.rs` | stdout, commands and their failures, log destinations |
| `src/paths.rs`, `src/text.rs`, `src/time.rs` | paths and overlay file names, text, spans of time |
| `app` | environment, disk, network and terminal |
| `tests` | scenarios, run against the compiled library |

What is not proved is marked `Trusted:` in the sources: a handful of functions of the standard
library (`String::push`, `str::to_lowercase`, two renderings by the standard formatter, and the
monotonic clock).

Laws that relate several functions stand beside them as public proof functions named `lemma_..`.
