# chapeau

Chapeau answers, for a Fedora system: what is installed, why it is there,
what it depends on, and whether it can be removed. It keeps a knowledge base
of resources (packages, Flatpaks, services, repositories), their
relationships, the domains that own or use them, and the roots: the
resources that are intentionally present.

The library in `src/` is written in Verus; every function in it carries a
contract that Verus proves.

- `model/` — resources, relationships, domains, roots, observations, the
  knowledge-base tables (`store`), the system graph (held in a `petgraph`
  graph behind specified wrappers), the orphaned/unused analyses, removal
  plans, and the root classification policy that turns DNF package facts
  into intentional roots.
- `backends/` — parsers for the output of `dnf5`, Flatpak and systemd, and
  the merging of systemd's unit listings.
- `discovery/` — the snapshots the backends produce.
- `cli/` — what each command computes from the knowledge base: the
  overview, `show`, `why`, the roots, domain and dependency listings, the
  service/repository/package/Flatpak listings, and the decisions of the
  commands that change roots and domains.
- `text.rs`, `order.rs`, `seqs.rs` — text, ordering (a verified stable
  sort) and sequence facts shared by the rest.

Besides the contracts, public proof functions named `law_*` state the
properties the library keeps across calls: for packages with distinct
names, every classification decision (scores, root flag, evidence and
demotions) does not depend on the order of the input, roots and repositories are never reported by the
removal analyses, a removal plan removes only its target, every root appears
in the overview, and others.

`app/` is the command-line program around the library: argument handling,
the SQLite knowledge base, running `dnf5`, `flatpak` and systemd over D-Bus,
and printing.
