# soulgit-proposals (verified)

A Verus library for the refs-only proposal model: proposal state lives in Git
refs under `refs/soulgit/proposals/<id>/`, and a proposal summary is projected
from a plain listing of `(ref name, oid)` pairs.

Layout:

- `src/kinds.rs` — proposal states, review decisions, check results, their
  names, and `ParseError`.
- `src/validate.rs` — validation of ids, actors and target branches.
- `src/refs.rs` — the ref names the builders write, and the reading of a ref
  name back into a proposal id and a metadata entry.
- `src/proposal.rs` — `Proposal`, `Review`, `Check` and their models.
- `src/project.rs` — `project`, with its specification: only refs that point
  at the current head count; summaries come out in id order.
- `src/commands.rs` — the decisions of the proposal commands: push arguments,
  deletion refspecs, reading `git ls-remote` output, listing lines, new ids.
  A command that replaces a family of refs (an update's target, author and
  state refs; one actor's reviews or checks; the state refs) deletes only the
  listed refs whose names start with that family's prefix under the
  proposal, so stale attestations stay for audit.
- `src/laws.rs` — properties that relate several functions (names written by
  the builders read back; created and attested proposals project back; moving
  the head makes attestations stale; stale and foreign refs change no summary;
  an applied update projects at the new head; a listing has one projection).
- `src/reorder.rs` — the projection does not depend on the order of a listing
  that names no ref twice.
- `src/text.rs` — character-level string helpers.
- `app/` — running `git`, printing, and serde/thiserror forms of the types.

Design note: `project` groups refs by proposal id in a `Vec` of builders kept
sorted by id and searched by binary search, rather than in a `BTreeMap` keyed
by `String`. vstd specifies `BTreeMap`, but with `String` keys the ordering of
its iteration and the outcome of lookups cannot be stated in a contract, so the
sorted-by-id order of the result (and every lookup) would go unproved; the
sorted `Vec` makes both part of the verified contract.
