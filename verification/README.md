# quick-memory

Long-term memory that several machines share through one bucket. The bucket is the
authority; the search index is derived from it and can be rebuilt by any machine.

The library in `src/` is what decides: every function in it has a contract and is proved
against it. It does no I/O. An operation that talks to a bucket is a run: it is told what
happened and says what to do next. The program in `app/` carries that out.

## Layout

- `src/store/` — the commit protocol of a project: manifests, page versions and their
  chains, sessions of observations, handoffs, leases, the catalog of splits, garbage
  collection and integrity checks, and the probe that shows whether a backend really
  honours conditional writes.
- `src/search/` — what is indexed and how: the analyzer for CJK text, entities and links of
  a page, index documents, split containers, embeddings, the fusion of result lists, the
  search of a project, compaction, and the compilation of a session into a page.
- `src/s3_stub/` — a small S3-compatible bucket, for probes that need a real client and no
  network: requests, conditional writes, listings with continuation tokens, injected faults.
- `src/probe/` — configuration and scenarios of the probes, and what they check.
- `src/json.rs`, `little_endian.rs`, `numbers.rs`, `ordered.rs`, `sort.rs`, `text.rs`,
  `trim.rs`, `unicode.rs` — what the rest stands on.
- `app/` — sockets, object storage, the full-text index, language models, the command line.
  Identifiers, object keys, hashes and scrubbing come from `qm_core`, embeddings from
  `qm_llm`; only `app/domain.rs` names them.

## Conventions

- A type with text or lists in it has a view, and contracts speak of views.
- A run has `start` and `next`; a spec function says what `next` does, state by state.
- Numbers that are floats elsewhere are kept as their bits. Arithmetic on them is in `app/`.
- What relates several operations is a `law_…`.
- The few functions of other crates that the library calls stand behind wrappers whose
  comments say what is taken for granted.
