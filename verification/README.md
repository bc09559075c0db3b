# stellar_k8s

The decisions of a Kubernetes operator for Stellar services, as a library whose behaviour is
stated in contracts and proved with Verus, and the operator's parts that talk to the cluster.

- `src/` is the verified library. Each module states what its functions return or change over
  plain mathematical models: texts as sequences of characters, maps as `Map`, times as
  microseconds since the epoch, and numbers that are only carried and compared as the bits of a
  double (`reading`).
  - `approval`: change requests, votes and the admission decision.
  - `api_gateway::deprecation_timeline`, `migration_safety`, `composite_slo`,
    `benchmark_bisect`: reports and gates of the delivery pipeline.
  - `backup::consistency_group`: the order in which interdependent workloads are frozen,
    captured and restored.
  - `cardinality`, `latency`, `namespace_security`: budgets of metric series, latency
    objectives with canaries, and the security baseline of namespaces.
  - `compliance::evidence_schedule`, `flag_bundle`: signed evidence and signed flag bundles.
  - `connection_drain`, `controller`: shutdown, lifecycle hooks, ownership, the registry's
    pull gate and deployment anomalies.
  - `text`, `name_pattern`, `strmap`, `bounded`, `ranking`, `seqs`, `json`, `span`, `reading`,
    `duration_text`: what the others are built from.
  - `clock`, `calendar`, `digest`, `ids`: the calls into `chrono`, `sha2`, `hmac`, `hex` and
    `uuid`, with what is claimed of them. `text`, `json` and `latency::deploy_marker` hold the
    few calls into `std` and `serde_json`.
- `tests/` runs the library on concrete values.
- `app/` is ordinary Rust around it: the `stellar-hooks` runner, Kubernetes and HTTP clients,
  Prometheus metrics, JSON copies of the library's types, and floating-point arithmetic.
