# autoscaler

An autoscaler that scales a service horizontally (more or fewer replicas) and
vertically (more or less CPU and memory for each). Its decisions, its simulator,
its proxy's routing and its text formats are written in Verus and proved against
their contracts.

## Layout

- `src/` is the library.
  - `double` computes with IEEE 754 binary64 numbers in integer arithmetic. Each
    operation is proved to give the nearest number, so that every formula of the
    controllers has an exact contract. `double/laws.rs` and `double/decimals.rs`
    hold what follows from that, such as that growing a replica count by 1.3 and
    rounding up is exact.
  - `text` holds what the library needs of strings, over sequences of characters.
  - `simulator`, `controller`, `scenarios` are the simulated closed loop;
    `shared` holds workloads, metrics and the controller of real workers.
  - `http` and `docker` hold the decisions behind real workers: which process or
    container to start or stop next, where the proxy sends a request, what a
    report says, when to scale.
  - Functions named `law_..` state what holds of several functions together.
- `app/` is the program around it: command line, sockets, threads, processes,
  files, and the few things that take floating point (the sine of a wave, numbers
  as decimal text).
- `tests/` compares the arithmetic with the machine's own, runs the scenarios
  against a floating-point model, and gives each contract and law values.

## Scenarios

`autoscaler scenario <name>` runs `steady`, `step`, `burst`, `growth`, `workday`
or `flash-sale`. With `--csv` the data goes to `data/<scenario_name>.csv`:

```csv
time_s,rps,queue,replicas,cpu_per_replica,mem_per_replica,cpu_util,mem_util,latency_ms,action
1,100,0,1,1,2,100,50,10,-
```
