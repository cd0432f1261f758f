# spark-dashboard

A host dashboard for inference engines (vLLM, llama.cpp): it finds the
engines running on the machine, polls them, and exports what it sees to a
Splunk HTTP Event Collector.

- `src/` is the verified library: engine detection from process tables and
  Docker listings, the per-engine model-cache and grace-period state machine,
  the HEC exporter's state machine and idle gate, HEC answer classification,
  token masking, llama.cpp model and slot bookkeeping, log-line buffering and
  forwarding, and Prometheus prefix normalisation. Each public function
  carries a contract; the `law_*` proof functions state what holds across
  calls.
- `tests/` runs the library on concrete values.
- `app/` is the program around it: command line, HTTP server, WebSockets,
  Docker and engine HTTP calls, timers, and the systemd service commands.
