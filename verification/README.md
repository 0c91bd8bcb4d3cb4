# buildermon

A monitor for NixOS build hosts: a small HTTP server that streams the build
log and reports system metrics, and the logic behind a browser dashboard.

`src/` is the verified library:

- `http` routes requests and frames every response of the HTTP server.
- `net_history`, `collector` keep the transfer-rate histories.
- `interfaces` chooses the network interface that is reported.
- `metrics_doc` builds the `/metrics` JSON document and reads the host
  address from `ip -4 addr show`.
- `logs` turns log bytes into lines and keeps the state of the log watcher
  and of the browser's terminal.
- `build_target` names what is being built from the latest log lines.
- `leadership` decides which browser tab streams live data.
- `format`, `sparkline` produce the texts and graphs the dashboard shows.
- `text`, `clock` hold shared helpers.

`app/` holds the server program: sockets, files, the `ip` command, sysinfo
sampling, background tasks, and the figures computed in floating point.
