# demo2

A telemetry collector and its viewer. The collector decodes CAN frames
(SENT and 3-axis), raises and clears alarms, stores samples and events in
PostgreSQL, and streams everything to viewers. Its CAN ingress runtime
works over an adapter port; no adapter, serial or TCP device transport is
built in, so the collector as shipped starts no device ingress and does not
report its ingress ready.

The decisions of both programs live in a library verified with Verus
(`src/`): frame decoding, the CAN ingress core and its signal watchdogs,
the signals a sensor sample produces and the SENT smoothing windows,
the device session core and its reconnect lifecycle, alarm thresholds and
SENT jump detection, the alarm state shared between collector and viewers,
the feed framing, the database writer's batching, the viewer's alarm panel
and its database requests, calendar arithmetic and the text the programs
show.

`app/` is the runtime around it: sockets, PostgreSQL, the tokio tasks, the
floating-point signal processing, serde, and the egui window.
`demo2 collector` starts the collector; without an argument the viewer
starts.

`tests/` exercises the library from outside.
