# pcanwork

The verified core of a CAN and Modbus workbench.

* `src/can`: frames, driver data, hardware timestamps, supervision of adapters, the send queue,
  periodic transmissions, replay, firmware updates and the controller that ties them together.
* `src/modbus`: the protocol, a simulated server, the polling client, searches, charts and logs.
* `src/workbench`: what the user interface decides: filters, message tables, curves, channel
  settings, the requests of scripts, send tasks and projects.
* `src/ends.rs`: the ends of the channels between threads and tasks. An end that one owner holds
  records what it was handed or what it brought.
* `src/text.rs`, `src/bytes.rs`, `src/lists.rs`, `src/table.rs`, `src/order.rs`, `src/ratio.rs`: texts,
  bytes, sequences, tables, sorting and fractions.

The library decides and computes; it performs no input or output. Where work on a device or a
connection alternates with decisions, a function takes the outcome of one step and says what
follows. `app/` performs the steps: it calls the driver libraries, runs the threads and the
network, and computes with floating-point numbers. Times in the library are nanoseconds, fractions
are ratios of integers, and floating-point values are carried as bit patterns.
