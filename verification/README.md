# log_viewer

A viewer for robot logs. Each log line has the form `[time] name | type : data`.

- `src/` is the verified library: text splitting (`text`), number and float-literal
  reading (`number`, `float_text`), field-object records (`field`), log records and
  line reading (`entry`), whole logs grouped by name and type (`loaded`), graph
  switches and what gets plotted (`graph`), the caches kept beside the robot
  connection (`grabber`, `assoc`), and the viewer state (`viewer`).
- `app/` is the program around it: the egui window, the HTTP requests to the robot,
  the file dialogs, and the display of floating-point values.
- `tests/` runs the library on concrete inputs, and compares number reading with
  `str::parse`.
