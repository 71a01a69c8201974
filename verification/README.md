# open_in_browser

A desktop helper that runs a small HTTP service on `localhost`: a `POST /cmd`
request with a JWT in the `x-openinbrowser-auth` header and a JSON array of
command lines has each line split like a shell would, checked against a
blacklist of dangerous executables and arguments, and started.

* `src/` – the verified library (Verus): configuration handling, error
  messages, command-line splitting and blacklist checks, the JWT check, the
  HTTP answers and the tray menu decisions, each with its contract, and the
  laws that relate them.
* `tests/` – tests of the library on concrete values.
* `app/` – the Tauri application around the library: window, tray, store
  file, HTTP server and process spawning.
