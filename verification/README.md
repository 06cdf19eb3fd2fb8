# webview_app

A Windows desktop shell around a web view. `src/` is the verified library
(Verus): which URLs belong to the app, start-page and `mailto:` handling,
notification origins, single-instance naming and hand-over messages, toast XML,
and the shell's small decisions. `app/` is the Windows program that performs
the window, web-view, pipe, mutex and notification calls with those results.
`tests/` exercises the library on concrete values.
