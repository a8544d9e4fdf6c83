# hoptodesk

The user-interface logic of a remote-desktop client, verified with Verus.

`src/` is the verified library:

- `launch` — reading the command line: which window opens, the peer id,
  password, token and further arguments of a session, `hoptodesk://`
  links, host:port splitting, the remote-update decision.
- `children` — the registry of session windows that run as child
  processes and of their command pipes (both kept per peer and session
  type), and the commands and listings derived from it.
- `handlers` — the computing part of the window's script handlers
  (options and favourites to store, the stored options read back from
  their JSON text, peer rows, update locations,
  ticket answers, published versions).
- `encoding` — Base64 and `data:` URLs, and the two-factor QR image.
- `ocr` — pixel conversion for the OCR bitmap, the once-per-thread WinRT
  initialisation, and the error texts of the OCR steps.
- `zoom` — integer decisions of the pinch-zoom hooks.
- `text` — string helpers with exact specifications.

`app/` holds the window, the processes, the gesture arithmetic on floats
and the JSON and script-value conversions around the library; what the
rest of the client provides is reached through its `Host` trait.
