# djdrop

A floating drop target for DJs: drop a link or a song name on the circle and
the track is downloaded with the right tool, then its tempo and key are
found.

- `src/` is the library, written in Verus: routing of dropped input,
  download planning and the reading of the download programs' output,
  scraping of free-download gate pages, credential references, tempo
  folding and key notation, and the circle's pixels, mouse handling and
  placement. Every function there carries a contract that Verus proves;
  the `law_*` proof functions state properties that span several calls.
- `tests/` runs the library on concrete values.
- `app/` is the shell around it: settings on disk, processes, HTTP, the OS
  keychain, audio analysis and the Win32 circle window.
