# minecraft_sourcecode_tracker

Mirrors the Minecraft client versions whose sources are published
deobfuscated into a git repository: it lists the open-source versions of the
launcher's version manifest, skips those already tagged in the repository,
and for each remaining one (oldest first) downloads the client jar,
decompiles it with CFR, and commits, tags and pushes the sources.

Layout:

- `src/` — the verified library (Verus):
  - `piston_meta` — reading the version manifest: which versions are open
    source (release time at or after the open-source date, listing stopped at
    the first older one), and the client-jar url and file name;
  - `tracker` — which listed versions a round still has to process, oldest first;
  - `java_decompiler` — the decompiler command, its errors, and the steps from
    locating java to the exit of the decompiler;
  - `git` — identity, credential attempts, reference names and refspecs,
    which files go into a commit, the remote's tag list, and the steps of
    fetching a branch and of committing, tagging and pushing a version.
- `app/` — the program around it: command line, HTTP downloads, the file
  system, the decompiler process, the git repository, and the timer.
- `tests/` — tests of the library.

The CFR decompiler jar is expected at `vendors/cfr-0.152.jar` beside the
executable (or below the working directory).
