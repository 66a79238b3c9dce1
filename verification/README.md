# herdr-remote-download

Transfers files between a remote Herdr session and the machine that is connected to it. The
receiver runs on the connected machine and is reached through an SSH `RemoteForward`; the sender and
the picker run in the remote session.

The library under `src/` holds the logic, with contracts that Verus proves:

- `text`, `paths`, `encoding`, `digest`, `json`, `http`: characters, Unix paths, encodings,
  checksums, JSON objects and header blocks;
- `token`, `filename`, `archive`: the shared token, the names that files are saved under, the
  entries that are restored from an archive;
- `protocol`, `receiver`, `upload`, `chooser`: what the receiver answers, how it takes in an upload,
  how it sends files that were chosen on its side;
- `sender`, `sending`: how a file is offered to the receiver, and what its answers mean;
- `selection`, `picker`, `keybinding`: which file is meant by what is selected, clicked or shown;
- `settings`, `service`: options, places, and the receiver as a service of the system.

`upload::Upload`, `sending::Sending` and `token::TokenSetup` are state machines: they say what is to
be done next and are told what came of it, so that every property of a transfer can be stated over
sequences of events.
Proof functions whose names begin with `law_` state what holds of the library as a whole: that only
complete and verified files are saved, that no temporary file is left, that nothing is received or
chosen without the token, that no name leaves its directory, that what one end writes the other end
reads.

The program under `app/` does the input and output: sockets, files, processes and the screen. The
picker's matching and drawing come from `herdr-tiny-fingers`, which has to be supplied to build it.
