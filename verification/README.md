# netdisk_sync

The logic of a network-disk client: it watches shared folders and brings what changes in
them to a target, follows downloads and the speed at which they go, watches the files that
changed lately, and moves files to and from S3-compatible storage.

`src/` is verified by Verus: every function has a contract, and proof functions whose names
begin with `law_` state what holds of several functions together.

- `share_sync/`: subscriptions, snapshots of a share, what changed between two of them, and
  the runs that carry the changes over. A run, its waits, a restart, a capture and a
  resumption are state machines: they say what to do next, and are told what came of it.
- `netdisk/`: links to shares, the requests and answers of the two share systems, and the
  watcher of recent files.
- `downloader/`: folder downloads and their progress. Speeds are whole bytes per second.
- `cloud_sync/`: connections, jobs, signed requests, the listings that storage answers with,
  and the rows that jobs and connections are stored as.
- `server/`: what the HTTP handlers answer.
- `text`, `numbers`, `time`, `collections`, `sorting`, `ids`, `registry`, `transfer`: what
  the others share.

`app/` is the ordinary Rust around it: async tasks, HTTP, files and the database. It performs
what the library asks for and hands back what came of it.
