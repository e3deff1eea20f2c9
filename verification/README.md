# beachcomber

A daemon that caches what providers know of a machine and its projects, such as
the branch of a repository, and answers clients from the cache.

`src/` is the logic, with contracts that Verus proves:

- `query` parses keys and plans requests
- `get` answers reads step by step, running sources on a miss
- `watch` streams the changes of a key
- `server` handles requests, lines and the socket
- `report` and `status` write what the daemon says of itself
- `watcher` decides how files are watched
- `cache`, `provider`, `protocol`, `value` and `text` hold the data
- `read` reads one slot of the cache
- `course` and `storage` hold laws that span several modules

`app/` runs it: sockets, tasks, files and the wire format. `tests/` holds the
tests.

The library takes the time, the outcome of running a source and everything else
from outside as arguments. Trusted are the contracts of `notify::Config`, of
`Duration::from_secs` and of `char::is_whitespace`, each stated where it is used.
