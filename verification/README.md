# Stow core

The core of Stow: files that are not in use are moved to an S3 bucket, leaving a
placeholder, and are brought back byte for byte when they are wanted.

The library under `src/` is verified with Verus. It decides; it does not act. What
takes several steps in the outside world (offloading, restoring, sharing, migrating,
setting up, creating and fetching items) is a flow: it asks for one action at a time
and takes the reply (`effects`). What only computes is an ordinary function.

| Module | What it holds |
|---|---|
| `offload`, `restore`, `share`, `migrate`, `init`, `folder` | the flows |
| `laws` | laws of every run of a flow, whatever the host answers |
| `world` | laws of whole runs in a model of the world: what is taken away comes back |
| `engine` | configuration, status, candidates, tallies |
| `index`, `provider`, `table` | offloaded files, share links and items, by key |
| `policy`, `dates` | which files may be offloaded |
| `cache` | caches of developer tools that can be deleted |
| `archive`, `hash`, `s3`, `links`, `paths`, `placeholder` | archives, content hashes, storage, share links, paths, stubs |
| `config`, `error` | configuration and errors |
| `text`, `lists`, `order` | strings, sequences, sorting |

`app/` is ordinary Rust around the library: the C interface and the host that performs
the actions, with SQLite, the AWS SDK and the file system. The mirror area of the Stow
folder belongs to the embedding app, which registers it (`app/platform.rs`).
