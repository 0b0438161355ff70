# agapornis_agent

The agent that runs on every node of an Agapornis installation. It creates, starts, stops and
supervises game servers in Docker containers, keeps their consoles, files and backups, and answers
the master over gRPC with mutual TLS.

- `src/` is the library: what the agent decides and computes, verified with Verus. Each public
  function states what it returns; each `law_` function states something that holds of several of
  them together.
- `app/` is the program around it: sockets, files, processes, the Docker Engine, S3, clocks and
  random numbers. It performs what the library decides and hands back what happened.
- `tests/` runs the library on concrete values.

The messages of the four gRPC services are JSON objects with the field names of the protocol
`agapornis.v1`; its protobuf encoding is not part of this project. Paths of files are those of Unix
systems; of Windows the library knows the default directories and drives.

## Modules of the library

| Module | What it holds |
| --- | --- |
| `text`, `table`, `json`, `time`, `digest`, `process`, `paths`, `error` | Strings, tables, documents, moments, digests, programs, paths and failures |
| `protection` | Rates of console lines and commands, and what was found wrong with a server |
| `supervisor` | Crash loops and full disks |
| `console` | Decoding output, bounded history, and who reads a console |
| `configuration` | Editing configuration files line by line, or as JSON, YAML or XML |
| `docker` | Containers: creating, installing, starting, stopping, replacing, measuring |
| `files` | Listing, reading, writing, moving and packing files; Modrinth packs |
| `backup` | Archives, encryption, retention, S3 keys, and restoring all or nothing |
| `certificate` | The agent's identity and the master's |
| `update` | Fetching, activating and taking back updates of the agent |
| `node` | Telemetry, packages and CrowdSec alerts |
| `config`, `services` | Settings, and what requests are answered |

Functions and types marked `external_body` are the library's boundary: each stands for one of another
crate or of the standard library, and its documentation says what is taken for granted of it.
