# ic_oss_cli

The verified core of a command-line client for IC-OSS, object storage in canisters of the Internet
Computer.

`src/` decides and computes.  Every function in it carries a contract, and Verus proves them all but
those of the few calls into other crates and the standard library, which are taken on trust.

| Module | What it holds |
| --- | --- |
| `entry`, `file`, `folder`, `storage`, `gc`, `batch`, `upload`, `reader`, `bucket`, `principal` | the requests and replies of a bucket, and what makes a request valid |
| `sync::planner`, `sync::pull` | plans that bring a bucket folder, or a local directory, up to date |
| `sync::local`, `sync::tree`, `sync::remote`, `sync::excludes` | the scans of both sides, and what holds of a scanned tree |
| `sync::journal`, `sync::execute`, `sync::run`, `sync::batches`, `sync::atomic` | carrying an upload plan out, and taking it up again after an interruption |
| `sync::download`, `get_file` | downloading, and whether what came in is the file |
| `client`, `upload_file`, `content`, `retry` | plain uploads |
| `transcode` | the transcode worker, the approval of its outputs, and cleaning up after it |
| `token`, `commands` | access tokens, and what the commands decide between their calls |
| `text`, `ordered`, `framing`, `sync::arrange` | texts, sorted maps, framed bytes and stable sorting |
| `outside` | the calls into other crates, each behind the contract that the library relies on |

Work that waits for the network, the disk or another program is a state machine: it tells what is
to be done next and takes in what came of it.  `app/` drives these machines; it holds the command
line, the calls to canisters, file access and printing.

Properties that relate several functions are the public proof functions whose names begin with
`law_`.
